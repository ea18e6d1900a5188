//! What holds of encoding and decoding together.

use crate::alphabet::{
    is_code_point, is_datacode, is_pair, is_singleton, lemma_carried_pair,
    lemma_carried_singleton,
};
use crate::decoding::{
    decode_spec, decoded_bytes, first_invalid, is_first_invalid, lemma_decoded_bytes_empty,
    lemma_decoded_bytes_push, lemma_first_invalid_exists, lemma_first_invalid_unique, DecodeError,
};
use crate::encoding::{encode_spec, encoded_len, lemma_encode_spec_ranges};
use vstd::prelude::*;

verus! {

/// The encoded length is the number of bytes halved and rounded up: the
/// least count of code points that has room for them.
pub proof fn lemma_encoded_len_is_ceiling(n: nat)
    ensures
        2 * encoded_len(n) >= n,
        2 * encoded_len(n) <= n + 1,
{
}

/// An encoding is datacode: each of its code points lies in exactly one of
/// the two ranges, and a singleton can only be its last code point.
pub proof fn lemma_encoding_is_datacode(bytes: Seq<u8>)
    ensures
        is_datacode(encode_spec(bytes)),
        forall|i: int|
            0 <= i < encode_spec(bytes).len() ==> is_pair(#[trigger] encode_spec(bytes)[i])
                != is_singleton(encode_spec(bytes)[i]),
        forall|i: int|
            0 <= i < encode_spec(bytes).len() && is_singleton(#[trigger] encode_spec(bytes)[i])
                ==> i == encode_spec(bytes).len() - 1,
{
    lemma_encode_spec_ranges(bytes);
}

/// A text that is all pairs and singletons decodes, whatever their number
/// and order, and a text that decodes is all pairs and singletons.
pub proof fn lemma_decode_accepts_datacode(text: Seq<char>)
    ensures
        decode_spec(text) is Ok <==> is_datacode(text),
        is_datacode(text) ==> decode_spec(text) == Ok::<Seq<u8>, DecodeError>(decoded_bytes(text)),
{
}

/// A text that holds a `char` outside the alphabet is refused, and the error
/// names the first such `char` of the text.
pub proof fn lemma_decode_rejects_first_invalid(text: Seq<char>, i: int)
    requires
        0 <= i < text.len(),
        !is_code_point(text[i]),
    ensures
        is_first_invalid(text, first_invalid(text)),
        first_invalid(text) <= i,
        decode_spec(text) == Err::<Seq<u8>, DecodeError>(
            DecodeError::InvalidCharacter(text[first_invalid(text)]),
        ),
{
    lemma_first_invalid_exists(text);
    let j = first_invalid(text);
    if i < j {
        assert(text.take(j)[i] == text[i]);
    }
}

/// Where `text[i]` is the first `char` of `text` outside the alphabet,
/// decoding fails with that `char`.
pub proof fn lemma_decode_error_at(text: Seq<char>, i: int)
    requires
        is_first_invalid(text, i),
    ensures
        decode_spec(text) == Err::<Seq<u8>, DecodeError>(DecodeError::InvalidCharacter(text[i])),
{
    lemma_first_invalid_exists(text);
    lemma_first_invalid_unique(text, i, first_invalid(text));
}

/// The empty input gives the empty output, both ways.
pub proof fn lemma_empty_input()
    ensures
        encode_spec(Seq::<u8>::empty()) == Seq::<char>::empty(),
        decode_spec(Seq::<char>::empty()) == Ok::<Seq<u8>, DecodeError>(Seq::<u8>::empty()),
{
    lemma_decoded_bytes_empty();
    assert(encode_spec(Seq::<u8>::empty()) =~= Seq::<char>::empty());
}

/// Decoding undoes encoding: the datacode of any bytes decodes to those
/// bytes.
pub proof fn lemma_round_trip(bytes: Seq<u8>)
    ensures
        decode_spec(encode_spec(bytes)) == Ok::<Seq<u8>, DecodeError>(bytes),
    decreases bytes.len(),
{
    let text = encode_spec(bytes);
    lemma_encoding_is_datacode(bytes);
    if bytes.len() == 0 {
        lemma_empty_input();
        assert(bytes =~= Seq::<u8>::empty());
    } else {
        let k: int = 2 * (text.len() - 1);
        let head = bytes.take(k);
        lemma_round_trip(head);
        assert(encode_spec(head) =~= text.drop_last());
        assert(text =~= text.drop_last().push(text.last()));
        lemma_decoded_bytes_push(text.drop_last(), text.last());
        if k + 1 < bytes.len() {
            lemma_carried_pair(bytes[k], bytes[k + 1]);
        } else {
            lemma_carried_singleton(bytes[k]);
        }
        assert(decoded_bytes(text) =~= bytes);
    }
}

} // verus!
