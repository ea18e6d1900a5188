//! Encoding: bytes to datacode text.

use crate::alphabet::{
    is_datacode, is_pair, is_singleton, lemma_carried_pair, lemma_carried_singleton, lemma_pair_bits,
    lemma_singleton_bits, pair, singleton,
};
use vstd::prelude::*;
use vstd::utf8::char_u32_cast;

verus! {

/// The number of code points that stand for `n` bytes: `n / 2`, rounded up.
pub open spec fn encoded_len(n: nat) -> nat {
    (n + 1) / 2
}

/// The datacode of `bytes`: code point `i` is the pair of bytes `2 * i` and
/// `2 * i + 1`, or, where byte `2 * i` is the last, its singleton.
pub open spec fn encode_spec(bytes: Seq<u8>) -> Seq<char> {
    Seq::new(
        encoded_len(bytes.len()),
        |i: int|
            if 2 * i + 1 < bytes.len() {
                pair(bytes[2 * i], bytes[2 * i + 1])
            } else {
                singleton(bytes[2 * i])
            },
    )
}

/// Encodes a byte slice as datacode text.
///
/// Every two bytes become one pair code point; a last byte left over becomes
/// one singleton code point. No input is refused.
pub fn encode(bytes: &[u8]) -> (datacode: String)
    ensures
        datacode@ == encode_spec(bytes@),
        datacode@.len() == encoded_len(bytes@.len()),
        is_datacode(datacode@),
        forall|i: int|
            0 <= i < datacode@.len() ==> is_pair(#[trigger] datacode@[i]) != is_singleton(
                datacode@[i],
            ),
        forall|i: int|
            0 <= i < datacode@.len() ==> (is_pair(#[trigger] datacode@[i]) <==> 2 * i + 1
                < bytes@.len()),
        forall|i: int|
            0 <= i < datacode@.len() ==> (is_singleton(#[trigger] datacode@[i]) <==> 2 * i + 1
                == bytes@.len()),
{
    let mut datacode = String::new();
    let mut i: usize = 0;
    while i < bytes.len()
        invariant
            i <= bytes.len(),
            i % 2 == 0 || i == bytes.len(),
            datacode@ == encode_spec(bytes@).take(encoded_len(i as nat) as int),
        decreases bytes.len() - i,
    {
        let ghost k: int = i as int / 2;
        let c: char;
        if bytes.len() - i >= 2 {
            let low: u32 = bytes[i] as u32;
            let high: u32 = (bytes[i + 1] as u32) << 8;
            let value: u32 = 0x40000 | high | low;
            proof {
                lemma_pair_bits(bytes@[2 * k], bytes@[2 * k + 1]);
            }
            c = char::from_u32(value).unwrap();
            proof {
                char_u32_cast(c, value);
            }
            i += 2;
        } else {
            let value: u32 = 0x1FF00 | (bytes[i] as u32);
            proof {
                lemma_singleton_bits(bytes@[2 * k]);
            }
            c = char::from_u32(value).unwrap();
            proof {
                char_u32_cast(c, value);
            }
            i += 1;
        }
        datacode.push(c);
        assert(datacode@ =~= encode_spec(bytes@).take(k + 1));
    }
    assert(datacode@ =~= encode_spec(bytes@));
    proof {
        lemma_encode_spec_ranges(bytes@);
    }
    datacode
}

/// Where the pairs and the singleton of an encoding stand: code point `i` is
/// a pair while two bytes are left at `2 * i`, and a singleton where one is.
pub proof fn lemma_encode_spec_ranges(bytes: Seq<u8>)
    ensures
        encode_spec(bytes).len() == encoded_len(bytes.len()),
        forall|i: int|
            0 <= i < encode_spec(bytes).len() ==> (is_pair(#[trigger] encode_spec(bytes)[i])
                <==> 2 * i + 1 < bytes.len()),
        forall|i: int|
            0 <= i < encode_spec(bytes).len() ==> (is_singleton(#[trigger] encode_spec(bytes)[i])
                <==> 2 * i + 1 == bytes.len()),
{
    assert forall|i: int| 0 <= i < encode_spec(bytes).len() implies (is_pair(
        #[trigger] encode_spec(bytes)[i],
    ) <==> 2 * i + 1 < bytes.len()) && (is_singleton(encode_spec(bytes)[i]) <==> 2 * i + 1
        == bytes.len()) by {
        if 2 * i + 1 < bytes.len() {
            lemma_carried_pair(bytes[2 * i], bytes[2 * i + 1]);
        } else {
            lemma_carried_singleton(bytes[2 * i]);
        }
    }
}

} // verus!
