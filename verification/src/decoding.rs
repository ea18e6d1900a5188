//! Decoding: datacode text back to bytes.

use crate::alphabet::{carried, is_code_point, is_datacode, lemma_mask_bytes};
use vstd::prelude::*;

verus! {

/// Why a text is not datacode.
#[derive(Clone, Copy, Debug, PartialEq, Eq, Structural)]
pub enum DecodeError {
    /// The text holds this `char`, which lies in neither range of the
    /// alphabet.
    InvalidCharacter(char),
}

impl DecodeError {
    /// The text of the error: the words `invalid character` and the `char`
    /// between two backticks.
    pub open spec fn spec_message(self) -> Seq<char> {
        match self {
            DecodeError::InvalidCharacter(c) => "invalid character `"@.push(c).push('`'),
        }
    }

    /// The error as text for display.
    pub fn message(&self) -> (text: String)
        ensures
            text@ == self.spec_message(),
    {
        match self {
            DecodeError::InvalidCharacter(c) => {
                let mut text = "invalid character `".to_owned();
                text.push(*c);
                text.push('`');
                text
            },
        }
    }
}

/// `text[i]` is the first `char` of `text` outside the alphabet.
pub open spec fn is_first_invalid(text: Seq<char>, i: int) -> bool {
    &&& 0 <= i < text.len()
    &&& !is_code_point(text[i])
    &&& is_datacode(text.take(i))
}

/// The index of the first `char` of `text` outside the alphabet, where there
/// is one.
pub open spec fn first_invalid(text: Seq<char>) -> int {
    choose|i: int| is_first_invalid(text, i)
}

/// The bytes that the code points of `text` carry, in the order of the text.
pub open spec fn decoded_bytes(text: Seq<char>) -> Seq<u8> {
    text.flat_map(|c: char| carried(c))
}

/// What decoding `text` gives: the bytes it carries if it is datacode, else
/// the error that names its first `char` outside the alphabet.
pub open spec fn decode_spec(text: Seq<char>) -> Result<Seq<u8>, DecodeError> {
    if is_datacode(text) {
        Ok(decoded_bytes(text))
    } else {
        Err(DecodeError::InvalidCharacter(text[first_invalid(text)]))
    }
}

/// A text that is not datacode has a first `char` outside the alphabet.
pub proof fn lemma_first_invalid_exists(text: Seq<char>)
    requires
        !is_datacode(text),
    ensures
        is_first_invalid(text, first_invalid(text)),
    decreases text.len(),
{
    let i = choose|i: int| 0 <= i < text.len() && !is_code_point(#[trigger] text[i]);
    if is_datacode(text.take(i)) {
        assert(is_first_invalid(text, i));
    } else {
        let shorter = text.take(i);
        lemma_first_invalid_exists(shorter);
        let j = first_invalid(shorter);
        assert(shorter[j] == text[j]);
        assert(shorter.take(j) =~= text.take(j));
        assert(is_first_invalid(text, j));
    }
}

/// A text has at most one first `char` outside the alphabet.
pub proof fn lemma_first_invalid_unique(text: Seq<char>, i: int, j: int)
    requires
        is_first_invalid(text, i),
        is_first_invalid(text, j),
    ensures
        i == j,
{
    if i < j {
        assert(text.take(j)[i] == text[i]);
    } else if j < i {
        assert(text.take(i)[j] == text[j]);
    }
}

/// The empty text carries no bytes.
pub proof fn lemma_decoded_bytes_empty()
    ensures
        decoded_bytes(Seq::<char>::empty()) == Seq::<u8>::empty(),
{
    assert(decoded_bytes(Seq::<char>::empty()) =~= Seq::<u8>::empty());
}

/// Decoding goes `char` by `char`: a text followed by one more `char`
/// carries the bytes of the text, then those of the `char`.
pub proof fn lemma_decoded_bytes_push(text: Seq<char>, c: char)
    ensures
        decoded_bytes(text.push(c)) == decoded_bytes(text) + carried(c),
{
    let f = |c: char| carried(c);
    assert(text.push(c).map_values(f) =~= text.map_values(f).push(f(c)));
    text.map_values(f).lemma_flatten_push(f(c));
}

/// Decodes datacode text to the bytes it stands for.
///
/// Each pair code point gives its low byte, then its high byte; each
/// singleton code point gives its low byte. Pairs and singletons may come in
/// any number and order. A text that holds a `char` outside the alphabet is
/// refused as a whole, with the message of
/// [`DecodeError::InvalidCharacter`] for the first such `char`.
pub fn decode(datacode: &str) -> (result: Result<Vec<u8>, String>)
    ensures
        match decode_spec(datacode@) {
            Ok(bytes) => result matches Ok(v) && v@ == bytes,
            Err(e) => result matches Err(text) && text@ == e.spec_message(),
        },
        result is Ok <==> is_datacode(datacode@),
        result matches Ok(v) ==> v@ == decoded_bytes(datacode@),
        result matches Err(text) ==> exists|i: int|
            is_first_invalid(datacode@, i) && text@ == DecodeError::InvalidCharacter(
                datacode@[i],
            ).spec_message(),
{
    let mut bytes: Vec<u8> = Vec::new();
    proof {
        lemma_decoded_bytes_empty();
        assert(datacode@.take(0) =~= Seq::<char>::empty());
    }
    for c in it: datacode.chars()
        invariant
            it.seq() == datacode@,
            is_datacode(datacode@.take(it.index() as int)),
            bytes@ == decoded_bytes(datacode@.take(it.index() as int)),
    {
        let ghost k: int = it.index() as int;
        let value: u32 = c as u32;
        proof {
            lemma_mask_bytes(c);
            lemma_decoded_bytes_push(datacode@.take(k), c);
            assert(datacode@.take(k + 1) =~= datacode@.take(k).push(c));
        }
        if 0x40000 <= value && value <= 0x4FFFF {
            bytes.push((value & 0xFF) as u8);
            bytes.push(((value >> 8) & 0xFF) as u8);
            assert(bytes@ =~= decoded_bytes(datacode@.take(k)) + carried(c));
        } else if 0x1FF00 <= value && value <= 0x1FFFF {
            bytes.push((value & 0xFF) as u8);
            assert(bytes@ =~= decoded_bytes(datacode@.take(k)) + carried(c));
        } else {
            proof {
                lemma_first_invalid_exists(datacode@);
                lemma_first_invalid_unique(datacode@, k, first_invalid(datacode@));
            }
            return Err(DecodeError::InvalidCharacter(c).message());
        }
    }
    assert(datacode@.take(datacode@.len() as int) =~= datacode@);
    Ok(bytes)
}

} // verus!
