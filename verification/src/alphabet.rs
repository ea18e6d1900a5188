//! The datacode alphabet: the two ranges of scalar values, and how bytes sit
//! inside one scalar value.

use vstd::prelude::*;

verus! {

/// `c` carries two bytes.
pub open spec fn is_pair(c: char) -> bool {
    0x40000 <= c as u32 <= 0x4FFFF
}

/// `c` carries one byte.
pub open spec fn is_singleton(c: char) -> bool {
    0x1FF00 <= c as u32 <= 0x1FFFF
}

/// `c` belongs to the alphabet.
pub open spec fn is_code_point(c: char) -> bool {
    is_pair(c) || is_singleton(c)
}

/// Every `char` of `text` belongs to the alphabet.
pub open spec fn is_datacode(text: Seq<char>) -> bool {
    forall|i: int| 0 <= i < text.len() ==> is_code_point(#[trigger] text[i])
}

/// The scalar value of the pair that carries `b0`, then `b1`: the tag
/// `0x40000`, `b1` in bits 8 to 15 and `b0` in bits 0 to 7.
pub open spec fn pair_value(b0: u8, b1: u8) -> u32 {
    (0x40000 + 256 * b1 + b0) as u32
}

/// The scalar value of the singleton that carries `b0`: the tag `0x1FF00`
/// and `b0` in bits 0 to 7.
pub open spec fn singleton_value(b0: u8) -> u32 {
    (0x1FF00 + b0) as u32
}

/// The code point that carries `b0`, then `b1`.
pub open spec fn pair(b0: u8, b1: u8) -> char {
    pair_value(b0, b1) as char
}

/// The code point that carries `b0` alone.
pub open spec fn singleton(b0: u8) -> char {
    singleton_value(b0) as char
}

/// Bits 0 to 7 of the scalar value of `c`.
pub open spec fn low_byte(c: char) -> u8 {
    (c as u32 % 256) as u8
}

/// Bits 8 to 15 of the scalar value of `c`.
pub open spec fn high_byte(c: char) -> u8 {
    (c as u32 / 256 % 256) as u8
}

/// The bytes that `c` carries: low byte then high byte for a pair, the low
/// byte for a singleton, nothing for a `char` outside the alphabet.
pub open spec fn carried(c: char) -> Seq<u8> {
    if is_pair(c) {
        seq![low_byte(c), high_byte(c)]
    } else if is_singleton(c) {
        seq![low_byte(c)]
    } else {
        Seq::empty()
    }
}

/// The two ranges have no scalar value in common.
pub proof fn lemma_ranges_disjoint(c: char)
    ensures
        !(is_pair(c) && is_singleton(c)),
{
}

/// The arithmetic and the bitwise reading of a pair agree: its value is
/// `0x40000 | (b1 << 8) | b0`, and masking gives the two bytes back.
pub proof fn lemma_pair_bits(b0: u8, b1: u8)
    ensures
        pair_value(b0, b1) == 0x40000u32 | ((b1 as u32) << 8) | (b0 as u32),
        pair_value(b0, b1) & 0xFF == b0,
        (pair_value(b0, b1) >> 8) & 0xFF == b1,
        0x40000 <= pair_value(b0, b1) <= 0x4FFFF,
{
    let v: u32 = 0x40000u32 | ((b1 as u32) << 8) | (b0 as u32);
    assert(v == 0x40000 + 256 * b1 + b0 && v & 0xFF == b0 && (v >> 8) & 0xFF == b1) by (bit_vector)
        requires
            v == 0x40000u32 | ((b1 as u32) << 8) | (b0 as u32),
    ;
}

/// The arithmetic and the bitwise reading of a singleton agree: its value is
/// `0x1FF00 | b0`, and masking gives the byte back.
pub proof fn lemma_singleton_bits(b0: u8)
    ensures
        singleton_value(b0) == 0x1FF00u32 | (b0 as u32),
        singleton_value(b0) & 0xFF == b0,
        0x1FF00 <= singleton_value(b0) <= 0x1FFFF,
{
    let v: u32 = 0x1FF00u32 | (b0 as u32);
    assert(v == 0x1FF00 + b0 && v & 0xFF == b0) by (bit_vector)
        requires
            v == 0x1FF00u32 | (b0 as u32),
    ;
}

/// Masking reads the bytes of any scalar value: `v & 0xFF` is its low byte
/// and `(v >> 8) & 0xFF` its high byte.
pub proof fn lemma_mask_bytes(c: char)
    ensures
        (c as u32) & 0xFF == low_byte(c),
        ((c as u32) >> 8) & 0xFF == high_byte(c),
{
    let v: u32 = c as u32;
    assert(v & 0xFF == v % 256 && (v >> 8) & 0xFF == v / 256 % 256) by (bit_vector);
}

/// A pair carries the two bytes it was made of, in their order.
pub proof fn lemma_carried_pair(b0: u8, b1: u8)
    ensures
        is_pair(pair(b0, b1)),
        !is_singleton(pair(b0, b1)),
        pair(b0, b1) as u32 == pair_value(b0, b1),
        carried(pair(b0, b1)) == seq![b0, b1],
{
}

/// A singleton carries the byte it was made of.
pub proof fn lemma_carried_singleton(b0: u8)
    ensures
        is_singleton(singleton(b0)),
        !is_pair(singleton(b0)),
        singleton(b0) as u32 == singleton_value(b0),
        carried(singleton(b0)) == seq![b0],
{
}

} // verus!
