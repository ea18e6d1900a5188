//! Contracts of standard-library functions that the codec calls and that are
//! taken on trust: nothing in this crate proves them.

use vstd::prelude::*;

verus! {

/// `char::from_u32` turns a number into the `char` with that scalar value.
///
/// Assumed: the result is `Some` exactly for the Unicode scalar values
/// (`0..=0xD7FF` and `0xE000..=0x10FFFF`), and the `char` handed back has the
/// number given as its scalar value.
pub assume_specification[ char::from_u32 ](i: u32) -> (r: Option<char>)
    ensures
        r is Some <==> (i <= 0xD7FF || 0xE000 <= i <= 0x10FFFF),
        r matches Some(c) ==> c as u32 == i,
;

/// `String::push` appends one `char` to the end of a `String`.
///
/// Assumed: the text after the call is the text before it followed by `ch`.
pub assume_specification[ String::push ](s: &mut String, ch: char)
    ensures
        final(s)@ == old(s)@.push(ch),
;

} // verus!
