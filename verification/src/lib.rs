//! Datacode: a reversible packing of binary data into Unicode text.
//!
//! Two bytes are packed into one scalar value of the range
//! `U+40000..=U+4FFFF`; a trailing odd byte becomes one scalar value of the
//! range `U+1FF00..=U+1FFFF`. [`encode`] is total, [`decode`] accepts any
//! text made of scalar values of the two ranges and rejects everything else.

pub mod alphabet;
pub mod assumed;
pub mod decoding;
pub mod encoding;
pub mod laws;

pub use decoding::{decode, DecodeError};
pub use encoding::encode;
