//! Text to International Morse Code translation, and back.
//!
//! The library models the five Morse primitives (short mark, long mark, and
//! the three gap widths), a fixed bidirectional code table over the 37
//! characters `a`-`z`, `0`-`9` and space, and the two translation directions,
//! each specified against spec-level encode and decode functions and proved
//! to be mutually inverse on canonical text.

pub mod morse;
pub mod text;
