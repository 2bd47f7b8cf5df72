//! The HPACK and QPACK Huffman code's table entries and failures.

use vstd::prelude::*;

verus! {

/// One code word: `length` bits, right-aligned in `code`.
#[derive(Debug, Clone, Copy, PartialEq, Eq, Structural)]
pub struct Symbol {
    /// The code word, right-aligned.
    pub code: u32,
    /// How many bits of `code` are meaningful.
    pub length: u8,
}

/// Why a Huffman string would not decode.
#[derive(Debug, Clone, Copy, PartialEq, Eq, Structural)]
pub enum DecodeError {
    /// The encoding does not end on the all-ones padding, or it spells out
    /// the end-of-string code in full.
    InvalidPadding,
    /// The bits do not spell a code word.
    UnknownSymbol,
}

/// One step of the decoding automaton, for one state and one four-bit input.
#[derive(Debug, Clone, Copy, PartialEq, Eq, Structural)]
pub struct Transition {
    /// The state to move to.
    pub next: u16,
    /// The symbol completed, meaningful only when the emit flag is set.
    pub symbol: u8,
    /// The emit, fail and ended flags.
    pub flags: u8,
}

} // verus!
