//! The Huffman code across the boundary.

use vstd::prelude::*;

verus! {

/// One code word: the C half of [`crate::helpers::huffman::Symbol`], field
/// for field.
#[derive(Debug, Clone, Copy, PartialEq, Eq, Structural)]
pub struct Symbol {
    /// The code word, right-aligned.
    pub code: u32,
    /// How many bits of `code` are meaningful.
    pub length: u8,
}

impl Symbol {
    /// The C half of `symbol`.
    pub fn build(symbol: &crate::helpers::huffman::Symbol) -> (out: Symbol)
        ensures
            out.code == symbol.code,
            out.length == symbol.length,
    {
        Symbol { code: symbol.code, length: symbol.length }
    }
}

/// Why a Huffman string would not decode, with `Success` for the call that
/// succeeded and `Invalid` for a null input.
#[derive(Debug, Clone, Copy, PartialEq, Eq, Structural)]
pub enum DecodeError {
    /// The input decoded (`Ok` on the C side).
    Success,
    /// The encoding does not end on the all-ones padding.
    InvalidPadding,
    /// The bits do not spell a code word.
    UnknownSymbol,
    /// The input was null.
    Invalid,
}

/// The fixed description of an error.
pub open spec fn error_text(error: DecodeError) -> Seq<char> {
    match error {
        DecodeError::Success => "ok"@,
        DecodeError::InvalidPadding => "huffman padding is not all one-bits"@,
        DecodeError::UnknownSymbol => "huffman code does not map to a known symbol"@,
        DecodeError::Invalid => "invalid argument"@,
    }
}

impl DecodeError {
    /// The error that stands for `error`.
    pub fn of(error: &crate::helpers::huffman::DecodeError) -> (out: DecodeError)
        ensures
            out == (match *error {
                crate::helpers::huffman::DecodeError::InvalidPadding => DecodeError::InvalidPadding,
                crate::helpers::huffman::DecodeError::UnknownSymbol => DecodeError::UnknownSymbol,
            }),
    {
        match error {
            crate::helpers::huffman::DecodeError::InvalidPadding => DecodeError::InvalidPadding,
            crate::helpers::huffman::DecodeError::UnknownSymbol => DecodeError::UnknownSymbol,
        }
    }

    /// A fixed description of the error.
    pub fn message(&self) -> (text: &'static str)
        ensures
            text@ == error_text(*self),
    {
        match self {
            DecodeError::Success => "ok",
            DecodeError::InvalidPadding => "huffman padding is not all one-bits",
            DecodeError::UnknownSymbol => "huffman code does not map to a known symbol",
            DecodeError::Invalid => "invalid argument",
        }
    }
}

/// One step of the decoding automaton: the C half of
/// [`crate::helpers::huffman::Transition`], field for field.
#[derive(Debug, Clone, Copy, PartialEq, Eq, Structural)]
pub struct Transition {
    /// The state to move to.
    pub next: u16,
    /// The symbol completed, meaningful only when the emit flag is set.
    pub symbol: u8,
    /// The emit, fail and ended flags.
    pub flags: u8,
}

impl Transition {
    /// The C half of `transition`.
    pub fn build(transition: &crate::helpers::huffman::Transition) -> (out: Transition)
        ensures
            out.next == transition.next,
            out.symbol == transition.symbol,
            out.flags == transition.flags,
    {
        Transition { next: transition.next, symbol: transition.symbol, flags: transition.flags }
    }
}

/// What following one bit out of a node of the code's tree reaches.
#[derive(Debug, Clone, Copy, PartialEq, Eq, Structural)]
pub enum Branch {
    /// The bit continues no code word (`None` on the C side).
    Dead,
    /// Another node, by index.
    Node,
    /// A complete symbol.
    Symbol,
}

} // verus!
