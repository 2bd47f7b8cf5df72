//! HPACK primitive failures across the boundary.

use vstd::prelude::*;

use crate::ffi::Slice;

verus! {

/// One field going in: a name and a value.
#[derive(Clone, Copy)]
pub struct Field<'a> {
    /// The field name.
    pub name: Slice<'a>,
    /// The field value.
    pub value: Slice<'a>,
}

/// Why an HPACK primitive would not decode, with `Success` for the call that
/// succeeded and the Huffman failure flattened into the two ways it happens.
#[derive(Debug, Clone, Copy, PartialEq, Eq, Structural)]
pub enum Error {
    /// The primitive decoded (`Ok` on the C side).
    Success,
    /// An integer would not fit in 64 bits.
    IntegerOverflow,
    /// A representation runs past the end of the input.
    Incomplete,
    /// A Huffman string does not end on the all-ones padding.
    HuffmanInvalidPadding,
    /// A Huffman string spells bits that are not a code word.
    HuffmanUnknownSymbol,
    /// An argument was null where it may not be.
    Invalid,
}

/// The C half of a failure.
pub open spec fn error_of(error: crate::helpers::fields::Error) -> Error {
    match error {
        crate::helpers::fields::Error::IntegerOverflow => Error::IntegerOverflow,
        crate::helpers::fields::Error::Incomplete => Error::Incomplete,
        crate::helpers::fields::Error::Huffman(crate::helpers::huffman::DecodeError::InvalidPadding) => Error::HuffmanInvalidPadding,
        crate::helpers::fields::Error::Huffman(crate::helpers::huffman::DecodeError::UnknownSymbol) => Error::HuffmanUnknownSymbol,
    }
}

/// The fixed description of an error.
pub open spec fn error_text(error: Error) -> Seq<char> {
    match error {
        Error::Success => "ok"@,
        Error::IntegerOverflow => "integer representation overflowed"@,
        Error::Incomplete => "representation ends before the input does"@,
        Error::HuffmanInvalidPadding => "huffman padding is not all one-bits"@,
        Error::HuffmanUnknownSymbol => "huffman code does not map to a known symbol"@,
        Error::Invalid => "invalid argument"@,
    }
}

impl Error {
    /// The error that stands for `error`.
    pub fn of(error: &crate::helpers::fields::Error) -> (out: Error)
        ensures
            out == error_of(*error),
    {
        match error {
            crate::helpers::fields::Error::IntegerOverflow => Error::IntegerOverflow,
            crate::helpers::fields::Error::Incomplete => Error::Incomplete,
            crate::helpers::fields::Error::Huffman(crate::helpers::huffman::DecodeError::InvalidPadding) => Error::HuffmanInvalidPadding,
            crate::helpers::fields::Error::Huffman(crate::helpers::huffman::DecodeError::UnknownSymbol) => Error::HuffmanUnknownSymbol,
        }
    }

    /// A fixed description of the error.
    pub fn message(&self) -> (text: &'static str)
        ensures
            text@ == error_text(*self),
    {
        match self {
            Error::Success => "ok",
            Error::IntegerOverflow => "integer representation overflowed",
            Error::Incomplete => "representation ends before the input does",
            Error::HuffmanInvalidPadding => "huffman padding is not all one-bits",
            Error::HuffmanUnknownSymbol => "huffman code does not map to a known symbol",
            Error::Invalid => "invalid argument",
        }
    }
}

} // verus!
