//! Base64 failures across the boundary.

use vstd::prelude::*;

verus! {

/// Why a base64 text would not decode, with `Success` for the call that
/// succeeded and `Invalid` for an argument the boundary refused.
#[derive(Debug, Clone, Copy, PartialEq, Eq, Structural)]
pub enum DecodeError {
    /// The input decoded (`Ok` on the C side).
    Success,
    /// The input length is not a multiple of four.
    InvalidLength,
    /// A symbol is outside the alphabet.
    InvalidSymbol,
    /// Padding is misplaced, over-long, or carries non-zero bits.
    InvalidPadding,
    /// The text was null or was not UTF-8.
    Invalid,
}

/// The error a code names, 0 to 4 in declaration order.
pub open spec fn error_of_code(code: i32) -> Option<DecodeError> {
    if code == 0 { Some(DecodeError::Success) }
    else if code == 1 { Some(DecodeError::InvalidLength) }
    else if code == 2 { Some(DecodeError::InvalidSymbol) }
    else if code == 3 { Some(DecodeError::InvalidPadding) }
    else if code == 4 { Some(DecodeError::Invalid) }
    else { None }
}

/// The C half of a failure, with the value it carries.
pub open spec fn error_of(error: crate::helpers::base64::DecodeError) -> (DecodeError, u64) {
    match error {
        crate::helpers::base64::DecodeError::InvalidLength(length) => (DecodeError::InvalidLength, length as u64),
        crate::helpers::base64::DecodeError::InvalidSymbol(symbol) => (DecodeError::InvalidSymbol, symbol as u64),
        crate::helpers::base64::DecodeError::InvalidPadding => (DecodeError::InvalidPadding, 0),
    }
}

/// The fixed description of an error.
pub open spec fn error_text(error: DecodeError) -> Seq<char> {
    match error {
        DecodeError::Success => "ok"@,
        DecodeError::InvalidLength => "length is not a multiple of four"@,
        DecodeError::InvalidSymbol => "symbol is not in the base64 alphabet"@,
        DecodeError::InvalidPadding => "padding is misplaced or carries non-zero bits"@,
        DecodeError::Invalid => "invalid argument"@,
    }
}

impl DecodeError {
    /// The error a code names, or `None` when it names none.
    pub fn from_code(code: i32) -> (error: Option<DecodeError>)
        ensures
            error == error_of_code(code),
    {
        match code {
            0 => Some(DecodeError::Success),
            1 => Some(DecodeError::InvalidLength),
            2 => Some(DecodeError::InvalidSymbol),
            3 => Some(DecodeError::InvalidPadding),
            4 => Some(DecodeError::Invalid),
            _ => None,
        }
    }

    /// The error that stands for `error`, with the value it carries.
    pub fn of(error: &crate::helpers::base64::DecodeError) -> (out: (DecodeError, u64))
        ensures
            out == error_of(*error),
    {
        match error {
            crate::helpers::base64::DecodeError::InvalidLength(length) => (DecodeError::InvalidLength, *length as u64),
            crate::helpers::base64::DecodeError::InvalidSymbol(symbol) => (DecodeError::InvalidSymbol, *symbol as u64),
            crate::helpers::base64::DecodeError::InvalidPadding => (DecodeError::InvalidPadding, 0),
        }
    }

    /// A fixed description of the error.
    pub fn message(&self) -> (text: &'static str)
        ensures
            text@ == error_text(*self),
    {
        match self {
            DecodeError::Success => "ok",
            DecodeError::InvalidLength => "length is not a multiple of four",
            DecodeError::InvalidSymbol => "symbol is not in the base64 alphabet",
            DecodeError::InvalidPadding => "padding is misplaced or carries non-zero bits",
            DecodeError::Invalid => "invalid argument",
        }
    }
}

} // verus!
