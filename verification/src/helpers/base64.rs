//! Base64 decoding failures.

use vstd::prelude::*;

verus! {

/// Why a base64 text would not decode.
#[derive(Debug, Clone, Copy, PartialEq, Eq, Structural)]
pub enum DecodeError {
    /// The input length is not a multiple of four; carries that length.
    InvalidLength(usize),
    /// A symbol is outside the alphabet; carries that symbol.
    InvalidSymbol(u8),
    /// Padding is misplaced, over-long, or carries non-zero bits.
    InvalidPadding,
}

} // verus!
