//! HPACK primitive decoding failures.

use vstd::prelude::*;

use crate::helpers::huffman::DecodeError;

verus! {

/// Why an HPACK primitive would not decode.
#[derive(Debug, Clone, Copy, PartialEq, Eq, Structural)]
pub enum Error {
    /// An integer would not fit in 64 bits.
    IntegerOverflow,
    /// A representation runs past the end of the input.
    Incomplete,
    /// A Huffman string would not decode.
    Huffman(DecodeError),
}

} // verus!
