//! HTTP/1 across the boundary.

use vstd::prelude::*;

verus! {

/// How an HTTP/1 message's body is framed.
#[derive(Debug, Clone, Copy, PartialEq, Eq, Structural)]
pub enum BodyKind {
    /// There is no body (`None` on the C side).
    Empty,
    /// The body is chunked, and ends at a zero-length chunk.
    Chunked,
    /// The body is exactly the octets `length` names.
    Fixed,
    /// The body ends when the connection closes.
    Close,
}

} // verus!
