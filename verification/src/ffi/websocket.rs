//! WebSocket framing across the boundary.

use vstd::prelude::*;

verus! {

/// The head of a WebSocket frame: `fin`, the opcode, whether a masking key
/// is present and `mask` carrying it when it is, and where the payload lies.
#[derive(Debug, Clone, Copy)]
pub struct FrameHead {
    /// Whether this frame ends its message.
    pub fin: bool,
    /// What the frame is, as its wire number.
    pub opcode: u8,
    /// Whether a masking key is present.
    pub masked: bool,
    /// The masking key, meaningful only when `masked` is set.
    pub mask: [u8; 4],
    /// Where the payload starts, counted from the front of the frame.
    pub start: usize,
    /// How long the payload is.
    pub length: usize,
}

} // verus!
