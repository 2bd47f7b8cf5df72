//! QPACK instruction kinds across the boundary.

use vstd::prelude::*;

verus! {

/// Which instruction an encoder stream carries.
#[derive(Debug, Clone, Copy, PartialEq, Eq, Structural)]
pub enum EncoderInstructionKind {
    /// Resize the dynamic table, within what the decoder advertised.
    SetDynamicTableCapacity,
    /// Insert a field whose name is taken from an existing entry.
    InsertWithNameReference,
    /// Insert a field, spelling out both name and value.
    InsertWithLiteralName,
    /// Re-insert an existing entry, so it survives eviction of the original.
    Duplicate,
}

/// Which instruction a decoder stream carries.
#[derive(Debug, Clone, Copy, PartialEq, Eq, Structural)]
pub enum DecoderInstructionKind {
    /// A field section on this stream was decoded.
    SectionAcknowledgment,
    /// This stream was abandoned, so its sections will never be acknowledged.
    StreamCancellation,
    /// This many further insertions have been taken in.
    InsertCountIncrement,
}

} // verus!
