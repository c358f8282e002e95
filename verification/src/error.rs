//! The error taxonomy shared by every component of the crate.

use vstd::prelude::*;

verus! {

/// Every way an operation of this crate can fail.
#[derive(Debug, Clone, PartialEq, Eq)]
pub enum Error {
    /// An offset, length or position handed in by the caller is out of range.
    IllegalArgument,
    /// A structurally impossible condition, such as an empty mapping where a
    /// non-empty one is mandatory.
    IllegalState,
    /// A sequential read asked for more bytes than the cursor has left.
    UnexpectedEof,
    /// The number of values observed for a field differs from the number of
    /// documents of the segment.
    CountMismatch { field: String, expected: i32, got: usize },
    /// A leaf collector could not hand a scored document to the merge step.
    ChannelFailure,
}

} // verus!
