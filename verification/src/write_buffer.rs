//! Summary metadata of the write buffer's segments.
//!
//! The write buffer itself is an outside collaborator; these are the
//! plain summary values it reports about the writers whose data a
//! segment holds.

use crate::clock::ClockValue;
use crate::entry::WriterId;
use vstd::prelude::*;

verus! {

/// The summary information for a writer that has data in a segment.
#[derive(Debug, Clone, PartialEq, Eq, Structural)]
pub struct WriterSummary {
    pub start_sequence: u64,
    pub end_sequence: u64,
    pub missing_sequence: bool,
}

/// The position of one writer's entry in a segment.
#[derive(Debug, Clone, Copy, PartialEq, Eq, Structural)]
pub struct WriterSequence {
    pub clock_value: ClockValue,
    pub writer_id: WriterId,
}

impl WriterSummary {
    /// Whether the segment saw this writer's sequence without gaps.
    pub fn is_contiguous(&self) -> (r: bool)
        ensures
            r == !self.missing_sequence,
    {
        !self.missing_sequence
    }
}

} // verus!
