//! Logical clock values used to sequence entries in the write buffer.

use vstd::prelude::*;

verus! {

/// A monotonic logical clock value assigned by the write buffer.
#[derive(Debug, PartialEq, Eq, PartialOrd, Ord, Copy, Clone, Structural)]
pub struct ClockValue(u64);

impl ClockValue {
    /// The raw clock reading this value carries.
    pub closed spec fn spec_get(&self) -> u64 {
        self.0
    }

    pub fn get(&self) -> (r: u64)
        ensures
            r == self.spec_get(),
    {
        self.0
    }

    pub fn new(v: u64) -> (r: Self)
        ensures
            r.spec_get() == v,
    {
        ClockValue(v)
    }
}

} // verus!
