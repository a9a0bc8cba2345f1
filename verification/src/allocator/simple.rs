//! Frame numbers: frames named by their index in physical memory.
use vstd::prelude::*;
use super::PAGE_SIZE;

verus! {

/// A frame, by number.
#[derive(Clone, Copy, PartialEq, Eq, Structural, PartialOrd, Ord, Debug)]
pub struct FrameNumber(pub usize);

impl FrameNumber {
    /// The frame holding `address`.
    pub fn containing(address: usize) -> (r: FrameNumber)
        ensures
            r.0 == address / PAGE_SIZE,
    {
        FrameNumber(address / PAGE_SIZE)
    }

    /// The frame after this one.
    pub fn next(&self) -> (r: FrameNumber)
        requires
            self.0 < usize::MAX,
        ensures
            r.0 == self.0 + 1,
    {
        FrameNumber(self.0 + 1)
    }
}

} // verus!
