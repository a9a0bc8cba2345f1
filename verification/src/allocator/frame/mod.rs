//! Frame allocation.
use vstd::prelude::*;
use crate::memory::{PhysicalPage, FrameRange};
use super::AllocResult;

pub mod mem_map;

verus! {

/// The frame allocator of the buddy system; it holds no state of its own.
#[derive(Clone, Copy, Debug)]
pub struct BuddyFrameAllocator;

impl BuddyFrameAllocator {
    /// The buddy system's frame allocator.
    pub fn new() -> (r: Self)
        ensures
            r == BuddyFrameAllocator,
    {
        BuddyFrameAllocator
    }
}

/// An allocator for allocating physical frames.
pub trait Allocator: Sized {
    /// The allocator's internal invariant.
    spec fn inv(&self) -> bool;

    /// Whether this allocator hands out single frames.
    spec fn allocates_frames(&self) -> bool;

    /// Whether this allocator hands out ranges of frames.
    spec fn allocates_ranges(&self) -> bool;

    /// Whether this allocator takes back ranges of frames.
    spec fn releases_ranges(&self) -> bool;

    /// Allocate a new frame.
    fn allocate(&mut self) -> (r: AllocResult<PhysicalPage>)
        requires
            old(self).inv(),
            old(self).allocates_frames(),
        ensures
            final(self).inv(),
            final(self).allocates_frames(),
    ;

    /// Deallocate a frame.
    fn deallocate(&mut self, frame: PhysicalPage)
        requires
            old(self).inv(),
            old(self).allocates_frames(),
        ensures
            final(self).inv(),
    ;

    /// Allocate a range of `num` frames.
    fn allocate_range(&mut self, num: usize) -> (r: AllocResult<FrameRange>)
        requires
            old(self).inv(),
            old(self).allocates_ranges(),
        ensures
            final(self).inv(),
    ;

    /// Deallocate a range of frames.
    fn deallocate_range(&mut self, range: FrameRange)
        requires
            old(self).inv(),
            old(self).releases_ranges(),
        ensures
            final(self).inv(),
    ;
}

} // verus!
