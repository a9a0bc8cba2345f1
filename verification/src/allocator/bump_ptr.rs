//! Bump pointer allocator.
use vstd::prelude::*;
use crate::memory::{PAddr, align_up_spec, lemma_align_up};
use crate::math::is_power_of_two;
use super::{Layout, AllocErr, AllocResult, Allocator};

verus! {

/// A simple bump pointer allocator.
///
/// This allocator has few "moving parts" and is very fast. However, it doesn't
/// allow objects to be deallocated. We use this allocator for early kernel
/// objects before we can set up a more sophisticated heap allocator.
#[derive(Debug)]
pub struct BumpPtr {
    start: PAddr,
    end: PAddr,
    ptr: PAddr,
}

/// Where a request of `layout` lands when the next free address is `ptr`:
/// the address rounded up to the request's alignment, and the end of the
/// request from there.
pub open spec fn bump_request(ptr: nat, layout: Layout) -> (nat, nat) {
    let start = align_up_spec(ptr, layout.spec_align() as nat);
    (start, start + layout.spec_size() as nat)
}

impl BumpPtr {
    /// The start of the allocator's region.
    pub closed spec fn start_spec(&self) -> u64 {
        self.start@
    }

    /// The end of the allocator's region.
    pub closed spec fn end_spec(&self) -> u64 {
        self.end@
    }

    /// The next free address.
    pub closed spec fn next_spec(&self) -> u64 {
        self.ptr@
    }

    /// A bump allocator for the region from `start` to `end`.
    pub fn new(start: PAddr, end: PAddr) -> (r: Self)
        ensures
            r.start_spec() == start@,
            r.end_spec() == end@,
            r.next_spec() == start@,
    {
        BumpPtr { start, end, ptr: start }
    }

    /// Successive allocations do not overlap: a request served after another
    /// starts at or after the end of the first.
    pub proof fn lemma_allocations_disjoint(ptr: nat, first: Layout, second: Layout)
        requires
            first.spec_align() > 0,
            second.spec_align() > 0,
        ensures
            bump_request(ptr, first).0 >= ptr,
            bump_request(bump_request(ptr, first).1, second).0 >= bump_request(ptr, first).1,
            bump_request(ptr, first).1 == bump_request(ptr, first).0 + first.spec_size(),
    {
        lemma_align_up(ptr, first.spec_align() as nat);
        lemma_align_up(bump_request(ptr, first).1, second.spec_align() as nat);
    }
}

/// What `allocate` does: the region stays; the request, placed at the next
/// free address rounded up to its alignment, is served when it ends within
/// the region, and the next free address moves to its end; otherwise the
/// allocator is exhausted and nothing changes.
pub open spec fn bump_allocated(old: BumpPtr, new: BumpPtr, layout: Layout, r: AllocResult<usize>) -> bool {
    let (a, e) = bump_request(old.next_spec() as nat, layout);
    &&& new.start_spec() == old.start_spec()
    &&& new.end_spec() == old.end_spec()
    &&& e > old.end_spec() ==> r == Err::<usize, AllocErr>(AllocErr::Exhausted { request: layout })
        && new.next_spec() == old.next_spec()
    &&& e <= old.end_spec() ==> r == Ok::<usize, AllocErr>(a as usize) && new.next_spec() == e
}

impl Allocator for BumpPtr {
    open spec fn inv(&self) -> bool {
        true
    }

    /// Nothing is ever released: every block may be handed back (it leaks).
    open spec fn can_release(&self, ptr: usize, layout: Layout) -> bool {
        true
    }

    /// The end of the request fits in a 64-bit address.
    open spec fn request_fits(&self, layout: Layout) -> bool {
        bump_request(self.next_spec() as nat, layout).1 <= u64::MAX
    }

    /// Rounds the next free address up to the request's alignment; serves
    /// the request from there if it ends within the region, and moves the
    /// next free address to its end.
    fn allocate(&mut self, layout: Layout) -> (r: AllocResult<usize>)
        ensures
            bump_allocated(*old(self), *final(self), layout, r),
    {
        let align = layout.align();
        proof {
            lemma_align_up(self.ptr@ as nat, align as nat);
        }
        let start = self.ptr.align_up(align as u64);
        let end = start.as_u64() + layout.size() as u64;
        if end > self.end.as_u64() {
            Err(AllocErr::Exhausted { request: layout })
        } else {
            self.ptr = PAddr::new(end);
            Ok(start.as_u64() as usize)
        }
    }

    /// Deallocation leaks the block.
    fn deallocate(&mut self, ptr: usize, layout: Layout)
        ensures
            *final(self) == *old(self),
    {
    }
}

} // verus!
