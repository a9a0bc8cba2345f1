//! The kernel's system allocator: a bump pointer allocator early on, then a
//! buddy heap.
use vstd::prelude::*;
use super::{Layout, AllocErr, AllocResult, Allocator};
use super::bump_ptr::{BumpPtr, bump_allocated};
use super::buddy::{Heap, heap_allocated};

verus! {

/// The allocator currently in charge.
pub enum Tier {
    /// No allocator has been set up yet.
    Uninitialized,
    /// The early bump pointer allocator.
    Bump(BumpPtr),
    /// The buddy heap.
    Buddy(Heap),
}

impl Allocator for Tier {
    open spec fn inv(&self) -> bool {
        match self {
            Tier::Uninitialized => true,
            Tier::Bump(a) => a.inv(),
            Tier::Buddy(a) => a.inv(),
        }
    }

    open spec fn can_release(&self, ptr: usize, layout: Layout) -> bool {
        match self {
            Tier::Uninitialized => true,
            Tier::Bump(a) => a.can_release(ptr, layout),
            Tier::Buddy(a) => a.can_release(ptr, layout),
        }
    }

    open spec fn request_fits(&self, layout: Layout) -> bool {
        match self {
            Tier::Uninitialized => true,
            Tier::Bump(a) => a.request_fits(layout),
            Tier::Buddy(a) => a.request_fits(layout),
        }
    }

    /// Hands the request to the allocator in charge; fails as unsupported
    /// when there is none.
    fn allocate(&mut self, layout: Layout) -> (r: AllocResult<usize>)
        ensures
            *old(self) is Uninitialized ==> *final(self) is Uninitialized && r == Err::<
                usize,
                AllocErr,
            >(AllocErr::Unsupported { details: "System allocator uninitialized!" }),
            *old(self) is Bump ==> *final(self) is Bump && bump_allocated(
                old(self)->Bump_0,
                final(self)->Bump_0,
                layout,
                r,
            ),
            *old(self) is Buddy ==> *final(self) is Buddy && heap_allocated(
                old(self)->Buddy_0,
                final(self)->Buddy_0,
                layout,
                r,
            ),
    {
        match self {
            Tier::Bump(a) => a.allocate(layout),
            Tier::Buddy(a) => a.allocate(layout),
            Tier::Uninitialized => Err(
                AllocErr::Unsupported { details: "System allocator uninitialized!" },
            ),
        }
    }

    /// Hands the block back to the allocator in charge; does nothing when
    /// there is none.
    fn deallocate(&mut self, ptr: usize, layout: Layout)
        ensures
            *old(self) is Uninitialized ==> *final(self) is Uninitialized,
            *old(self) is Bump ==> *final(self) == *old(self),
            *old(self) is Buddy ==> *final(self) is Buddy && final(self)->Buddy_0.lists()
                == old(self)->Buddy_0.release_lists(
                old(self)->Buddy_0.lists(),
                ptr as int,
                old(self)->Buddy_0.request_order(layout),
            ),
    {
        match self {
            Tier::Bump(a) => a.deallocate(ptr, layout),
            Tier::Buddy(a) => a.deallocate(ptr, layout),
            Tier::Uninitialized => {},
        }
    }
}

} // verus!
