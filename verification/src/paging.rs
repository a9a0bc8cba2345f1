//! A small cache of page frames kept at hand for mapping temporary pages.
use vstd::prelude::*;
use crate::memory::PhysicalPage;
use crate::allocator::{AllocErr, AllocResult, Layout};

verus! {

/// The first slot from `i` on that holds a frame, or the number of slots if
/// none does.
pub open spec fn first_full(s: Seq<Option<PhysicalPage>>, i: int) -> int
    decreases s.len() - i,
{
    if i >= s.len() || i < 0 {
        s.len() as int
    } else if s[i] is Some {
        i
    } else {
        first_full(s, i + 1)
    }
}

/// The first slot from `i` on that is empty, or the number of slots if none
/// is.
pub open spec fn first_empty(s: Seq<Option<PhysicalPage>>, i: int) -> int
    decreases s.len() - i,
{
    if i >= s.len() || i < 0 {
        s.len() as int
    } else if s[i] is None {
        i
    } else {
        first_empty(s, i + 1)
    }
}

/// Three slots, each holding a frame or not.
pub struct FrameCache {
    slots: Vec<Option<PhysicalPage>>,
}

impl View for FrameCache {
    type V = Seq<Option<PhysicalPage>>;

    /// The slots.
    closed spec fn view(&self) -> Seq<Option<PhysicalPage>> {
        self.slots@
    }
}

impl FrameCache {
    /// A cache holding the results of three allocations.
    pub fn new(a: Option<PhysicalPage>, b: Option<PhysicalPage>, c: Option<PhysicalPage>) -> (r: Self)
        ensures
            r@ == seq![a, b, c],
    {
        let mut slots: Vec<Option<PhysicalPage>> = Vec::new();
        slots.push(a);
        slots.push(b);
        slots.push(c);
        assert(slots@ =~= seq![a, b, c]);
        FrameCache { slots }
    }

    /// Takes the frame out of the first slot that holds one; when none
    /// does, the cache is exhausted for a request of one page.
    pub fn allocate(&mut self) -> (r: AllocResult<PhysicalPage>)
        ensures
            ({
                let k = first_full(old(self)@, 0);
                &&& k == old(self)@.len() ==> r == Err::<PhysicalPage, AllocErr>(
                    AllocErr::Exhausted { request: Layout::from_size_align_spec(4096, 4096) },
                ) && final(self)@ == old(self)@
                &&& k < old(self)@.len() ==> (old(self)@[k] matches Some(f) && r == Ok::<
                    PhysicalPage,
                    AllocErr,
                >(f)) && final(self)@ == old(self)@.update(k, None)
            }),
    {
        let mut i: usize = 0;
        while i < self.slots.len()
            invariant
                i <= self.slots@.len(),
                self.slots@ == old(self)@,
                first_full(old(self)@, 0) == first_full(old(self)@, i as int),
            decreases self.slots@.len() - i,
        {
            if let Some(f) = self.slots[i] {
                self.slots.set(i, None);
                return Ok(f);
            }
            i = i + 1;
        }
        proof {
            crate::math::lemma_4096_is_power_of_two();
        }
        Err(AllocErr::Exhausted { request: Layout::from_size_align(4096, 4096) })
    }

    /// Puts `frame` in the first empty slot; one must be empty.
    pub fn deallocate(&mut self, frame: PhysicalPage)
        requires
            first_empty(old(self)@, 0) < old(self)@.len(),
        ensures
            final(self)@ == old(self)@.update(first_empty(old(self)@, 0), Some(frame)),
    {
        let mut i: usize = 0;
        while i < self.slots.len()
            invariant
                i <= self.slots@.len(),
                self.slots@ == old(self)@,
                first_empty(old(self)@, 0) == first_empty(old(self)@, i as int),
                first_empty(old(self)@, 0) < old(self)@.len(),
            decreases self.slots@.len() - i,
        {
            if self.slots[i].is_none() {
                self.slots.set(i, Some(frame));
                return;
            }
            i = i + 1;
        }
    }
}

} // verus!
