//! Memory allocation: request layouts, allocation errors, the allocator
//! interface, and the allocators themselves.
use vstd::prelude::*;
use crate::math::{exp2, is_power_of_two, ilog2};

pub mod buddy;
pub mod bump_ptr;
pub mod frame;
pub mod first_fit;
pub mod system;
pub mod simple;
pub mod buddy_heap;

verus! {

/// The size of a page frame (4 KiB), in bytes.
pub const PAGE_SIZE: usize = 4096;

/// The least power of two that is at least `m`.
pub open spec fn least_pow2_at_least(m: nat) -> nat
    decreases m,
{
    if m <= 1 {
        1
    } else {
        2 * least_pow2_at_least(((m + 1) / 2) as nat)
    }
}

/// `least_pow2_at_least(m)` is a power of two, at least `m`, and its half is
/// below `m` (so it is the least such power).
pub proof fn lemma_least_pow2(m: nat)
    ensures
        is_power_of_two(least_pow2_at_least(m)),
        least_pow2_at_least(m) >= m,
        least_pow2_at_least(m) >= 1,
        least_pow2_at_least(m) == 1 || least_pow2_at_least(m) / 2 < m,
        is_power_of_two(m) ==> least_pow2_at_least(m) == m,
    decreases m,
{
    if m > 1 {
        let h = ((m + 1) / 2) as nat;
        lemma_least_pow2(h);
        let l = least_pow2_at_least(h);
        assert(least_pow2_at_least(m) == 2 * l);
        assert((2 * l) / 2 == l);
        if is_power_of_two(m) {
            assert(h == m / 2);
        }
    }
}

/// A power of two that is at least `m` is at least `least_pow2_at_least(m)`.
pub proof fn lemma_least_pow2_minimal(m: nat, p: nat)
    requires
        is_power_of_two(p),
        p >= m,
    ensures
        least_pow2_at_least(m) <= p,
    decreases m,
{
    if m > 1 {
        let h = ((m + 1) / 2) as nat;
        assert(p >= 2);
        assert(p % 2 == 0 && is_power_of_two(p / 2));
        lemma_least_pow2_minimal(h, p / 2);
    }
}

/// `usize::next_power_of_two`: the documentation of std states that it
/// returns the smallest power of two greater than or equal to its argument,
/// and that it panics in debug builds where that power overflows, which the
/// `requires` leaves out.
#[verifier::external_body]
fn next_power_of_two(v: usize) -> (r: usize)
    requires
        v as nat * 2 <= usize::MAX as nat + 1,
    ensures
        r == least_pow2_at_least(v as nat),
{
    v.next_power_of_two()
}

/// The size and alignment of a memory request.
#[derive(Clone, Copy, PartialEq, Eq, Debug)]
pub struct Layout {
    size: usize,
    align: usize,
}

impl Layout {
    #[verifier::type_invariant]
    spec fn align_is_power_of_two(self) -> bool {
        is_power_of_two(self.align as nat)
    }

    /// The requested size, in bytes.
    pub closed spec fn spec_size(self) -> usize {
        self.size
    }

    /// The requested alignment, in bytes.
    pub closed spec fn spec_align(self) -> usize {
        self.align
    }

    /// The layout `from_size_align` makes.
    pub closed spec fn from_size_align_spec(size: usize, align: usize) -> Layout {
        Layout { size, align }
    }

    /// Constructs a layout from a size and a power-of-two alignment.
    pub fn from_size_align(size: usize, align: usize) -> (l: Layout)
        requires
            is_power_of_two(align as nat),
        ensures
            l.spec_size() == size,
            l.spec_align() == align,
            l == Self::from_size_align_spec(size, align),
    {
        Layout { size, align }
    }

    /// The requested size, in bytes.
    pub fn size(&self) -> (r: usize)
        ensures
            r == self.spec_size(),
    {
        self.size
    }

    /// The requested alignment, in bytes.
    pub fn align(&self) -> (r: usize)
        ensures
            r == self.spec_align(),
            is_power_of_two(r as nat),
    {
        proof {
            use_type_invariant(self);
        }
        self.align
    }
}

/// Why an allocation request failed.
#[derive(Clone, Copy, PartialEq, Eq, Debug)]
pub enum AllocErr {
    /// The allocator has no memory left for `request`.
    Exhausted { request: Layout },
    /// The allocator cannot serve requests of this kind.
    Unsupported { details: &'static str },
}

/// The result of an allocation.
pub type AllocResult<T> = Result<T, AllocErr>;

/// An `Allocator` implements a particular memory allocation strategy.
///
/// Addresses are plain machine words. `inv` is the allocator's own
/// well-formedness, which every operation keeps; `can_release` says which
/// blocks a caller may hand back (those it was given for that layout and has
/// not handed back yet).
pub trait Allocator {
    /// The allocator's internal invariant.
    spec fn inv(&self) -> bool;

    /// Whether `ptr`, allocated for `layout`, may be released.
    spec fn can_release(&self, ptr: usize, layout: Layout) -> bool;

    /// Whether a request of this layout can be computed without overflow.
    spec fn request_fits(&self, layout: Layout) -> bool;

    /// Allocate a block meeting the size and alignment of `layout`.
    fn allocate(&mut self, layout: Layout) -> (r: AllocResult<usize>)
        requires
            old(self).inv(),
            old(self).request_fits(layout),
        ensures
            final(self).inv(),
    ;

    /// Release a block allocated for `layout`.
    fn deallocate(&mut self, ptr: usize, layout: Layout)
        requires
            old(self).inv(),
            old(self).can_release(ptr, layout),
        ensures
            final(self).inv(),
    ;
}

} // verus!
