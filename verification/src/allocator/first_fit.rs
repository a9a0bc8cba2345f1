//! A simple first-fit allocator for ranges of page frames.
use vstd::prelude::*;
use arrayvec::ArrayVec;
use crate::memory::{PhysicalPage, FrameRange, MemRange, frame_count};

verus! {

/// The number of frame ranges a first-fit allocator holds at most.
pub const SIZE: usize = 256;

#[verifier::external_type_specification]
#[verifier::external_body]
#[verifier::reject_recursive_types(T)]
pub struct ExArrayVec<T, const CAP: usize>(ArrayVec<T, CAP>);

/// The frame ranges an `ArrayVec` holds, in order.
pub uninterp spec fn frame_list(v: ArrayVec<FrameRange, 256>) -> Seq<FrameRange>;

/// `ArrayVec::len`: the number of elements, which is at most the capacity.
#[verifier::external_body]
fn ranges_len(v: &ArrayVec<FrameRange, 256>) -> (r: usize)
    ensures
        r == frame_list(*v).len(),
        r <= SIZE,
{
    v.len()
}

/// Indexing an `ArrayVec` (through its slice): the element at `i`.
#[verifier::external_body]
fn ranges_get(v: &ArrayVec<FrameRange, 256>, i: usize) -> (r: FrameRange)
    requires
        i < frame_list(*v).len(),
    ensures
        r == frame_list(*v)[i as int],
{
    v[i].clone()
}

/// Assigning through an `ArrayVec`'s mutable slice: the element at `i`
/// becomes `x`.
#[verifier::external_body]
fn ranges_set(v: &mut ArrayVec<FrameRange, 256>, i: usize, x: FrameRange)
    requires
        i < frame_list(*old(v)).len(),
    ensures
        frame_list(*final(v)) == frame_list(*old(v)).update(i as int, x),
{
    v[i] = x;
}

/// `ArrayVec::remove`: removes the element at `i` (which must exist, else it
/// panics), shifting the following ones down, and returns it.
#[verifier::external_body]
fn ranges_remove(v: &mut ArrayVec<FrameRange, 256>, i: usize) -> (r: FrameRange)
    requires
        i < frame_list(*old(v)).len(),
    ensures
        r == frame_list(*old(v))[i as int],
        frame_list(*final(v)) == frame_list(*old(v)).remove(i as int),
{
    v.remove(i)
}

/// The first index from `i` on whose range holds at least `num` frames, or
/// -1 if there is none.
pub open spec fn first_fit_from(ranges: Seq<FrameRange>, num: nat, i: int) -> int
    decreases ranges.len() - i,
{
    if i < 0 || i >= ranges.len() {
        -1
    } else if frame_count(ranges[i]) >= num {
        i
    } else {
        first_fit_from(ranges, num, i + 1)
    }
}

/// The range's length can be computed: it does not end before it starts and
/// its length fits in a machine word.
pub open spec fn range_measurable(r: FrameRange) -> bool {
    0 <= frame_count(r) <= usize::MAX
}

/// The inputs on which a first-fit allocation of `num` frames runs to its
/// end: every range looked at has a computable length, and the range handed
/// out does not pass the last frame number.
pub open spec fn allocation_defined(s: Seq<FrameRange>, num: nat) -> bool {
    let i = first_fit_from(s, num, 0);
    &&& forall|j: int|
        0 <= j < s.len() && (i == -1 || j <= i) ==> range_measurable(#[trigger] s[j])
    &&& i != -1 ==> s[i].start.number + num <= u64::MAX
}

/// What a first-fit allocation of `num` frames does to the ranges `s`: the
/// new ranges and the range handed out. The first range holding at least
/// `num` frames gives its first `num` frames: they are dropped from its
/// front, or the range is removed when it holds exactly `num`.
pub open spec fn first_fit_result(s: Seq<FrameRange>, num: nat) -> (Seq<FrameRange>, Option<FrameRange>) {
    let i = first_fit_from(s, num, 0);
    if i == -1 {
        (s, None)
    } else {
        let taken = FrameRange {
            start: s[i].start,
            end: PhysicalPage { number: (s[i].start.number + num) as u64 },
        };
        if frame_count(s[i]) > num {
            (s.update(i, FrameRange { start: taken.end, end: s[i].end }), Some(taken))
        } else {
            (s.remove(i), Some(taken))
        }
    }
}

/// A simple first-fit allocator for allocating ranges of page frames.
pub struct FirstFit {
    frames: ArrayVec<FrameRange, 256>,
}

impl FirstFit {
    /// The free frame ranges, in order.
    pub closed spec fn ranges(&self) -> Seq<FrameRange> {
        frame_list(self.frames)
    }

    /// A first-fit allocator over the given free ranges.
    pub fn new(frames: ArrayVec<FrameRange, 256>) -> (r: Self)
        ensures
            r.ranges() == frame_list(frames),
    {
        FirstFit { frames }
    }

    proof fn lemma_first_fit(ranges: Seq<FrameRange>, num: nat, i: int)
        requires
            0 <= i,
        ensures
            first_fit_from(ranges, num, i) == -1 || (i <= first_fit_from(ranges, num, i)
                < ranges.len() && frame_count(ranges[first_fit_from(ranges, num, i)]) >= num),
            forall|j: int|
                i <= j < ranges.len() && (j < first_fit_from(ranges, num, i) || first_fit_from(
                    ranges,
                    num,
                    i,
                ) == -1) ==> frame_count(#[trigger] ranges[j]) < num,
        decreases ranges.len() - i,
    {
        if i < ranges.len() && frame_count(ranges[i]) < num {
            Self::lemma_first_fit(ranges, num, i + 1);
        }
    }

    /// Allocates `num` frames from the first range holding at least that
    /// many: its first `num` frames, which leave the free ranges.
    pub fn allocate_range(&mut self, num: usize) -> (r: Option<FrameRange>)
        requires
            allocation_defined(old(self).ranges(), num as nat),
        ensures
            (final(self).ranges(), r) == first_fit_result(old(self).ranges(), num as nat),
    {
        let ghost s = self.ranges();
        proof {
            Self::lemma_first_fit(s, num as nat, 0);
        }
        let len = ranges_len(&self.frames);
        let mut i: usize = 0;
        while i < len
            invariant
                len == s.len(),
                s == self.ranges(),
                i <= len,
                allocation_defined(s, num as nat),
                first_fit_from(s, num as nat, 0) == first_fit_from(s, num as nat, i as int),
            ensures
                i < len ==> first_fit_from(s, num as nat, 0) == i,
            decreases len - i,
        {
            proof {
                Self::lemma_first_fit(s, num as nat, i as int);
            }
            let range = ranges_get(&self.frames, i);
            if range.length() >= num {
                break;
            }
            i = i + 1;
        }
        if i == len {
            return None;
        }
        proof {
            Self::lemma_first_fit(s, num as nat, i as int);
        }
        let range = ranges_get(&self.frames, i);
        let start = range.start;
        if num < range.length() {
            let mut dropped = range;
            dropped.drop_front(num);
            ranges_set(&mut self.frames, i, dropped);
        } else {
            ranges_remove(&mut self.frames, i);
        }
        Some(start.range_of(num))
    }
}

impl FirstFit {
    /// Allocates as `allocate_range` does where that is defined; `None`,
    /// leaving the ranges as they were, where it is not (a range looked at
    /// ends before it starts or is too long to measure, or the range handed
    /// out would pass the last frame number).
    pub fn allocate_range_checked(&mut self, num: usize) -> (r: Option<Option<FrameRange>>)
        ensures
            !allocation_defined(old(self).ranges(), num as nat) ==> r is None && final(self).ranges()
                == old(self).ranges(),
            allocation_defined(old(self).ranges(), num as nat) ==> r is Some && (final(self).ranges(), r->0)
                == first_fit_result(old(self).ranges(), num as nat),
    {
        let ghost s = self.ranges();
        proof {
            Self::lemma_first_fit(s, num as nat, 0);
        }
        let len = ranges_len(&self.frames);
        let mut i: usize = 0;
        while i < len
            invariant
                len == s.len(),
                s == self.ranges(),
                i <= len,
                first_fit_from(s, num as nat, 0) == first_fit_from(s, num as nat, i as int),
                forall|j: int| 0 <= j < i ==> range_measurable(#[trigger] s[j]),
            ensures
                i < len ==> first_fit_from(s, num as nat, 0) == i && range_measurable(s[i as int]),
                i == len ==> first_fit_from(s, num as nat, 0) == -1,
                forall|j: int| 0 <= j < i ==> range_measurable(#[trigger] s[j]),
            decreases len - i,
        {
            proof {
                Self::lemma_first_fit(s, num as nat, i as int);
            }
            let range = ranges_get(&self.frames, i);
            let start = range.start.number;
            let end = range.end.number;
            if end < start || end - start > usize::MAX as u64 {
                return None;
            }
            if range.length() >= num {
                break;
            }
            i = i + 1;
        }
        proof {
            Self::lemma_first_fit(s, num as nat, i as int);
        }
        if i < len {
            let range = ranges_get(&self.frames, i);
            if range.start.number > u64::MAX - num as u64 {
                return None;
            }
        }
        Some(self.allocate_range(num))
    }
}

} // verus!
