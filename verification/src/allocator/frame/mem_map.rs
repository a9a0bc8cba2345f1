//! A simple allocator that walks the boot loader's memory map.
use vstd::prelude::*;
use crate::memory::{PhysicalPage, FrameRange, PAddr, is_canonical};
use crate::params::{Area, InitParams};
use crate::allocator::{AllocErr, AllocResult, Layout};
use super::Allocator;

verus! {

/// The number of the frame holding the end of an area.
pub open spec fn end_frame(a: Area) -> nat {
    a.end_addr@ as nat / 4096
}

/// The number of the frame holding the start of an area.
pub open spec fn start_frame(a: Area) -> nat {
    a.start_addr@ as nat / 4096
}

/// `areas[i]` is the area `next_area` picks when the next free frame is
/// `nf`: among the areas whose end frame is at least `nf`, the first one
/// with the least start address.
pub open spec fn is_next_area(areas: Seq<Area>, nf: nat, i: int) -> bool {
    &&& 0 <= i < areas.len()
    &&& end_frame(areas[i]) >= nf
    &&& forall|j: int|
        0 <= j < areas.len() && end_frame(#[trigger] areas[j]) >= nf ==> areas[i].start_addr@
            <= areas[j].start_addr@
    &&& forall|j: int|
        0 <= j < i && end_frame(#[trigger] areas[j]) >= nf ==> areas[i].start_addr@
            < areas[j].start_addr@
}

/// The index of the area `next_area` picks, or -1 when no area ends at or
/// after the frame `nf`.
pub open spec fn next_area_index(areas: Seq<Area>, nf: nat) -> int {
    if exists|i: int| is_next_area(areas, nf, i) {
        choose|i: int| is_next_area(areas, nf, i)
    } else {
        -1
    }
}

/// `page` lies in `range`.
pub open spec fn in_range(range: FrameRange, page: PhysicalPage) -> bool {
    range.start.number <= page.number < range.end.number
}

/// A simple area allocator.
///
/// This is Not A Good Allocation Scheme, as it does not support
/// reallocation of freed frames. It is used initially; after everything has
/// been allocated once, a better allocator takes over.
pub struct MemMapAllocator {
    next_free: PhysicalPage,
    current_area: Option<Area>,
    areas: Vec<Area>,
    kernel_frames: FrameRange,
    mb_frames: FrameRange,
}

impl MemMapAllocator {
    /// The next frame to consider.
    pub closed spec fn next_free_spec(&self) -> PhysicalPage {
        self.next_free
    }

    /// The area frames are taken from.
    pub closed spec fn current_area_spec(&self) -> Option<Area> {
        self.current_area
    }

    /// The memory map.
    pub closed spec fn areas_spec(&self) -> Seq<Area> {
        self.areas@
    }

    /// The frames holding the kernel.
    pub closed spec fn kernel_frames_spec(&self) -> FrameRange {
        self.kernel_frames
    }

    /// The frames holding the Multiboot information.
    pub closed spec fn mb_frames_spec(&self) -> FrameRange {
        self.mb_frames
    }

    /// The invariant: all addresses in the memory map are canonical, and the
    /// reserved ranges end below the last frame number.
    pub closed spec fn wf(&self) -> bool {
        &&& forall|i: int|
            0 <= i < self.areas@.len() ==> is_canonical((#[trigger] self.areas@[i]).start_addr@)
                && is_canonical(self.areas@[i].end_addr@)
        &&& self.current_area matches Some(a) ==> is_canonical(a.start_addr@) && is_canonical(
            a.end_addr@,
        )
        &&& self.current_area matches Some(a) ==> self.areas@.contains(a)
        &&& self.current_area matches Some(a) ==> self.next_free.number >= start_frame(a)
        &&& self.current_area is None ==> forall|i: int|
            0 <= i < self.areas@.len() ==> end_frame(#[trigger] self.areas@[i])
                < self.next_free.number
        &&& self.kernel_frames.end.number < u64::MAX
        &&& self.mb_frames.end.number < u64::MAX
    }

    proof fn lemma_next_area_unique(areas: Seq<Area>, nf: nat, i: int, j: int)
        requires
            is_next_area(areas, nf, i),
            is_next_area(areas, nf, j),
        ensures
            i == j,
    {
        if i < j {
            assert(areas[i].start_addr@ < areas[j].start_addr@);
        } else if j < i {
            assert(areas[j].start_addr@ < areas[i].start_addr@);
        }
    }

    /// Moves to the next area: the first area with the least start address
    /// among those ending at or after the next free frame. If the next free
    /// frame is before the start of that area, it moves up to that start.
    fn next_area(&mut self)
        requires
            old(self).wf() || old(self).current_area is None,
            forall|i: int|
                0 <= i < old(self).areas@.len() ==> is_canonical(
                    (#[trigger] old(self).areas@[i]).start_addr@,
                ) && is_canonical(old(self).areas@[i].end_addr@),
            old(self).kernel_frames.end.number < u64::MAX,
            old(self).mb_frames.end.number < u64::MAX,
        ensures
            final(self).wf(),
            final(self).areas_spec() == old(self).areas_spec(),
            final(self).kernel_frames_spec() == old(self).kernel_frames_spec(),
            final(self).mb_frames_spec() == old(self).mb_frames_spec(),
            ({
                let i = next_area_index(old(self).areas_spec(), old(self).next_free_spec().number as nat);
                let nf = old(self).next_free_spec();
                if i == -1 {
                    &&& final(self).current_area_spec() is None
                    &&& final(self).next_free_spec() == nf
                    &&& forall|j: int|
                        0 <= j < old(self).areas_spec().len() ==> end_frame(
                            #[trigger] old(self).areas_spec()[j],
                        ) < nf.number
                } else {
                    let a = old(self).areas_spec()[i];
                    &&& final(self).current_area_spec() == Some(a)
                    &&& final(self).next_free_spec().number == if nf.number < start_frame(a) {
                        start_frame(a)
                    } else {
                        nf.number as nat
                    }
                }
            }),
    {
        let nf = self.next_free.number;
        let ghost areas = self.areas@;
        let mut best: Option<usize> = None;
        let mut i: usize = 0;
        while i < self.areas.len()
            invariant
                self == old(self),
                forall|j: int|
                    0 <= j < self.areas@.len() ==> is_canonical(
                        (#[trigger] self.areas@[j]).start_addr@,
                    ) && is_canonical(self.areas@[j].end_addr@),
                areas == self.areas@,
                nf == self.next_free.number,
                i <= areas.len(),
                best matches Some(b) ==> is_next_area(areas.subrange(0, i as int), nf as nat, b as int),
                best is None ==> forall|j: int| 0 <= j < i ==> end_frame(#[trigger] areas[j]) < nf,
            decreases areas.len() - i,
        {
            let area = self.areas[i];
            let end = PhysicalPage::containing(area.end_addr);
            if end.number >= nf {
                let take = match best {
                    None => true,
                    Some(b) => area.start_addr.as_u64() < self.areas[b].start_addr.as_u64(),
                };
                if take {
                    best = Some(i);
                }
            }
            proof {
                let sub = areas.subrange(0, i as int + 1);
                let old_sub = areas.subrange(0, i as int);
                assert forall|j: int| 0 <= j < i implies #[trigger] sub[j] == old_sub[j] by {}
                assert(sub[i as int] == area);
            }
            i = i + 1;
        }
        proof {
            assert(areas.subrange(0, areas.len() as int) =~= areas);
        }
        match best {
            None => {
                proof {
                    if exists|k: int| is_next_area(areas, nf as nat, k) {
                        let k = choose|k: int| is_next_area(areas, nf as nat, k);
                        assert(end_frame(areas[k]) < nf);
                    }
                }
                self.current_area = None;
            },
            Some(b) => {
                let area = self.areas[b];
                proof {
                    let k = choose|k: int| is_next_area(areas, nf as nat, k);
                    Self::lemma_next_area_unique(areas, nf as nat, k, b as int);
                }
                self.current_area = Some(area);
                assert(areas[b as int] == area);
                let start = PhysicalPage::containing(area.start_addr);
                if self.next_free.number < start.number {
                    self.next_free = start;
                }
            },
        }
    }
}

impl MemMapAllocator {
    /// A frame allocator over the memory map of `params`, skipping the frames
    /// of the kernel and every frame holding a byte of the Multiboot
    /// information, starting from frame 0.
    pub fn new(params: &InitParams) -> (r: Self)
        requires
            forall|i: int|
                0 <= i < params.mem_map@.len() ==> is_canonical(
                    (#[trigger] params.mem_map@[i]).start_addr@,
                ) && is_canonical(params.mem_map@[i].end_addr@),
            is_canonical(params.kernel_base@),
            params.kernel_top@ >= 1,
            is_canonical((params.kernel_top@ - 1) as u64),
            params.multiboot_start matches Some(s) && is_canonical(s@),
            params.multiboot_end matches Some(e) && is_canonical(e@),
            params.multiboot_end->0@ > params.multiboot_start->0@ ==> is_canonical(
                (params.multiboot_end->0@ - 1) as u64,
            ),
        ensures
            r.wf(),
            r.areas_spec() == params.mem_map@,
            r.kernel_frames_spec().start.number == params.kernel_base@ / 4096,
            r.kernel_frames_spec().end.number == (params.kernel_top@ - 1) / 4096 + 1,
            r.mb_frames_spec().start.number == params.multiboot_start->0@ / 4096,
            r.mb_frames_spec().end.number == if params.multiboot_end->0@ > params.multiboot_start->0@ {
                (params.multiboot_end->0@ - 1) / 4096 + 1
            } else {
                (params.multiboot_start->0@ / 4096) as int
            },
            ({
                let i = next_area_index(params.mem_map@, 0);
                if i == -1 {
                    r.current_area_spec() is None && r.next_free_spec().number == 0
                } else {
                    r.current_area_spec() == Some(params.mem_map@[i]) && r.next_free_spec().number
                        == start_frame(params.mem_map@[i])
                }
            }),
    {
        let mut areas: Vec<Area> = Vec::new();
        let mut i: usize = 0;
        while i < params.mem_map.len()
            invariant
                i <= params.mem_map@.len(),
                areas@ == params.mem_map@.subrange(0, i as int),
            decreases params.mem_map@.len() - i,
        {
            areas.push(params.mem_map[i]);
            i = i + 1;
        }
        assert(areas@ =~= params.mem_map@);
        let kernel_frames = params.kernel_frames();
        let mb_start = params.multiboot_start();
        let mb_end = params.multiboot_end();
        let mb_first = PhysicalPage::containing(mb_start);
        let mb_after = if mb_end.as_u64() > mb_start.as_u64() {
            PhysicalPage::containing(PAddr::new(mb_end.as_u64() - 1)).add_one()
        } else {
            mb_first
        };
        let mb_frames = mb_first.range_until(mb_after);
        let mut alloc = MemMapAllocator {
            next_free: PhysicalPage::containing(PAddr::new(0)),
            current_area: None,
            areas,
            kernel_frames,
            mb_frames,
        };
        alloc.next_area();
        alloc
    }
}

/// A measure of how far the allocator is from running out of areas: areas
/// are visited in order of increasing end frame.
pub open spec fn area_measure(a: Option<Area>) -> int {
    match a {
        None => 0,
        Some(area) => 0x1_0000_0000_0000_0000 - end_frame(area),
    }
}

/// A measure of how far the next free frame is from the end of the area.
pub open spec fn frame_measure(a: Option<Area>, nf: nat) -> int {
    match a {
        None => 0,
        Some(area) => if nf <= end_frame(area) + 1 {
            end_frame(area) + 2 - nf
        } else {
            0
        },
    }
}

/// Where `next_area` moves to from the next free frame `nf`: the area it
/// picks (if any) and the next free frame after it.
pub open spec fn area_after(areas: Seq<Area>, nf: nat) -> (Option<Area>, nat) {
    let i = next_area_index(areas, nf);
    if i == -1 {
        (None, nf)
    } else {
        let a = areas[i];
        (Some(a), if nf < start_frame(a) { start_frame(a) } else { nf })
    }
}

/// What `allocate` does from the state (`cur`, `nf`): the frame it hands
/// out (if any), and the area and next free frame it leaves. It moves on to
/// the next area while the next free frame is past the current one, skips
/// to one past the end of the kernel's or the Multiboot information's
/// frames while the next free frame lies in them, and otherwise hands out
/// the next free frame.
pub open spec fn frame_allocated(
    areas: Seq<Area>,
    kf: FrameRange,
    mbf: FrameRange,
    cur: Option<Area>,
    nf: nat,
) -> (Option<nat>, Option<Area>, nat)
    decreases area_measure(cur), frame_measure(cur, nf),
{
    match cur {
        None => (None, None, nf),
        Some(a) => {
            if nf > end_frame(a) {
                let (c2, n2) = area_after(areas, nf);
                proof {
                    if next_area_index(areas, nf) != -1 {
                        let k = choose|k: int| is_next_area(areas, nf, k);
                        assert(is_next_area(areas, nf, k));
                    }
                }
                frame_allocated(areas, kf, mbf, c2, n2)
            } else if kf.start.number <= nf < kf.end.number {
                frame_allocated(areas, kf, mbf, cur, (kf.end.number + 1) as nat)
            } else if mbf.start.number <= nf < mbf.end.number {
                frame_allocated(areas, kf, mbf, cur, (mbf.end.number + 1) as nat)
            } else {
                (Some(nf), cur, nf + 1)
            }
        },
    }
}

impl Allocator for MemMapAllocator {
    open spec fn inv(&self) -> bool {
        self.wf()
    }

    open spec fn allocates_frames(&self) -> bool {
        true
    }

    /// Ranges are not handed out.
    open spec fn allocates_ranges(&self) -> bool {
        false
    }

    open spec fn releases_ranges(&self) -> bool {
        true
    }

    /// Hands out the next free frame of the current area, skipping the
    /// kernel's and the Multiboot information's frames and moving on to the
    /// next area when the current one is used up. Fails once no area ends
    /// at or after the next free frame.
    fn allocate(&mut self) -> (r: AllocResult<PhysicalPage>)
        ensures
            final(self).areas_spec() == old(self).areas_spec(),
            final(self).kernel_frames_spec() == old(self).kernel_frames_spec(),
            final(self).mb_frames_spec() == old(self).mb_frames_spec(),
            ({
                let (res, c, n) = frame_allocated(
                    old(self).areas_spec(),
                    old(self).kernel_frames_spec(),
                    old(self).mb_frames_spec(),
                    old(self).current_area_spec(),
                    old(self).next_free_spec().number as nat,
                );
                &&& res matches Some(f) ==> r == Ok::<PhysicalPage, AllocErr>(
                    PhysicalPage { number: f as u64 },
                )
                &&& res is None ==> r is Err
                &&& final(self).current_area_spec() == c
                &&& final(self).next_free_spec().number == n
            }),
            r matches Ok(f) ==> {
                &&& !in_range(old(self).kernel_frames_spec(), f)
                &&& !in_range(old(self).mb_frames_spec(), f)
                &&& final(self).next_free_spec().number == f.number + 1
                &&& final(self).current_area_spec() matches Some(a)
                &&& f.number <= end_frame(final(self).current_area_spec()->0)
                &&& start_frame(final(self).current_area_spec()->0) <= f.number
                &&& f.number >= old(self).next_free_spec().number
                &&& old(self).areas_spec().contains(final(self).current_area_spec()->0)
            },
            r is Err ==> {
                &&& final(self).current_area_spec() is None
                &&& r == Err::<PhysicalPage, AllocErr>(
                    AllocErr::Exhausted { request: Layout::from_size_align_spec(4096, 4096) },
                )
                &&& forall|i: int|
                    0 <= i < old(self).areas_spec().len() ==> end_frame(
                        #[trigger] old(self).areas_spec()[i],
                    ) < final(self).next_free_spec().number
            },
    {
        loop
            invariant
                self.wf(),
                self.areas@ == old(self).areas@,
                self.kernel_frames == old(self).kernel_frames,
                self.mb_frames == old(self).mb_frames,
                self.next_free.number >= old(self).next_free.number,
                frame_allocated(
                    self.areas@,
                    self.kernel_frames,
                    self.mb_frames,
                    self.current_area,
                    self.next_free.number as nat,
                ) == frame_allocated(
                    old(self).areas@,
                    old(self).kernel_frames,
                    old(self).mb_frames,
                    old(self).current_area,
                    old(self).next_free.number as nat,
                ),
            decreases area_measure(self.current_area), frame_measure(
                self.current_area,
                self.next_free.number as nat,
            ),
        {
            match self.current_area {
                None => {
                    proof {
                        crate::math::lemma_4096_is_power_of_two();
                    }
                    return Err(
                        AllocErr::Exhausted {
                            request: Layout::from_size_align(4096, 4096),
                        },
                    );
                },
                Some(area) => {
                    let f = self.next_free;
                    let end = PhysicalPage::containing(area.end_addr);
                    if f.number > end.number {
                        // all frames in the current memory area are in use
                        self.next_area();
                    } else if self.kernel_frames.start.number <= f.number && f.number
                        < self.kernel_frames.end.number {
                        // this frame is in use by the kernel
                        self.next_free = self.kernel_frames.end.add_one();
                    } else if self.mb_frames.start.number <= f.number && f.number
                        < self.mb_frames.end.number {
                        // this frame is part of the multiboot info
                        self.next_free = self.mb_frames.end.add_one();
                    } else {
                        // this frame is free
                        self.next_free = f.add_one();
                        return Ok(f);
                    }
                },
            }
        }
    }

    /// Frames are leaked.
    fn deallocate(&mut self, frame: PhysicalPage)
        ensures
            *final(self) == *old(self),
    {
    }

    /// Not supported.
    fn allocate_range(&mut self, num: usize) -> (r: AllocResult<FrameRange>) {
        Err(AllocErr::Unsupported { details: "The memory map allocator does not allocate ranges" })
    }

    /// Ranges are leaked.
    fn deallocate_range(&mut self, range: FrameRange)
        ensures
            *final(self) == *old(self),
    {
    }
}

} // verus!
