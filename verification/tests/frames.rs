use arrayvec::ArrayVec;
use sos_kernel::allocator::first_fit::FirstFit;
use sos_kernel::allocator::frame::mem_map::MemMapAllocator;
use sos_kernel::allocator::frame::Allocator as FrameAllocator;
use sos_kernel::allocator::{AllocErr, Layout};
use sos_kernel::memory::{FrameRange, PAddr, PhysicalPage};
use sos_kernel::params::{Area, InitParams};

fn range(start: u64, end: u64) -> FrameRange {
    PhysicalPage { number: start }..PhysicalPage { number: end }
}

#[test]
fn first_fit_takes_from_the_first_range_that_fits() {
    let mut v: ArrayVec<FrameRange, 256> = ArrayVec::new();
    v.push(range(0, 2));
    v.push(range(10, 20));
    v.push(range(30, 40));
    let mut ff = FirstFit::new(v);
    // the range at index 1 is the first to hold 4 frames: its first 4 are
    // handed out and dropped from its front
    let r = ff.allocate_range(4).unwrap();
    assert_eq!((r.start.number, r.end.number), (10, 14));
    let r = ff.allocate_range(6).unwrap();
    assert_eq!((r.start.number, r.end.number), (14, 20));
    // nothing holds 100 frames
    assert!(ff.allocate_range(100).is_none());
}

#[test]
fn first_fit_removes_a_range_used_up_whole() {
    let mut v: ArrayVec<FrameRange, 256> = ArrayVec::new();
    v.push(range(0, 2));
    v.push(range(10, 13));
    v.push(range(30, 40));
    let mut ff = FirstFit::new(v);
    // the range at index 1 holds exactly 3 frames: they are handed out and
    // the range is removed
    let r = ff.allocate_range(3).unwrap();
    assert_eq!((r.start.number, r.end.number), (10, 13));
    // the first range holds exactly 2 frames and is removed too
    let r = ff.allocate_range(2).unwrap();
    assert_eq!((r.start.number, r.end.number), (0, 2));
    let r = ff.allocate_range(3).unwrap();
    assert_eq!((r.start.number, r.end.number), (30, 33));
}

fn area(start: u64, end: u64) -> Area {
    Area { start_addr: PAddr::new(start), end_addr: PAddr::new(end), is_usable: true }
}

fn params(mem_map: Vec<Area>) -> InitParams {
    InitParams {
        kernel_base: PAddr::new(0x2000),
        kernel_top: PAddr::new(0x4000),
        heap_base: PAddr::new(0x10_0000),
        heap_top: PAddr::new(0x20_0000),
        multiboot_start: Some(PAddr::new(0x6000)),
        multiboot_end: Some(PAddr::new(0x7000)),
        mem_map,
    }
}

#[test]
fn mem_map_skips_kernel_and_multiboot_frames() {
    let p = params(vec![area(0, 0x8fff)]);
    let mut a = MemMapAllocator::new(&p);
    let mut got = Vec::new();
    while let Ok(f) = a.allocate() {
        got.push(f.number);
    }
    assert_eq!(got, vec![0, 1, 5, 8]);
    assert_eq!(
        a.allocate(),
        Err(AllocErr::Exhausted { request: Layout::from_size_align(4096, 4096) })
    );
}

#[test]
fn mem_map_visits_areas_by_start_address() {
    let p = params(vec![area(0x20_0000, 0x20_1fff), area(0x10_0000, 0x10_0fff)]);
    let mut a = MemMapAllocator::new(&p);
    let mut got = Vec::new();
    while let Ok(f) = a.allocate() {
        got.push(f.number);
    }
    // the frames of each area, the one with the lowest start first
    assert_eq!(got, vec![0x100, 0x200, 0x201]);
}

#[test]
fn params_frames() {
    let p = params(vec![]);
    let k = p.kernel_frames();
    assert_eq!((k.start.number, k.end.number), (2, 4));
    let h = p.heap_frames();
    assert_eq!((h.start.number, h.end.number), (0x100, 0x200));
    assert_eq!(p.multiboot_start().as_u64(), 0x6000);
    assert_eq!(p.multiboot_end().as_u64(), 0x7000);
}

#[test]
fn first_fit_checked_refuses_what_it_cannot_do() {
    let mut v: ArrayVec<FrameRange, 256> = ArrayVec::new();
    v.push(range(5, 3));
    v.push(range(10, 20));
    let mut ff = FirstFit::new(v);
    // the first range ends before it starts
    assert_eq!(ff.allocate_range_checked(2), None);

    let mut v: ArrayVec<FrameRange, 256> = ArrayVec::new();
    v.push(range(10, 12));
    let mut ff = FirstFit::new(v);
    // a request nothing fits is answered
    assert_eq!(ff.allocate_range_checked(3), Some(None));
    // the only range is used up whole
    let r = ff.allocate_range_checked(2).unwrap().unwrap();
    assert_eq!((r.start.number, r.end.number), (10, 12));
    assert_eq!(ff.allocate_range_checked(1), Some(None));
}

#[test]
fn mem_map_starts_at_the_first_area() {
    let p = params(vec![area(0x5000, 0x9fff)]);
    let mut a = MemMapAllocator::new(&p);
    let mut got = Vec::new();
    while let Ok(f) = a.allocate() {
        got.push(f.number);
    }
    // frames 5 to 9; at frame 6, which holds the multiboot information, the
    // next free frame moves one past the end of that range
    assert_eq!(got, vec![5, 8, 9]);
}

#[test]
fn kernel_frames_hold_the_last_partial_frame() {
    let mut p = params(vec![]);
    p.kernel_top = PAddr::new(0x4001);
    let k = p.kernel_frames();
    assert_eq!((k.start.number, k.end.number), (2, 5));
}

#[test]
fn mem_map_skips_multiboot_inside_one_frame() {
    let mut p = params(vec![area(0, 0xffff)]);
    p.multiboot_start = Some(PAddr::new(0x1000));
    p.multiboot_end = Some(PAddr::new(0x1800));
    let mut a = MemMapAllocator::new(&p);
    assert_eq!(a.allocate().unwrap().number, 0);
    // frame 1 holds the information and frames 2 and 3 the kernel
    assert_eq!(a.allocate().unwrap().number, 5);
}
