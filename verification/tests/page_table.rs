use sos_kernel::memory::{PhysicalPage, VirtualPage};
use sos_kernel::multiboot::elf64::Section;
use sos_kernel::page_table::{remap_plan, MapErr, PageTables, Table, NO_EXECUTE, PRESENT, WRITABLE};
use sos_kernel::stack::allocate_stack;
use sos_kernel::allocator::frame::mem_map::MemMapAllocator;
use sos_kernel::allocator::frame::Allocator as FrameAllocator;
use sos_kernel::memory::{PAddr, VAddr};
use sos_kernel::params::{Area, InitParams};

fn table(frame: u64, set: &[(usize, u64)]) -> Table {
    let mut entries = vec![0u64; 512];
    for &(i, e) in set {
        entries[i] = e;
    }
    Table { frame, entries }
}

fn entry(frame: u64, flags: u64) -> u64 {
    (frame << 12) | flags
}

/// The top table in frame 1 points its entry 0 to a directory pointer table
/// in frame 2, whose entry 0 points to a directory in frame 3 and whose
/// entry 1 maps a 1 GiB page at frame 0x40000. The directory's entry 0
/// points to a page table in frame 4 and its entry 1 maps a 2 MiB page at
/// frame 0x800. The page table maps page 5 to frame 0x77.
fn tables() -> PageTables {
    PageTables {
        root: 1,
        tables: vec![
            table(1, &[(0, entry(2, PRESENT | WRITABLE))]),
            table(2, &[(0, entry(3, PRESENT)), (1, entry(0x40000, PRESENT | 0x80))]),
            table(3, &[(0, entry(4, PRESENT)), (1, entry(0x800, PRESENT | 0x80))]),
            table(4, &[(5, entry(0x77, PRESENT)), (6, entry(0x78, 0))]),
        ],
    }
}

#[test]
fn translate_walks_four_levels() {
    let t = tables();
    assert_eq!(t.translate_page(VirtualPage { number: 5 }), Some(PhysicalPage { number: 0x77 }));
    // a page table entry that is not present
    assert_eq!(t.translate_page(VirtualPage { number: 6 }), None);
    assert!(!t.is_mapped(VirtualPage { number: 7 }));
    assert!(t.is_mapped(VirtualPage { number: 5 }));
    // the second top-level entry is not present
    assert_eq!(t.translate_page(VirtualPage { number: 0x800_0000 }), None);
}

#[test]
fn translate_follows_huge_pages() {
    let t = tables();
    // 2 MiB page: directory entry 1, page index 3
    assert_eq!(
        t.translate_page(VirtualPage { number: 0x200 + 3 }),
        Some(PhysicalPage { number: 0x803 })
    );
    // 1 GiB page: directory pointer entry 1, directory index 2, page index 7
    assert_eq!(
        t.translate_page(VirtualPage { number: 0x4_0000 + 2 * 512 + 7 }),
        Some(PhysicalPage { number: 0x40000 + 2 * 512 + 7 })
    );
    // a directory entry whose table is missing
    let mut t = tables();
    t.tables.pop();
    assert_eq!(t.translate_page(VirtualPage { number: 5 }), None);
    assert_eq!(t.entry(3, 1), Some(entry(0x800, PRESENT | 0x80)));
    assert_eq!(t.entry(9, 0), None);
}

fn section(flags: u64, address: u64, length: u64) -> Section {
    Section {
        name: 0,
        ty: 1,
        flags,
        address,
        offset: 0,
        length,
        link: 0,
        address_align: 0,
        entry_length: 0,
    }
}

#[test]
fn remap_plan_lists_sections_vga_and_multiboot() {
    let sections = [
        // code: allocated and executable, a frame and one byte
        section(0x6, 0x10_0000, 0x1001),
        // not allocated: left out
        section(0x0, 0x20_0000, 0x1000),
        // data: allocated and writable
        section(0x3, 0x10_2000, 0x800),
    ];
    let plan = remap_plan(&sections, 0x6100, 0x7001);
    let f = |n: u64, fl: u64| (PhysicalPage { number: n }, fl);
    assert_eq!(
        plan,
        vec![
            f(0x100, PRESENT),
            f(0x101, PRESENT),
            f(0x102, PRESENT | WRITABLE | NO_EXECUTE),
            f(0xb8, WRITABLE),
            f(6, PRESENT),
            f(7, PRESENT),
        ]
    );
    // no multiboot bytes
    assert_eq!(remap_plan(&[], 0x5000, 0x5000), vec![f(0xb8, WRITABLE)]);
}

/// A frame allocator handing out frames `first` to `last`.
fn frames(first: u64, last: u64) -> MemMapAllocator {
    let area = Area {
        start_addr: PAddr::new(first * 4096),
        end_addr: PAddr::new(last * 4096 + 4095),
        is_usable: true,
    };
    let p = InitParams {
        kernel_base: PAddr::new(0x1000),
        kernel_top: PAddr::new(0x2000),
        heap_base: PAddr::new(0x3000),
        heap_top: PAddr::new(0x4000),
        multiboot_start: Some(PAddr::new(0x5000)),
        multiboot_end: Some(PAddr::new(0x6000)),
        mem_map: vec![area],
    };
    MemMapAllocator::new(&p)
}

#[test]
fn map_makes_missing_tables_and_translates() {
    let mut t = PageTables { root: 1, tables: vec![table(1, &[])] };
    let mut cache = frames(10, 12);
    let page = VirtualPage { number: 0x123_4567 };
    assert_eq!(t.translate_page(page), None);
    assert_eq!(t.map(page, PhysicalPage { number: 0x99 }, WRITABLE, &mut cache), Ok(()));
    assert_eq!(t.translate_page(page), Some(PhysicalPage { number: 0x99 }));
    assert_eq!(t.tables.len(), 4);
    // the new tables took the allocator's frames, one per level
    assert!(cache.allocate().is_err());
    assert_eq!(t.tables[1].frame, 10);
    assert_eq!(t.tables[3].frame, 12);
    // the page's entry is in use now
    let mut empty = frames(20, 19);
    assert_eq!(
        t.map(page, PhysicalPage { number: 0x98 }, 0, &mut empty),
        Err(MapErr::InUse)
    );
    // a neighbour in the same page table needs no new table
    let next = VirtualPage { number: 0x123_4568 };
    assert_eq!(t.identity_map(PhysicalPage { number: 0x123_4568 }, 0, &mut empty), Ok(()));
    assert_eq!(t.translate_page(next), Some(PhysicalPage { number: 0x123_4568 }));
    // mapping the neighbour left the first page as it was
    assert_eq!(t.translate_page(page), Some(PhysicalPage { number: 0x99 }));
    // unmapping gives the frame back and leaves the page unmapped
    assert_eq!(t.unmap(page), Ok(PhysicalPage { number: 0x99 }));
    assert_eq!(t.translate_page(page), None);
    assert_eq!(t.unmap(page), Err(MapErr::NotMapped));
    // a page in another top-level slot needs frames the allocator has not got
    assert_eq!(
        t.map(VirtualPage { number: 0x800_0000 }, PhysicalPage { number: 5 }, 0, &mut empty),
        Err(MapErr::OutOfFrames)
    );
}

#[test]
fn map_refuses_huge_pages_and_recursive_ways() {
    let mut t = tables();
    let mut empty = frames(20, 19);
    assert_eq!(
        t.map(VirtualPage { number: 0x200 }, PhysicalPage { number: 1 }, 0, &mut empty),
        Err(MapErr::HugePage)
    );
    assert_eq!(t.unmap(VirtualPage { number: 0x200 }), Err(MapErr::HugePage));
    // the top table's last entry points back to itself
    let mut r = PageTables { root: 1, tables: vec![table(1, &[(511, entry(1, PRESENT | WRITABLE))])] };
    assert_eq!(
        r.map(VirtualPage { number: 511 * 0x800_0000 }, PhysicalPage { number: 1 }, 0, &mut empty),
        Err(MapErr::Recursive)
    );
}

#[test]
fn map_to_any_takes_a_frame() {
    let mut t = tables();
    let mut a = frames(0x50, 0x50);
    let page = VirtualPage { number: 7 };
    assert_eq!(t.map_to_any(page, WRITABLE, &mut a), Ok(PhysicalPage { number: 0x50 }));
    assert_eq!(t.translate_page(page), Some(PhysicalPage { number: 0x50 }));
    assert_eq!(t.map_to_any(VirtualPage { number: 8 }, 0, &mut a), Err(MapErr::OutOfFrames));
}

#[test]
fn map_stack_maps_every_stack_page() {
    let mut pages = VirtualPage { number: 0x100 }..VirtualPage { number: 0x110 };
    let s = allocate_stack(&mut pages, 3).unwrap();
    assert_eq!((s.start_page.number, s.end_page.number), (0x101, 0x103));
    let mut t = PageTables { root: 1, tables: vec![table(1, &[])] };
    let mut a = frames(0x40, 0x50);
    assert_eq!(t.map_stack(&s, &mut a), Ok(()));
    // the first page's frame is taken before the three tables on its way
    assert_eq!(t.translate_page(VirtualPage { number: 0x101 }), Some(PhysicalPage { number: 0x40 }));
    assert_eq!(t.translate_page(VirtualPage { number: 0x102 }), Some(PhysicalPage { number: 0x44 }));
    assert_eq!(t.translate_page(VirtualPage { number: 0x103 }), Some(PhysicalPage { number: 0x45 }));
    // each stack page is mapped writable
    assert_eq!(t.entry(0x43, 0x102), Some((0x44 << 12) | PRESENT | WRITABLE));
    // the guard page stays unmapped
    assert_eq!(t.translate_page(VirtualPage { number: 0x100 }), None);
    assert_eq!(t.translate_page(VirtualPage { number: 0x104 }), None);
}

#[test]
fn map_refuses_missing_tables_and_large_frames() {
    let mut none = PageTables { root: 9, tables: vec![] };
    let mut a = frames(0x40, 0x50);
    assert_eq!(
        none.map(VirtualPage { number: 1 }, PhysicalPage { number: 2 }, 0, &mut a),
        Err(MapErr::TableMissing)
    );
    assert_eq!(none.unmap(VirtualPage { number: 1 }), Err(MapErr::NotMapped));
    let mut t = tables();
    assert_eq!(
        t.map(VirtualPage { number: 7 }, PhysicalPage { number: 1 << 40 }, 0, &mut a),
        Err(MapErr::FrameTooLarge)
    );
    // the way to page 5 is all there, so mapping it again is refused
    assert_eq!(
        t.map(VirtualPage { number: 5 }, PhysicalPage { number: 3 }, 0, &mut a),
        Err(MapErr::InUse)
    );
}

#[test]
fn remap_tables_identity_maps_the_plan_and_leaves_a_guard() {
    let sections = [section(0x6, 0x10_0000, 0x2000), section(0x3, 0x10_2000, 0x10)];
    let mut a = frames(0x200, 0x240);
    let old_root = PhysicalPage { number: 0x101 };
    let t = sos_kernel::page_table::remap_tables(
        &sections,
        0x6000,
        0x6800,
        PhysicalPage { number: 0x1ff },
        old_root,
        &mut a,
    )
    .unwrap();
    assert_eq!(t.root, 0x1ff);
    assert_eq!(t.entry(0x1ff, 511), Some((0x1ff << 12) | PRESENT | WRITABLE));
    for n in [0x100u64, 0x102, 0xb8, 6] {
        assert_eq!(t.translate_page(VirtualPage { number: n as usize }), Some(PhysicalPage { number: n }));
    }
    // the old top table's frame is the guard page
    assert_eq!(t.translate_page(VirtualPage { number: 0x101 }), None);
    // a frame listed twice is refused
    let twice = [section(0x2, 0x10_0000, 0x1000), section(0x2, 0x10_0000, 0x1000)];
    let mut a = frames(0x200, 0x240);
    assert_eq!(
        sos_kernel::page_table::remap_tables(&twice, 0, 0, PhysicalPage { number: 0x1ff }, old_root, &mut a)
            .map(|_| ()),
        Err(MapErr::InUse)
    );
}

#[test]
fn map_writes_the_flags() {
    let mut t = tables();
    let mut a = frames(0x50, 0x60);
    assert_eq!(t.map(VirtualPage { number: 7 }, PhysicalPage { number: 0x33 }, WRITABLE | NO_EXECUTE, &mut a), Ok(()));
    assert_eq!(t.entry(4, 7), Some((0x33 << 12) | PRESENT | WRITABLE | NO_EXECUTE));
    // unmapping page 7 leaves page 5 mapped
    assert_eq!(t.unmap(VirtualPage { number: 7 }), Ok(PhysicalPage { number: 0x33 }));
    assert_eq!(t.translate_page(VirtualPage { number: 5 }), Some(PhysicalPage { number: 0x77 }));
}

#[test]
fn translate_keeps_the_offset() {
    let t = tables();
    assert_eq!(t.translate(VAddr::new(5 * 4096 + 0x123)), Some(PAddr::new(0x77 * 4096 + 0x123)));
    assert_eq!(t.translate(VAddr::new(6 * 4096)), None);
}
