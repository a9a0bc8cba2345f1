use sos_kernel::allocator::simple::FrameNumber;
use sos_kernel::allocator::{AllocErr, Layout};
use sos_kernel::boot::{
    boot_cells, identity_map_directory, is_multiboot_supported, Gdt, GdtPointer, TableEntry,
    GDT_CODE, MULTIBOOT_MAGIC,
};
use sos_kernel::memory::PhysicalPage;
use sos_kernel::paging::FrameCache;

#[test]
fn page_table_entries() {
    let mut e = TableEntry(0);
    e.map_to_table(0x1000);
    assert_eq!(e.0, 0x1003);
    e.map_to_page(3);
    assert_eq!(e.0, 3 * 0x20_0000 | 0x83);
    let dir = identity_map_directory();
    assert_eq!(dir.len(), 512);
    assert_eq!(dir[0].0, 0x83);
    assert_eq!(dir[511].0, 511 * 0x20_0000 | 0x83);
}

#[test]
fn boot_screen_and_magic() {
    assert_eq!(boot_cells(b"3.1"), vec![0x0233, 0x022e, 0x0231]);
    assert!(boot_cells(b"").is_empty());
    assert!(is_multiboot_supported(MULTIBOOT_MAGIC));
    assert!(!is_multiboot_supported(0x2badb002));
}

#[test]
fn global_descriptor_table() {
    let gdt = Gdt::boot();
    assert_eq!(gdt.null, 0);
    assert_eq!(gdt.code, (1 << 44) | (1 << 47) | (1 << 41) | (1 << 43) | (1 << 53));
    assert_eq!(GDT_CODE, gdt.code);
    let p = GdtPointer::from(0x1234);
    assert_eq!((p.limit, p.base), (15, 0x1234));
}

#[test]
fn frame_cache_takes_and_returns_frames() {
    let f = |n| Some(PhysicalPage { number: n });
    let ok = |n| Ok(PhysicalPage { number: n });
    let mut c = FrameCache::new(None, f(7), f(9));
    assert_eq!(c.allocate(), ok(7));
    assert_eq!(c.allocate(), ok(9));
    assert_eq!(
        c.allocate(),
        Err(AllocErr::Exhausted { request: Layout::from_size_align(4096, 4096) })
    );
    c.deallocate(PhysicalPage { number: 3 });
    c.deallocate(PhysicalPage { number: 4 });
    assert_eq!(c.allocate(), ok(3));
    assert_eq!(c.allocate(), ok(4));
}

#[test]
fn frame_numbers() {
    assert_eq!(FrameNumber::containing(0x5fff), FrameNumber(5));
    assert_eq!(FrameNumber::containing(0x6000).next(), FrameNumber(7));
}
