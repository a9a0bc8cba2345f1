use sos_kernel::memory::{MemRange, PAddr, PhysicalPage, VAddr, VirtualPage};

#[test]
fn virtual_address_table_indices() {
    let a = VAddr::from_usize((1 << 39) * 3 + (1 << 30) * 5 + (1 << 21) * 7 + (1 << 12) * 9 + 11);
    assert_eq!(a.pml4_index(), 3);
    assert_eq!(a.pdpt_index(), 5);
    assert_eq!(a.pd_index(), 7);
    assert_eq!(a.pt_index(), 9);
}

#[test]
fn alignment() {
    let a = VAddr::new(0x1234);
    assert_eq!(a.align_down(0x1000).as_usize(), 0x1000);
    assert_eq!(a.align_up(0x1000).as_usize(), 0x2000);
    assert!(!a.is_page_aligned());
    assert!(VAddr::new(0x3000).is_page_aligned());
    let p = PAddr::new(0x5001);
    assert_eq!(p.align_down(0x1000).as_u64(), 0x5000);
    assert_eq!(p.align_up(0x1000).as_u64(), 0x6000);
    assert!(PAddr::new(0x2000).is_page_aligned());
}

#[test]
fn frames_and_pages() {
    let f = PhysicalPage::containing_addr(PAddr::new(0x5432));
    assert_eq!(f.number, 5);
    assert_eq!(f.base().as_u64(), 0x5000);
    assert_eq!(f.add_one().number, 6);
    let r = f.range_of(3);
    assert_eq!((r.start.number, r.end.number), (5, 8));
    assert_eq!(r.length(), 3);
    let p = VirtualPage::containing(VAddr::new(0x7fff));
    assert_eq!(p.number, 7);
    assert_eq!(p.base().as_usize(), 0x7000);
    assert_eq!(p.end_address().as_usize(), 0x8000);
}

#[test]
fn frame_range_editing() {
    let mut r = PhysicalPage { number: 10 }.range_of(10);
    r.drop_front(2);
    r.drop_back(3);
    assert_eq!((r.start.number, r.end.number), (12, 17));
    r.add_front(12);
    r.add_back(1);
    assert_eq!((r.start.number, r.end.number), (0, 18));
    assert_eq!(r.length(), 18);
}

#[test]
fn page_range_editing() {
    let mut r = VirtualPage { number: 5 }..VirtualPage { number: 15 };
    assert_eq!(r.length(), 10);
    r.drop_front(4);
    r.drop_back(1);
    assert_eq!((r.start.number, r.end.number), (9, 14));
    r.add_front(9);
    r.add_back(2);
    assert_eq!((r.start.number, r.end.number), (0, 16));
}
