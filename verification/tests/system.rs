use sos_kernel::allocator::buddy::Heap;
use sos_kernel::allocator::bump_ptr::BumpPtr;
use sos_kernel::allocator::system::Tier;
use sos_kernel::allocator::{AllocErr, Allocator, Layout};
use sos_kernel::memory::{PAddr, VirtualPage};
use sos_kernel::stack::allocate_stack;

#[test]
fn bump_pointer_rounds_up_and_runs_out() {
    let mut b = BumpPtr::new(PAddr::new(0x1001), PAddr::new(0x1100));
    assert_eq!(b.allocate(Layout::from_size_align(16, 16)), Ok(0x1010));
    assert_eq!(b.allocate(Layout::from_size_align(1, 1)), Ok(0x1020));
    assert_eq!(b.allocate(Layout::from_size_align(8, 64)), Ok(0x1040));
    let big = Layout::from_size_align(0x100, 1);
    assert_eq!(b.allocate(big), Err(AllocErr::Exhausted { request: big }));
    b.deallocate(0x1010, Layout::from_size_align(16, 16));
    assert_eq!(b.allocate(Layout::from_size_align(8, 8)), Ok(0x1048));
}

#[test]
fn tier_dispatches_to_the_allocator_in_charge() {
    let mut t = Tier::Uninitialized;
    assert_eq!(
        t.allocate(Layout::from_size_align(8, 8)),
        Err(AllocErr::Unsupported { details: "System allocator uninitialized!" })
    );
    t.deallocate(0, Layout::from_size_align(8, 8));
    let mut t = Tier::Bump(BumpPtr::new(PAddr::new(0x2000), PAddr::new(0x3000)));
    assert_eq!(t.allocate(Layout::from_size_align(8, 8)), Ok(0x2000));
    let mut t = Tier::Buddy(Heap::new(4096, 5, 256));
    let l = Layout::from_size_align(256, 256);
    assert_eq!(t.allocate(l), Ok(4096));
    t.deallocate(4096, l);
    assert_eq!(t.allocate(l), Ok(4096));
}

#[test]
fn stacks_come_after_a_guard_page() {
    let mut pages = VirtualPage { number: 100 }..VirtualPage { number: 110 };
    let s = allocate_stack(&mut pages, 3).unwrap();
    assert_eq!((s.start_page.number, s.end_page.number), (101, 103));
    assert_eq!(s.stack.start.as_usize(), 104 * 4096);
    assert_eq!(s.stack.end.as_usize(), 101 * 4096);
    assert_eq!((pages.start.number, pages.end.number), (104, 110));
    let s = allocate_stack(&mut pages, 1).unwrap();
    assert_eq!((s.start_page.number, s.end_page.number), (105, 105));
    assert_eq!(pages.start.number, 106);
}

#[test]
fn stack_errors() {
    let mut pages = VirtualPage { number: 100 }..VirtualPage { number: 104 };
    assert_eq!(
        allocate_stack(&mut pages, 0).unwrap_err(),
        AllocErr::Unsupported { details: "Why would you try to allocate a zero-page stack?" }
    );
    assert_eq!(
        allocate_stack(&mut pages, 4).unwrap_err(),
        AllocErr::Exhausted { request: Layout::from_size_align(4 * 4096, 4096) }
    );
    assert_eq!((pages.start.number, pages.end.number), (100, 104));
    assert!(allocate_stack(&mut pages, 3).is_ok());
}
