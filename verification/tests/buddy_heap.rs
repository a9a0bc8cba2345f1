use sos_kernel::allocator::buddy_heap::{BuddyHeapAllocator, FreeList};

const MEM: usize = 4096;

fn new_heap() -> BuddyHeapAllocator {
    let lists = (0..5).map(|_| FreeList::new()).collect();
    BuddyHeapAllocator::new(MEM, lists, 256)
}

#[test]
fn free_list_push_pop_and_find() {
    let mut l = FreeList::new();
    assert!(!l.has_free_blocks());
    assert_eq!(l.pop(), None);
    l.push(1);
    l.push(2);
    assert_eq!(l.length, 2);
    assert!(l.has_free_blocks());
    assert_eq!(l.pop(), Some(2));
    // popping takes the block off the count
    assert_eq!(l.length, 1);
    l.push(3);
    // removing takes the block off the list
    assert!(l.remove(1));
    assert_eq!(l.length, 1);
    assert!(!l.remove(1));
    assert!(!l.remove(5));
    assert_eq!(l.length, 1);
    assert_eq!(l.pop(), Some(3));
    assert_eq!(l.length, 0);
    assert_eq!(l.pop(), None);
    assert_eq!(l.length, 0);
}

#[test]
fn request_sizes_and_orders() {
    let heap = new_heap();
    assert_eq!(heap.alloc_size(0, 1), Some(16));
    assert_eq!(heap.alloc_size(1, 1), Some(16));
    assert_eq!(heap.alloc_size(17, 1), Some(32));
    assert_eq!(heap.alloc_size(16, 64), Some(64));
    assert_eq!(heap.alloc_size(256, 256), Some(256));
    assert_eq!(heap.alloc_size(256, 512), None);
    assert_eq!(heap.alloc_size(8, 3), None);
    assert_eq!(heap.alloc_size(8, 8192), None);
    assert_eq!(heap.alloc_order(0, 1), Some(0));
    assert_eq!(heap.alloc_order(32, 32), Some(1));
    assert_eq!(heap.alloc_order(128, 128), Some(3));
    assert_eq!(heap.alloc_order(256, 256), Some(4));
    assert_eq!(heap.alloc_order(512, 512), None);
}

#[test]
fn buddies() {
    let heap = new_heap();
    assert_eq!(heap.get_buddy(0, MEM), Some(MEM + 16));
    assert_eq!(heap.get_buddy(0, MEM + 16), Some(MEM));
    assert_eq!(heap.get_buddy(1, MEM + 64), Some(MEM + 96));
    assert_eq!(heap.get_buddy(4, MEM), None);
}

#[test]
fn allocate_splits_the_first_block_that_fits() {
    let mut heap = new_heap();
    assert_eq!(heap.allocate(16, 16), Some(MEM));
    assert_eq!(heap.allocate(16, 16), Some(MEM + 16));
    assert_eq!(heap.allocate(32, 32), Some(MEM + 32));
    assert_eq!(heap.allocate(64, 64), Some(MEM + 64));
    assert_eq!(heap.allocate(128, 128), Some(MEM + 128));
    assert_eq!(heap.allocate(16, 16), None);
    assert_eq!(heap.allocate(16, 8192), None);
}

#[test]
fn release_merges_with_free_buddies() {
    let mut heap = new_heap();
    assert_eq!(heap.allocate(128, 128), Some(MEM));
    // the buddy at MEM + 128 is free: it is taken off its list and the two
    // merge into the whole heap again
    heap.deallocate(MEM, 128, 128);
    assert_eq!(heap.allocate(256, 256), Some(MEM));
    assert_eq!(heap.allocate(8, 8), None);
}

#[test]
fn releasing_every_block_restores_the_whole_heap() {
    let mut heap = new_heap();
    let a = heap.allocate(16, 16).unwrap();
    let b = heap.allocate(16, 16).unwrap();
    let c = heap.allocate(64, 64).unwrap();
    let d = heap.allocate(32, 32).unwrap();
    assert_eq!((a, b, c, d), (MEM, MEM + 16, MEM + 64, MEM + 32));
    heap.deallocate(b, 16, 16);
    heap.deallocate(c, 64, 64);
    heap.deallocate(a, 16, 16);
    heap.deallocate(d, 32, 32);
    assert_eq!(heap.allocate(256, 256), Some(MEM));
}
