use sos_kernel::allocator::buddy::Heap;
use sos_kernel::allocator::{AllocErr, Allocator, Layout};

const HEAP_SIZE: usize = 256;
const MEM: usize = 4096;

fn new_heap() -> Heap {
    Heap::new(MEM, 5, HEAP_SIZE)
}

#[test]
fn test_allocation_size_and_order() {
    let heap = new_heap();

    assert!(heap.alloc_size(&Layout::from_size_align(256, 256 * 2)).is_err());

    assert_eq!(Ok(16), heap.alloc_size(&Layout::from_size_align(0, 1)));
    assert_eq!(Ok(16), heap.alloc_size(&Layout::from_size_align(1, 1)));
    assert_eq!(Ok(16), heap.alloc_size(&Layout::from_size_align(16, 1)));
    assert_eq!(Ok(32), heap.alloc_size(&Layout::from_size_align(17, 1)));
    assert_eq!(Ok(32), heap.alloc_size(&Layout::from_size_align(32, 32)));
    assert_eq!(Ok(256), heap.alloc_size(&Layout::from_size_align(256, 256)));
    assert_eq!(Ok(64), heap.alloc_size(&Layout::from_size_align(16, 64)));

    assert_eq!(Ok(0), heap.alloc_order(&Layout::from_size_align(0, 1)));
    assert_eq!(Ok(0), heap.alloc_order(&Layout::from_size_align(1, 1)));
    assert_eq!(Ok(0), heap.alloc_order(&Layout::from_size_align(16, 16)));
    assert_eq!(Ok(1), heap.alloc_order(&Layout::from_size_align(32, 32)));
    assert_eq!(Ok(2), heap.alloc_order(&Layout::from_size_align(64, 64)));
    assert_eq!(Ok(3), heap.alloc_order(&Layout::from_size_align(128, 128)));
    assert_eq!(Ok(4), heap.alloc_order(&Layout::from_size_align(256, 256)));
    assert!(heap.alloc_order(&Layout::from_size_align(512, 512)).is_err());
}

#[test]
fn test_get_buddy() {
    let heap = new_heap();
    let block_16_0 = MEM;
    let block_16_1 = MEM + 16;
    assert_eq!(Some(block_16_1), heap.get_buddy(0, block_16_0));
    assert_eq!(Some(block_16_0), heap.get_buddy(0, block_16_1));

    let block_32_0 = MEM;
    let block_32_1 = MEM + 32;
    assert_eq!(Some(block_32_1), heap.get_buddy(1, block_32_0));
    assert_eq!(Some(block_32_0), heap.get_buddy(1, block_32_1));

    let block_32_2 = MEM + 64;
    let block_32_3 = MEM + 96;
    assert_eq!(Some(block_32_3), heap.get_buddy(1, block_32_2));
    assert_eq!(Some(block_32_2), heap.get_buddy(1, block_32_3));

    let block_256_0 = MEM;
    assert_eq!(None, heap.get_buddy(4, block_256_0));
}

#[test]
fn test_alloc_and_dealloc() {
    let mut heap = new_heap();

    let block_128_0 = heap.allocate(Layout::from_size_align(128, 128));
    assert_eq!(Ok(MEM), block_128_0);

    heap.deallocate(block_128_0.unwrap(), Layout::from_size_align(128, 128));

    let block_16_0 = heap.allocate(Layout::from_size_align(8, 8));
    assert_eq!(Ok(MEM), block_16_0);

    let bigger_than_heap = heap.allocate(Layout::from_size_align(4096, HEAP_SIZE));
    assert!(bigger_than_heap.is_err());

    let bigger_than_free = heap.allocate(Layout::from_size_align(HEAP_SIZE, HEAP_SIZE));
    assert!(bigger_than_free.is_err());

    let block_16_1 = heap.allocate(Layout::from_size_align(8, 8));
    assert_eq!(Ok(MEM + 16), block_16_1);

    let block_16_2 = heap.allocate(Layout::from_size_align(8, 8));
    assert_eq!(Ok(MEM + 32), block_16_2);

    let block_32_2 = heap.allocate(Layout::from_size_align(32, 32));
    assert_eq!(Ok(MEM + 64), block_32_2);

    let block_16_3 = heap.allocate(Layout::from_size_align(8, 8));
    assert_eq!(Ok(MEM + 48), block_16_3);

    heap.deallocate(block_16_0.unwrap(), Layout::from_size_align(8, 8));
    heap.deallocate(block_16_3.unwrap(), Layout::from_size_align(8, 8));
    heap.deallocate(block_16_1.unwrap(), Layout::from_size_align(8, 8));
    heap.deallocate(block_16_2.unwrap(), Layout::from_size_align(8, 8));

    heap.deallocate(block_32_2.unwrap(), Layout::from_size_align(32, 32));

    let block_128_0 = heap.allocate(Layout::from_size_align(128, 128));
    assert_eq!(Ok(MEM), block_128_0);

    let block_128_1 = heap.allocate(Layout::from_size_align(128, 128));
    assert_eq!(Ok(MEM + 128), block_128_1);

    heap.deallocate(block_128_1.unwrap(), Layout::from_size_align(128, 128));
    heap.deallocate(block_128_0.unwrap(), Layout::from_size_align(128, 128));

    let block_256_0 = heap.allocate(Layout::from_size_align(256, 256)).unwrap();
    assert_eq!(MEM, block_256_0);
}

#[test]
fn unsupported_requests_name_their_reason() {
    let mut heap = new_heap();
    assert_eq!(
        Err(AllocErr::Unsupported {
            details: "Cannot allocate requests with alignments greater than the base alignment of the heap!"
        }),
        heap.allocate(Layout::from_size_align(8, 8192))
    );
    assert_eq!(
        Err(AllocErr::Unsupported { details: "Cannot allocate requests larger than the heap!" }),
        heap.allocate(Layout::from_size_align(512, 8))
    );
}

#[test]
fn exhausted_when_no_block_is_free() {
    let mut heap = new_heap();
    assert_eq!(Ok(MEM), heap.allocate(Layout::from_size_align(256, 256)));
    let l = Layout::from_size_align(16, 16);
    assert_eq!(Err(AllocErr::Exhausted { request: l }), heap.allocate(l));
}

#[test]
fn release_after_allocate_restores_the_whole_heap() {
    let mut heap = new_heap();
    let l = Layout::from_size_align(16, 16);
    let b = heap.allocate(l).unwrap();
    heap.deallocate(b, l);
    assert_eq!(Ok(MEM), heap.allocate(Layout::from_size_align(256, 256)));
}

#[test]
fn buddies_are_symmetric() {
    let heap = new_heap();
    for order in 0..4usize {
        let size = 16usize << order;
        let mut block = MEM;
        while block < MEM + HEAP_SIZE {
            let buddy = heap.get_buddy(order, block).unwrap();
            assert_eq!(Some(block), heap.get_buddy(order, buddy));
            block += size;
        }
    }
}

#[test]
fn free_list_count_matches_orders() {
    let heap = new_heap();
    assert_eq!(5, heap.num_free_lists());
}
