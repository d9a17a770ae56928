use marcel_os::allocator::bump::BumpAllocator;
use marcel_os::allocator::fixed_size_block::{block_size, list_index, FixedSizeBlockAllocator};
use marcel_os::allocator::linked_list::{LinkedListAllocator, ListNode};
use marcel_os::allocator::{align_up, Dummy, Layout};

fn layout(size: usize, align: usize) -> Layout {
    Layout::from_size_align(size, align).unwrap()
}

#[test]
fn align_up_rounds_to_multiple() {
    assert_eq!(align_up(0, 8), 0);
    assert_eq!(align_up(1, 8), 8);
    assert_eq!(align_up(8, 8), 8);
    assert_eq!(align_up(9, 16), 16);
    assert_eq!(align_up(0x1001, 0x1000), 0x2000);
}

#[test]
fn layout_rejects_bad_alignment() {
    assert!(Layout::from_size_align(8, 0).is_none());
    assert!(Layout::from_size_align(8, 3).is_none());
    assert!(Layout::from_size_align(8, 12).is_none());
    assert!(Layout::from_size_align(usize::MAX, 8).is_none());
    let l = layout(24, 8);
    assert_eq!(l.size(), 24);
    assert_eq!(l.align(), 8);
}

#[test]
fn dummy_allocator_returns_null() {
    assert_eq!(Dummy.allocate(layout(16, 8)), 0);
}

#[test]
fn size_align_raises_to_node_size() {
    assert_eq!(LinkedListAllocator::size_align(layout(1, 1)), (16, 8));
    assert_eq!(LinkedListAllocator::size_align(layout(20, 4)), (24, 8));
    assert_eq!(LinkedListAllocator::size_align(layout(33, 32)), (64, 32));
    assert_eq!(LinkedListAllocator::size_align(layout(0, 64)), (16, 64));
}

#[test]
fn alloc_from_region_checks_fit_and_tail() {
    let region = ListNode::new(0x1000, 0x100);
    assert_eq!(LinkedListAllocator::alloc_from_region(&region, 0x100, 8), Ok(0x1000));
    assert_eq!(LinkedListAllocator::alloc_from_region(&region, 0x101, 8), Err(()));
    // A tail of 8 bytes cannot hold a node.
    assert_eq!(LinkedListAllocator::alloc_from_region(&region, 0xf8, 8), Err(()));
    assert_eq!(LinkedListAllocator::alloc_from_region(&region, 0xf0, 8), Ok(0x1000));
    let unaligned = ListNode::new(0x1008, 0x100);
    assert_eq!(LinkedListAllocator::alloc_from_region(&unaligned, 0x10, 0x80), Ok(0x1080));
    assert_eq!(region.start_addr(), 0x1000);
    assert_eq!(region.end_addr(), 0x1100);
}

#[test]
fn linked_list_first_fit_and_split() {
    let mut a = LinkedListAllocator::new();
    a.init(0x10000, 0x1000);
    let p = a.allocate(layout(64, 8));
    assert_eq!(p, 0x10000);
    let q = a.allocate(layout(64, 8));
    assert_eq!(q, 0x10040);
    a.deallocate(p, layout(64, 8));
    // The freed block is at the front of the list and fits again.
    assert_eq!(a.allocate(layout(64, 8)), 0x10000);
}

#[test]
fn linked_list_find_region_takes_first_fit() {
    let mut a = LinkedListAllocator::new();
    a.add_free_region(0x2000, 0x40);
    a.add_free_region(0x1000, 0x20);
    // Newest first: 0x1000 is too small for 0x30, 0x2000 fits.
    let (node, start) = a.find_region(0x30, 8).unwrap();
    assert_eq!(node.addr, 0x2000);
    assert_eq!(node.size, 0x40);
    assert_eq!(start, 0x2000);
    assert!(a.find_region(0x30, 8).is_none());
    let (node, _) = a.find_region(0x20, 8).unwrap();
    assert_eq!(node.addr, 0x1000);
}

#[test]
fn linked_list_oversized_request_is_null() {
    let mut a = LinkedListAllocator::new();
    a.init(0x10000, 0x400);
    assert_eq!(a.allocate(layout(0x800, 8)), 0);
    // Nothing was taken.
    assert_eq!(a.allocate(layout(0x400, 8)), 0x10000);
    assert_eq!(a.allocate(layout(8, 8)), 0);
}

#[test]
fn linked_list_aligned_request() {
    let mut a = LinkedListAllocator::new();
    a.init(0x10008, 0x1000);
    let p = a.allocate(layout(16, 64));
    assert_eq!(p, 0x10040);
    assert_eq!(p % 64, 0);
}

#[test]
fn bump_allocates_in_order_and_resets() {
    let mut b = BumpAllocator::new();
    b.init(0x1000, 0x100);
    let p = b.allocate(layout(16, 8));
    let q = b.allocate(layout(8, 32));
    assert_eq!(p, 0x1000);
    assert_eq!(q, 0x1020);
    assert_eq!(b.allocate(layout(0x100, 8)), 0);
    b.deallocate();
    // One block still out: no reset yet.
    assert_eq!(b.allocate(layout(8, 8)), 0x1028);
    b.deallocate();
    b.deallocate();
    // All blocks back: the heap starts over.
    assert_eq!(b.allocate(layout(8, 8)), 0x1000);
}

#[test]
fn bump_init_saturates() {
    let mut b = BumpAllocator::new();
    b.init(usize::MAX - 16, 64);
    assert_eq!(b.allocate(layout(16, 1)), usize::MAX - 16);
}

#[test]
fn block_sizes_and_classes() {
    let sizes: Vec<usize> = (0..9).map(block_size).collect();
    assert_eq!(sizes, vec![8, 16, 32, 64, 128, 256, 512, 1024, 2048]);
    assert_eq!(list_index(&layout(1, 1)), Some(0));
    assert_eq!(list_index(&layout(8, 8)), Some(0));
    assert_eq!(list_index(&layout(9, 1)), Some(1));
    assert_eq!(list_index(&layout(4, 64)), Some(3));
    assert_eq!(list_index(&layout(2048, 8)), Some(8));
    assert_eq!(list_index(&layout(2049, 8)), None);
    assert_eq!(list_index(&layout(8, 4096)), None);
}

#[test]
fn fixed_size_block_recycles_per_class() {
    let mut a = FixedSizeBlockAllocator::new();
    a.init(0x4444_0000, 100 * 1024);
    let p = a.allocate(layout(24, 8));
    assert_ne!(p, 0);
    a.deallocate(p, layout(24, 8));
    // Same class: the block comes back from the list.
    assert_eq!(a.allocate(layout(32, 8)), p);
    // Another class gets a fresh block.
    let q = a.allocate(layout(16, 8));
    assert_ne!(q, p);
}

#[test]
fn fixed_size_block_large_goes_to_fallback() {
    let mut a = FixedSizeBlockAllocator::new();
    a.init(0x4444_0000, 100 * 1024);
    let big = a.allocate(layout(4096, 8));
    assert_eq!(big, 0x4444_0000);
    a.deallocate(big, layout(4096, 8));
    assert_eq!(a.allocate(layout(4096, 8)), big);
}

#[test]
fn fixed_size_block_oversized_is_null() {
    let mut a = FixedSizeBlockAllocator::new();
    a.init(0x4444_0000, 1024);
    assert_eq!(a.allocate(layout(4096, 8)), 0);
    assert_eq!(a.allocate(layout(2048, 8)), 0);
}

#[test]
fn allocator_churn_recycles_blocks() {
    let mut a = FixedSizeBlockAllocator::new();
    let heap_start = 0x4444_4444_0000usize;
    let heap_size = 1024 * 1024;
    a.init(heap_start, heap_size);
    let sizes: Vec<usize> = (0..1024).map(|i| 8usize << (i % 9)).collect();
    let first: Vec<usize> = sizes.iter().map(|&s| a.allocate(layout(s, 8))).collect();
    assert!(first.iter().all(|&p| p != 0));
    for (&p, &s) in first.iter().zip(sizes.iter()).rev() {
        a.deallocate(p, layout(s, 8));
    }
    let second: Vec<usize> = sizes.iter().map(|&s| a.allocate(layout(s, 8))).collect();
    assert_eq!(first, second);
    let mut live: Vec<(usize, usize)> = first.iter().zip(sizes.iter()).map(|(p, s)| (*p, *s)).collect();
    live.sort();
    for w in live.windows(2) {
        assert!(w[0].0 + w[0].1 <= w[1].0);
    }
    for &(p, s) in &live {
        assert!(p >= heap_start && p + s <= heap_start + heap_size);
    }
}

#[test]
fn layout_accepts_largest_alignment_for_empty_size() {
    let top = 1usize << 63;
    assert!(Layout::from_size_align(0, top).is_some());
    assert!(Layout::from_size_align(1, top).is_none());
    assert!(Layout::from_size_align(isize::MAX as usize, 1).is_some());
}

#[test]
fn free_list_stays_aligned_and_disjoint() {
    let mut a = LinkedListAllocator::new();
    a.init(0x10000, 0x4000);
    let sizes = [24usize, 100, 8, 300, 64, 17, 512, 40];
    let blocks: Vec<(usize, usize)> = sizes.iter().map(|&s| (a.allocate(layout(s, 8)), s)).collect();
    for (i, &(p, s)) in blocks.iter().enumerate() {
        assert_ne!(p, 0);
        if i % 2 == 0 {
            a.deallocate(p, layout(s, 8));
        }
    }
    let _ = a.allocate(layout(48, 16));
    let mut regions = a.free_regions();
    assert!(regions.len() >= 2);
    for r in &regions {
        assert_eq!(r.addr % 8, 0);
        assert!(r.size >= 16);
    }
    regions.sort_by_key(|r| r.addr);
    for w in regions.windows(2) {
        assert!(w[0].addr + w[0].size <= w[1].addr);
    }
}
