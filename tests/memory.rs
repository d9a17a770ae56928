use marcel_os::memory::{
    heap_mappings, memcmp, memcpy, memmove, memset, BootInfoFrameAllocator, EmptyFrameAllocator,
    HeapInitError, MemoryRegion, MemoryRegionType, PRESENT, WRITABLE,
};

fn region(start: u64, end: u64, usable: bool) -> MemoryRegion {
    MemoryRegion {
        start,
        end,
        region_type: if usable { MemoryRegionType::Usable } else { MemoryRegionType::Reserved },
    }
}

#[test]
fn frames_come_from_usable_regions_in_order() {
    let map = vec![
        region(0x0, 0x1000, false),
        region(0x1000, 0x3000, true),
        region(0x3000, 0x8000, false),
        region(0x8000, 0x9800, true),
    ];
    let mut fa = BootInfoFrameAllocator::init(map);
    assert_eq!(fa.allocate_frame(), Some(0x1000));
    assert_eq!(fa.allocate_frame(), Some(0x2000));
    assert_eq!(fa.allocate_frame(), Some(0x8000));
    assert_eq!(fa.allocate_frame(), Some(0x9000));
    assert_eq!(fa.allocate_frame(), None);
    assert_eq!(fa.allocate_frame(), None);
}

#[test]
fn empty_frame_allocator_has_none() {
    assert_eq!(EmptyFrameAllocator.allocate_frame(), None);
}

#[test]
fn heap_mappings_cover_heap_with_distinct_frames() {
    let map = vec![region(0x100000, 0x200000, true)];
    let mut fa = BootInfoFrameAllocator::init(map);
    let first = fa.allocate_frame().unwrap();
    assert_eq!(first, 0x100000);
    let v = heap_mappings(&mut fa).unwrap();
    assert_eq!(v.len(), 25);
    for (k, m) in v.iter().enumerate() {
        assert_eq!(m.page, 0x4444_4444_0000 + 4096 * k as u64);
        assert_eq!(m.frame, 0x101000 + 4096 * k as u64);
        assert_eq!(m.flags, PRESENT | WRITABLE);
    }
    assert_eq!(fa.allocate_frame(), Some(0x101000 + 25 * 4096));
}

#[test]
fn heap_mappings_fail_when_frames_run_out() {
    let map = vec![region(0x100000, 0x100000 + 10 * 4096, true)];
    let mut fa = BootInfoFrameAllocator::init(map);
    assert_eq!(heap_mappings(&mut fa), Err(HeapInitError::FrameAllocationFailed));
}

#[test]
fn memset_fills() {
    let mut buf = [1u8; 6];
    memset(&mut buf[1..4], 9);
    assert_eq!(buf, [1, 9, 9, 9, 1, 1]);
}

#[test]
fn memcpy_copies_prefix() {
    let mut dest = [0u8; 5];
    memcpy(&mut dest, &[1, 2, 3]);
    assert_eq!(dest, [1, 2, 3, 0, 0]);
}

#[test]
fn memcmp_orders_by_first_difference() {
    assert_eq!(memcmp(&[1, 2, 3], &[1, 2, 3], 3), 0);
    assert_eq!(memcmp(&[1, 5, 3], &[1, 2, 9], 3), 3);
    assert_eq!(memcmp(&[1, 2, 3], &[1, 2, 9], 3), -6);
    assert_eq!(memcmp(&[1, 2, 3], &[1, 2, 9], 2), 0);
}

#[test]
fn memmove_forward_overlap() {
    let mut buf = [1u8, 2, 3, 4, 5, 6];
    memmove(&mut buf, 0, 2, 4);
    assert_eq!(buf, [3, 4, 5, 6, 5, 6]);
}

#[test]
fn memmove_backward_overlap() {
    let mut buf = [1u8, 2, 3, 4, 5, 6];
    memmove(&mut buf, 2, 0, 4);
    assert_eq!(buf, [1, 2, 1, 2, 3, 4]);
}
