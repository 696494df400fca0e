use mycelium::bump::Alloc;

// The heap is 16-aligned, as the one the allocator was written for.
const HEAP_BASE: usize = 0x10_0000;

#[test]
fn alloc_small() {
    let mut alloc: Alloc<1024> = Alloc::new(HEAP_BASE);
    let p0 = alloc.alloc_bytes(4, 4);
    assert!(p0 != 0);

    let p1 = alloc.alloc_bytes(4, 4);
    assert!(p1 != 0);

    assert_eq!(p0 % 4, 0);
    assert_eq!(p1 % 4, 0);

    assert_eq!(p0 - p1, 4);
}

#[test]
fn alloc_alignment() {
    let mut alloc: Alloc<1024> = Alloc::new(HEAP_BASE);
    let p0 = alloc.alloc_bytes(1, 1);
    assert!(p0 != 0);

    let p1 = alloc.alloc_bytes(1, 1);
    assert!(p1 != 0);

    let p2 = alloc.alloc_bytes(4, 4);
    assert!(p2 != 0);

    assert_eq!(p0 - p1, 1);
    assert!(p1 - p2 > 0);

    assert_eq!(p2 % 4, 0);
}

#[test]
fn allocations_come_from_the_top_of_the_heap() {
    let mut alloc: Alloc<64> = Alloc::new(HEAP_BASE);
    assert_eq!(alloc.total_size(), 64);
    assert_eq!(alloc.allocated_size(), 0);
    assert_eq!(alloc.alloc_bytes(8, 8), HEAP_BASE + 56);
    assert_eq!(alloc.allocated_size(), 8);
    // 3 bytes aligned to 16 land at the next 16-byte boundary below
    assert_eq!(alloc.alloc_bytes(3, 16), HEAP_BASE + 48);
    assert_eq!(alloc.allocated_size(), 16);
    assert!(alloc.owns(HEAP_BASE + 63));
    assert!(!alloc.owns(HEAP_BASE + 64));
}

#[test]
fn exhausted_heap_gives_null() {
    let mut alloc: Alloc<32> = Alloc::new(HEAP_BASE);
    assert_eq!(alloc.alloc_bytes(32, 1), HEAP_BASE);
    assert_eq!(alloc.alloc_bytes(1, 1), 0);
    assert_eq!(alloc.allocated_size(), 32);
    // freeing changes nothing
    alloc.dealloc_bytes(HEAP_BASE, 32, 1);
    assert_eq!(alloc.alloc_bytes(1, 1), 0);
}

#[test]
fn alignment_that_would_leave_the_heap_gives_null() {
    // a heap that does not start on a 64-byte boundary
    let mut alloc: Alloc<32> = Alloc::new(HEAP_BASE + 16);
    assert_eq!(alloc.alloc_bytes(8, 64), 0);
    assert_eq!(alloc.allocated_size(), 0);
    assert_eq!(alloc.alloc_bytes(8, 16), HEAP_BASE + 32);
}
