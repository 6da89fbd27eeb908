use andromeda_os::bump::BumpAllocator;
use andromeda_os::AllocError;
use andromeda_os::{HEAP_SIZE, HEAP_START};

#[test]
fn bump_starts_empty() {
    let b = BumpAllocator::new();
    assert_eq!(b.heap_start, 0);
    assert_eq!(b.heap_end, 0);
    assert_eq!(b.next, 0);
    assert_eq!(b.allocations, 0);
}

#[test]
fn bump_init_sets_bounds() {
    let mut b = BumpAllocator::new();
    b.init(HEAP_START, HEAP_SIZE);
    assert_eq!(b.heap_start, HEAP_START);
    assert_eq!(b.heap_end, HEAP_START + HEAP_SIZE);
    assert_eq!(b.next, HEAP_START);
}

#[test]
fn scenario_bump_sequential_allocations() {
    // 100 KiB bump heap; an 8-byte, another 8-byte, and an 8000-byte
    // allocation succeed as distinct, non-overlapping ranges.
    let mut b = BumpAllocator::new();
    b.init(HEAP_START, 100 * 1024);
    let a1 = b.allocate(8, 8).unwrap();
    let a2 = b.allocate(8, 8).unwrap();
    let a3 = b.allocate(8000, 8).unwrap();
    assert_eq!(a1, HEAP_START);
    assert!(a1 + 8 <= a2);
    assert!(a2 + 8 <= a3);
    assert!(a3 + 8000 <= HEAP_START + 100 * 1024);
}

#[test]
fn scenario_bump_oversized_request_fails_cleanly() {
    // 4 KiB bump heap; a 5 KiB request fails with AllocationFailure and
    // leaves no partial or corrupt state behind.
    let mut b = BumpAllocator::new();
    b.init(0x1000, 4096);
    assert_eq!(b.allocate(5 * 1024, 1), Err(AllocError::AllocationFailure));
    assert_eq!(b.next, 0x1000);
    assert_eq!(b.allocations, 0);
    // The heap still services requests that fit.
    assert_eq!(b.allocate(8, 1), Ok(0x1000));
}

#[test]
fn bump_addresses_non_decreasing() {
    // With no intervening free, returned addresses are non-decreasing
    // and lie within the heap.
    let mut b = BumpAllocator::new();
    b.init(0x1000, 65536);
    let mut last = 0u64;
    for size in [1u64, 7, 64, 100, 3, 512] {
        let a = b.allocate(size, 4).unwrap();
        assert!(a >= last);
        assert!(a >= 0x1000 && a + size <= 0x1000 + 65536);
        last = a + size;
    }
}

#[test]
fn bump_alignment_respected() {
    let mut b = BumpAllocator::new();
    b.init(0x1000, 65536);
    b.allocate(3, 1).unwrap();
    let a = b.allocate(10, 64).unwrap();
    assert_eq!(a % 64, 0);
}

#[test]
fn bump_nth_free_resets_cursor() {
    // Three allocations followed by three frees: the last free resets
    // the cursor, and the next allocation returns heap_start again.
    let mut b = BumpAllocator::new();
    b.init(0x2000, 4096);
    let a1 = b.allocate(16, 8).unwrap();
    b.allocate(32, 8).unwrap();
    b.allocate(64, 8).unwrap();
    b.deallocate(a1, 16, 8);
    assert_ne!(b.next, b.heap_start);
    b.deallocate(0, 32, 8);
    assert_ne!(b.next, b.heap_start);
    b.deallocate(0, 64, 8);
    assert_eq!(b.next, b.heap_start);
    assert_eq!(b.allocate(8, 8), Ok(0x2000));
}

#[test]
fn bump_exhaustion_keeps_state() {
    // Once outstanding allocation exceeds capacity the next allocate
    // fails, and the allocator keeps working afterwards.
    let mut b = BumpAllocator::new();
    b.init(0x1000, 64);
    let a1 = b.allocate(48, 1).unwrap();
    assert_eq!(b.allocate(32, 1), Err(AllocError::AllocationFailure));
    assert_eq!(b.allocate(16, 1), Ok(a1 + 48));
    b.deallocate(a1, 48, 1);
    b.deallocate(a1 + 48, 16, 1);
    assert_eq!(b.allocate(64, 1), Ok(0x1000));
}
