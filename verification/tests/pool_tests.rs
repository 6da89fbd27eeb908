use andromeda_os::pool::{list_index, PoolAllocator};
use andromeda_os::AllocError;

#[test]
fn list_index_picks_smallest_class() {
    assert_eq!(list_index(1, 1), Some(0));
    assert_eq!(list_index(8, 1), Some(0));
    assert_eq!(list_index(9, 1), Some(1));
    assert_eq!(list_index(16, 16), Some(1));
    assert_eq!(list_index(100, 1), Some(4));
    assert_eq!(list_index(2048, 1), Some(8));
}

#[test]
fn list_index_uses_alignment_too() {
    // The required block size is the larger of size and alignment.
    assert_eq!(list_index(1, 16), Some(1));
    assert_eq!(list_index(8, 64), Some(3));
    assert_eq!(list_index(2048, 2048), Some(8));
}

#[test]
fn list_index_rejects_oversized() {
    assert_eq!(list_index(2049, 1), None);
    assert_eq!(list_index(4096, 1), None);
    assert_eq!(list_index(1, 4096), None);
}

#[test]
fn pool_starts_empty() {
    let p = PoolAllocator::new();
    assert_eq!(p.list_heads.len(), 9);
    for l in &p.list_heads {
        assert!(l.is_empty());
    }
    assert_eq!(p.fallback_allocator.used, 0);
}

#[test]
fn scenario_pool_churn_uses_constant_memory() {
    // Allocate-then-free 2000 8-byte objects in a loop: after the first
    // iteration seeds the class with one block, the free list absorbs
    // all further churn and memory usage stays constant.
    let mut p = PoolAllocator::new();
    p.init(0x10000, 100 * 1024);
    let a = p.allocate(8, 8).unwrap();
    p.deallocate(a, 8, 8);
    let used_after_seed = p.fallback_allocator.used;
    assert_eq!(used_after_seed, 8);
    for _ in 0..1999 {
        let b = p.allocate(8, 8).unwrap();
        assert_eq!(b, a);
        p.deallocate(b, 8, 8);
    }
    assert_eq!(p.fallback_allocator.used, used_after_seed);
}

#[test]
fn scenario_pool_oversized_goes_to_fallback() {
    // A 4096-byte request exceeds the largest class (2048 bytes) and is
    // serviced by the fallback allocator, not any size-class list.
    let mut p = PoolAllocator::new();
    p.init(0x10000, 100 * 1024);
    let a = p.allocate(4096, 8).unwrap();
    assert_eq!(a % 8, 0);
    for l in &p.list_heads {
        assert!(l.is_empty());
    }
    assert_eq!(p.fallback_allocator.used, 4096);
    p.deallocate(a, 4096, 8);
    assert_eq!(p.fallback_allocator.used, 0);
}

#[test]
fn pool_reuse_is_lifo() {
    // deallocate(allocate(s, a)) followed by allocate(s, a) again
    // returns the same address when no same-class allocation intervened.
    let mut p = PoolAllocator::new();
    p.init(0x10000, 100 * 1024);
    let a1 = p.allocate(24, 8).unwrap();
    let a2 = p.allocate(24, 8).unwrap();
    assert_ne!(a1, a2);
    p.deallocate(a1, 24, 8);
    p.deallocate(a2, 24, 8);
    // Freed last, reused first.
    assert_eq!(p.allocate(24, 8), Ok(a2));
    assert_eq!(p.allocate(24, 8), Ok(a1));
}

#[test]
fn pool_alignment_and_capacity() {
    // Every address is aligned to at least the requested alignment and
    // backed by at least the requested size: a 20-byte request at
    // alignment 4 comes from the 32-byte class, aligned to 32.
    let mut p = PoolAllocator::new();
    p.init(0x10000, 100 * 1024);
    let a = p.allocate(20, 4).unwrap();
    assert_eq!(a % 32, 0);
    let b = p.allocate(100, 64).unwrap();
    assert_eq!(b % 128, 0);
}

#[test]
fn pool_exhaustion_fails_cleanly() {
    let mut p = PoolAllocator::new();
    p.init(0x10000, 4096);
    assert_eq!(p.allocate(5 * 1024, 1), Err(AllocError::AllocationFailure));
    assert_eq!(p.fallback_allocator.used, 0);
    // Fill the whole region through the fallback, then fail.
    let a = p.allocate(4096, 1).unwrap();
    assert_eq!(p.allocate(2048, 1), Err(AllocError::AllocationFailure));
    p.deallocate(a, 4096, 1);
    assert_eq!(p.fallback_allocator.used, 0);
}

#[test]
fn pool_classes_fill_lazily() {
    let mut p = PoolAllocator::new();
    p.init(0x10000, 100 * 1024);
    let a = p.allocate(8, 8).unwrap();
    // The seeded block went to the caller, not onto a list.
    for l in &p.list_heads {
        assert!(l.is_empty());
    }
    p.deallocate(a, 8, 8);
    assert_eq!(p.list_heads[0].len(), 1);
    assert_eq!(p.list_heads[0][0], a);
}
