use andromeda_os::fallback::FallbackAllocator;
use andromeda_os::AllocError;

#[test]
fn fallback_hands_out_the_region_front_first() {
    let mut f = FallbackAllocator::new();
    f.init(0x1000, 1024);
    assert_eq!(f.allocate_first_fit(100, 1), Ok(0x1000));
    assert_eq!(f.allocate_first_fit(100, 1), Ok(0x1064));
    assert_eq!(f.used, 200);
}

#[test]
fn fallback_first_fit_reuses_freed_space() {
    let mut f = FallbackAllocator::new();
    f.init(0x1000, 1024);
    let a = f.allocate_first_fit(128, 1).unwrap();
    let b = f.allocate_first_fit(128, 1).unwrap();
    let _c = f.allocate_first_fit(128, 1).unwrap();
    f.deallocate(a, 128);
    f.deallocate(b, 128);
    // The freed front hole is the first fit again.
    assert_eq!(f.allocate_first_fit(64, 1), Ok(a));
    // Too big for what is left of that hole plus the next free byte run.
    assert_eq!(f.allocate_first_fit(512, 1), Ok(0x1000 + 3 * 128));
}

#[test]
fn fallback_merges_adjacent_holes() {
    let mut f = FallbackAllocator::new();
    f.init(0x1000, 512);
    let a = f.allocate_first_fit(512, 1).unwrap();
    assert_eq!(f.allocate_first_fit(1, 1), Err(AllocError::AllocationFailure));
    // Free in two halves, in either order; the holes merge back into
    // one region that can hold the full request again.
    f.deallocate(a + 256, 256);
    f.deallocate(a, 256);
    assert_eq!(f.used, 0);
    assert_eq!(f.allocate_first_fit(512, 1), Ok(a));
}

#[test]
fn fallback_respects_alignment() {
    let mut f = FallbackAllocator::new();
    f.init(0x1008, 4096);
    let a = f.allocate_first_fit(16, 64).unwrap();
    assert_eq!(a % 64, 0);
    assert!(a >= 0x1008);
    // The skipped padding in front of the aligned block stays free.
    assert_eq!(f.allocate_first_fit(8, 8), Ok(0x1008));
}

#[test]
fn fallback_failure_leaves_state_untouched() {
    let mut f = FallbackAllocator::new();
    f.init(0x1000, 256);
    let a = f.allocate_first_fit(200, 1).unwrap();
    let used = f.used;
    assert_eq!(f.allocate_first_fit(100, 1), Err(AllocError::AllocationFailure));
    assert_eq!(f.used, used);
    f.deallocate(a, 200);
    assert_eq!(f.allocate_first_fit(256, 1), Ok(0x1000));
}
