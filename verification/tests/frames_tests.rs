use andromeda_os::frames::{
    regions_well_formed, BootInfoFrameAllocator, EmptyFrameAllocator, MemoryRegion,
    MemoryRegionKind,
};

fn usable(start: u64, end: u64) -> MemoryRegion {
    MemoryRegion { start, end, kind: MemoryRegionKind::Usable }
}

fn reserved(start: u64, end: u64) -> MemoryRegion {
    MemoryRegion { start, end, kind: MemoryRegionKind::Reserved }
}

#[test]
fn empty_frame_allocator_never_yields() {
    let mut fa = EmptyFrameAllocator;
    assert_eq!(fa.allocate_frame(), None);
    assert_eq!(fa.allocate_frame(), None);
}

#[test]
fn frames_come_from_usable_regions_in_order() {
    let map = vec![usable(0x1000, 0x3000), reserved(0x3000, 0x5000), usable(0x5000, 0x6000)];
    assert!(regions_well_formed(&map));
    let mut fa = BootInfoFrameAllocator::init(map);
    assert_eq!(fa.allocate_frame(), Some(0x1000));
    assert_eq!(fa.allocate_frame(), Some(0x2000));
    assert_eq!(fa.allocate_frame(), Some(0x5000));
    assert_eq!(fa.allocate_frame(), None);
}

#[test]
fn frames_are_never_repeated() {
    // No two successful allocations denote the same physical frame.
    let map = vec![usable(0x1000, 0x4000), usable(0x8000, 0xa000)];
    let mut fa = BootInfoFrameAllocator::init(map);
    let mut seen = Vec::new();
    while let Some(f) = fa.allocate_frame() {
        assert!(!seen.contains(&f));
        seen.push(f);
    }
    assert_eq!(seen.len(), 5);
}

#[test]
fn cursor_advances_even_after_exhaustion() {
    let map = vec![usable(0x1000, 0x2000)];
    let mut fa = BootInfoFrameAllocator::init(map);
    assert_eq!(fa.allocate_frame(), Some(0x1000));
    assert_eq!(fa.next_frame, 1);
    assert_eq!(fa.allocate_frame(), None);
    assert_eq!(fa.next_frame, 2);
    assert_eq!(fa.allocate_frame(), None);
    assert_eq!(fa.next_frame, 3);
}

#[test]
fn reserved_only_map_yields_nothing() {
    let map = vec![reserved(0x1000, 0x8000)];
    let mut fa = BootInfoFrameAllocator::init(map);
    assert_eq!(fa.allocate_frame(), None);
}

#[test]
fn well_formedness_check_accepts_ordered_aligned_map() {
    assert!(regions_well_formed(&vec![]));
    assert!(regions_well_formed(&vec![usable(0x1000, 0x2000), usable(0x2000, 0x3000)]));
}

#[test]
fn well_formedness_check_rejects_bad_maps() {
    // Overlapping regions.
    assert!(!regions_well_formed(&vec![usable(0x1000, 0x3000), usable(0x2000, 0x4000)]));
    // Out of order.
    assert!(!regions_well_formed(&vec![usable(0x3000, 0x4000), usable(0x1000, 0x2000)]));
    // Not frame-aligned.
    assert!(!regions_well_formed(&vec![usable(0x1080, 0x2000)]));
    assert!(!regions_well_formed(&vec![usable(0x1000, 0x2080)]));
    // Backwards range.
    assert!(!regions_well_formed(&vec![usable(0x3000, 0x1000)]));
}
