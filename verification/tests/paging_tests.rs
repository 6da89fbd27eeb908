use andromeda_os::frames::{BootInfoFrameAllocator, MemoryRegion, MemoryRegionKind};
use andromeda_os::paging::plan_heap_mappings;
use andromeda_os::{MapError, HEAP_SIZE, HEAP_START};

fn usable(start: u64, end: u64) -> MemoryRegion {
    MemoryRegion { start, end, kind: MemoryRegionKind::Usable }
}

#[test]
fn plan_covers_every_heap_page() {
    let map = vec![usable(0x10_0000, 0x10_0000 + 32 * 4096)];
    let mut fa = BootInfoFrameAllocator::init(map);
    let plan = plan_heap_mappings(&mut fa, HEAP_START, 8 * 4096).unwrap();
    assert_eq!(plan.len(), 8);
    for (i, m) in plan.iter().enumerate() {
        assert_eq!(m.page, HEAP_START + 4096 * i as u64);
        assert_eq!(m.frame, 0x10_0000 + 4096 * i as u64);
        assert_eq!(m.frame % 4096, 0);
    }
}

#[test]
fn plan_rounds_partial_pages_up() {
    let map = vec![usable(0x10_0000, 0x10_0000 + 32 * 4096)];
    let mut fa = BootInfoFrameAllocator::init(map);
    // 4097 bytes straddle two pages.
    let plan = plan_heap_mappings(&mut fa, HEAP_START, 4097).unwrap();
    assert_eq!(plan.len(), 2);
    let mut fa2 = BootInfoFrameAllocator::init(vec![usable(0x10_0000, 0x10_0000 + 32 * 4096)]);
    // A whole number of pages maps exactly.
    let plan2 = plan_heap_mappings(&mut fa2, HEAP_START, 4096).unwrap();
    assert_eq!(plan2.len(), 1);
}

#[test]
fn plan_frames_are_distinct() {
    let map = vec![usable(0x1000, 0x5000), usable(0x8000, 0x2_0000)];
    let mut fa = BootInfoFrameAllocator::init(map);
    let plan = plan_heap_mappings(&mut fa, HEAP_START, 10 * 4096).unwrap();
    assert_eq!(plan.len(), 10);
    for i in 0..plan.len() {
        for j in (i + 1)..plan.len() {
            assert_ne!(plan[i].frame, plan[j].frame);
        }
    }
}

#[test]
fn plan_fails_on_frame_exhaustion() {
    // One usable frame cannot back a two-page heap; setup reports the
    // failure and boot would abort on it.
    let map = vec![usable(0x1000, 0x2000)];
    let mut fa = BootInfoFrameAllocator::init(map);
    assert_eq!(
        plan_heap_mappings(&mut fa, HEAP_START, 2 * 4096),
        Err(MapError::FrameAllocationFailed)
    );
}

#[test]
fn plan_for_default_heap_window() {
    // The default 100 KiB window takes 25 pages.
    let map = vec![usable(0x10_0000, 0x10_0000 + 64 * 4096)];
    let mut fa = BootInfoFrameAllocator::init(map);
    let plan = plan_heap_mappings(&mut fa, HEAP_START, HEAP_SIZE).unwrap();
    assert_eq!(plan.len(), 25);
}
