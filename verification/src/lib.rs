//! Memory-management core of a small operating-system kernel.
//!
//! The crate turns a boot-time physical memory map and a planned set of
//! page mappings into a general-purpose heap allocator with two
//! interchangeable strategies: a bump allocator and a size-class pool
//! allocator backed by a first-fit fallback allocator.  All addresses are
//! handled as plain integers; the hardware side (page-table writes, the
//! global allocator hook, the lock around the strategy) lives outside the
//! verified core.

use vstd::prelude::*;

pub mod align;
pub mod bump;
pub mod fallback;
pub mod frames;
pub mod interrupts;
pub mod paging;
pub mod pool;
pub mod vga;

verus! {

/// Start of the virtual window that backs the kernel heap.
///
/// Addresses are held as `u64` throughout the crate: the kernel targets a
/// 64-bit architecture, and physical and virtual addresses are 64 bits
/// wide there.
pub const HEAP_START: u64 = 0x4444_4444_0000;

/// Size of the kernel heap in bytes (100 KiB).
pub const HEAP_SIZE: u64 = 100 * 1024;

/// Failure of a single allocation request.  Arithmetic overflow while
/// computing an aligned end address is reported the same way as an
/// exhausted or fragmented heap: the request cannot be satisfied.
#[derive(Clone, Copy, Debug, PartialEq, Eq, Structural)]
pub enum AllocError {
    AllocationFailure,
}

/// Failure while setting up the heap region at boot.
#[derive(Clone, Copy, Debug, PartialEq, Eq, Structural)]
pub enum MapError {
    /// The physical frame source ran out of usable frames.
    FrameAllocationFailed,
}

} // verus!
