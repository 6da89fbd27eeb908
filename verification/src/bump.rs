//! Bump allocation strategy: a sequential cursor over the heap region.
//!
//! Allocation rounds the cursor up to the requested alignment and advances
//! it past the new block; the only reclamation is whole-region reclaim,
//! which happens when the outstanding-allocation count returns to zero.
//! Under staggered lifetimes a single long-lived allocation therefore
//! blocks reclamation of the whole region until it too is freed; this
//! trade-off is intentional and is kept as is.

use vstd::prelude::*;

use crate::align::{align_up_checked, lemma_align_up, spec_align_up};
use crate::AllocError;

verus! {

/// State of the bump strategy.  `next` is the cursor: every address below
/// it (within the heap) has been handed out since the last reset.
pub struct BumpAllocator {
    pub heap_start: u64,
    pub heap_end: u64,
    pub next: u64,
    pub allocations: u64,
}

impl BumpAllocator {
    /// The cursor stays within the heap bounds.
    pub open spec fn wf(self) -> bool {
        self.heap_start <= self.next <= self.heap_end
    }

    /// The allocator has been given its heap bounds.
    pub open spec fn is_initialized(self) -> bool {
        self.heap_end != 0
    }

    /// Where a request with this alignment would start.
    pub open spec fn spec_alloc_start(self, align: int) -> int {
        spec_align_up(self.next as int, align)
    }

    /// The request fits between the aligned cursor and the heap end.
    pub open spec fn spec_alloc_fits(self, size: int, align: int) -> bool {
        self.spec_alloc_start(align) + size <= self.heap_end
    }

    /// The state after one deallocation: the count drops, and reaching
    /// zero resets the cursor to the start of the heap.
    pub open spec fn spec_dealloc(self) -> BumpAllocator
        recommends
            self.allocations >= 1,
    {
        let n = (self.allocations - 1) as u64;
        BumpAllocator {
            next: if n == 0 {
                self.heap_start
            } else {
                self.next
            },
            allocations: n,
            ..self
        }
    }

    /// Creates a new, uninitialized bump allocator.
    pub fn new() -> (r: BumpAllocator)
        ensures
            r.heap_start == 0,
            r.heap_end == 0,
            r.next == 0,
            r.allocations == 0,
            r.wf(),
            !r.is_initialized(),
    {
        BumpAllocator { heap_start: 0, heap_end: 0, next: 0, allocations: 0 }
    }

    /// Initializes the allocator with the given heap bounds.  The region
    /// must be unused, and initialization happens exactly once: a second
    /// call is a contract violation, excluded by `!is_initialized()`.
    pub fn init(&mut self, heap_start: u64, heap_size: u64)
        requires
            !old(self).is_initialized(),
            heap_size >= 1,
            heap_start + heap_size <= u64::MAX,
        ensures
            final(self).heap_start == heap_start,
            final(self).heap_end == heap_start + heap_size,
            final(self).next == heap_start,
            final(self).allocations == old(self).allocations,
            final(self).wf(),
            final(self).is_initialized(),
    {
        self.heap_start = heap_start;
        self.heap_end = heap_start + heap_size;
        self.next = heap_start;
    }

    /// Allocates `size` bytes aligned to `align`.
    ///
    /// Succeeds exactly when the request fits between the aligned cursor
    /// and the heap end; an arithmetic overflow while computing the
    /// aligned end address fails the same way.  On failure the state is
    /// untouched.
    pub fn allocate(&mut self, size: u64, align: u64) -> (r: Result<u64, AllocError>)
        requires
            old(self).wf(),
            align >= 1,
            old(self).allocations < u64::MAX,
        ensures
            final(self).heap_start == old(self).heap_start,
            final(self).heap_end == old(self).heap_end,
            final(self).wf(),
            match r {
                Ok(addr) => {
                    &&& old(self).spec_alloc_fits(size as int, align as int)
                    &&& addr == old(self).spec_alloc_start(align as int)
                    &&& addr % align == 0
                    &&& old(self).heap_start <= old(self).next <= addr
                    &&& addr + size <= final(self).heap_end
                    &&& final(self).next == addr + size
                    &&& final(self).allocations == old(self).allocations + 1
                },
                Err(e) => {
                    &&& e == AllocError::AllocationFailure
                    &&& !old(self).spec_alloc_fits(size as int, align as int)
                    &&& *final(self) == *old(self)
                },
            },
    {
        proof {
            lemma_align_up(self.next as int, align as int);
        }
        let alloc_start = match align_up_checked(self.next, align) {
            Some(start) => start,
            None => {
                return Err(AllocError::AllocationFailure);
            },
        };
        if alloc_start > self.heap_end || size > self.heap_end - alloc_start {
            return Err(AllocError::AllocationFailure);
        }
        self.next = alloc_start + size;
        self.allocations = self.allocations + 1;
        Ok(alloc_start)
    }

    /// Releases one allocation.  When the outstanding count reaches zero
    /// the whole region is reclaimed at once by resetting the cursor; the
    /// address, size and alignment of the freed block play no role.
    pub fn deallocate(&mut self, _addr: u64, _size: u64, _align: u64)
        requires
            old(self).wf(),
            old(self).allocations >= 1,
        ensures
            *final(self) == old(self).spec_dealloc(),
            final(self).wf(),
    {
        self.allocations = self.allocations - 1;
        if self.allocations == 0 {
            self.next = self.heap_start;
        }
    }
}

/// The state after `n` deallocations in a row.
pub open spec fn spec_dealloc_n(s: BumpAllocator, n: nat) -> BumpAllocator
    decreases n,
{
    if n == 0 {
        s
    } else {
        spec_dealloc_n(s, (n - 1) as nat).spec_dealloc()
    }
}

/// With no intervening free, bump allocations return non-decreasing,
/// non-overlapping addresses that lie within the heap: after a first
/// allocation of `size1` bytes, the cursor stands at its end, and any
/// later allocation starts at or beyond it.
pub proof fn lemma_bump_monotonic(s: BumpAllocator, size1: int, align1: int, align2: int)
    requires
        s.wf(),
        align1 >= 1,
        align2 >= 1,
        size1 >= 0,
        s.spec_alloc_fits(size1, align1),
    ensures
        ({
            let a1 = s.spec_alloc_start(align1);
            let next1 = a1 + size1;
            &&& s.heap_start <= s.next <= a1
            &&& a1 + size1 <= s.heap_end
            &&& next1 <= spec_align_up(next1, align2)
        }),
{
    lemma_align_up(s.next as int, align1);
    lemma_align_up(s.spec_alloc_start(align1) + size1, align2);
}

/// Freeing every outstanding allocation resets the cursor to the start
/// of the heap, whatever the order of the frees; the next allocation
/// therefore begins at `heap_start`, rounded up to its alignment only.
pub proof fn lemma_bump_full_reclaim(s: BumpAllocator, n: nat)
    requires
        s.wf(),
        n == s.allocations,
        n >= 1,
    ensures
        spec_dealloc_n(s, n).allocations == 0,
        spec_dealloc_n(s, n).next == s.heap_start,
        spec_dealloc_n(s, n).heap_start == s.heap_start,
        spec_dealloc_n(s, n).heap_end == s.heap_end,
        spec_dealloc_n(s, n).wf(),
    decreases n,
{
    if n == 1 {
        assert(spec_dealloc_n(s, 1) == spec_dealloc_n(s, 0).spec_dealloc());
    } else {
        let s1 = spec_dealloc_n(s, (n - 1) as nat);
        lemma_bump_partial_reclaim(s, (n - 1) as nat);
        assert(spec_dealloc_n(s, n) == s1.spec_dealloc());
    }
}

/// Freeing fewer allocations than are outstanding only lowers the count:
/// the cursor does not move until the count reaches zero.
pub proof fn lemma_bump_partial_reclaim(s: BumpAllocator, k: nat)
    requires
        s.wf(),
        k < s.allocations,
    ensures
        spec_dealloc_n(s, k).allocations == s.allocations - k,
        spec_dealloc_n(s, k).next == s.next,
        spec_dealloc_n(s, k).heap_start == s.heap_start,
        spec_dealloc_n(s, k).heap_end == s.heap_end,
        spec_dealloc_n(s, k).wf(),
    decreases k,
{
    if k > 0 {
        lemma_bump_partial_reclaim(s, (k - 1) as nat);
    }
}

/// Once the remaining room is exceeded, an allocation cannot fit for any
/// alignment; together with `allocate`'s failure case, which leaves the
/// state untouched, a too-large request is rejected without corruption.
pub proof fn lemma_bump_no_room_fails(s: BumpAllocator, size: int, align: int)
    requires
        s.wf(),
        align >= 1,
        s.next + size > s.heap_end,
    ensures
        !s.spec_alloc_fits(size, align),
{
    lemma_align_up(s.next as int, align);
}

} // verus!
