//! Fallback sub-allocator: a general first-fit allocator over the heap
//! region, servicing oversized requests and seeding the pool's size
//! classes.
//!
//! Free memory is kept as a list of disjoint, sorted, maximal (merged)
//! address ranges.  Allocation carves a block out of the first range that
//! can hold it; deallocation returns the block and merges it with any
//! adjacent free range, so the list stays canonical.

use vstd::prelude::*;

use crate::align::{align_up_checked, lemma_align_up, spec_align_up};
use crate::AllocError;

verus! {

/// One maximal range `[start, end)` of free addresses.
#[derive(Clone, Copy, Debug, PartialEq, Eq, Structural)]
pub struct FreeRange {
    pub start: u64,
    pub end: u64,
}

/// Every range is non-empty and inside `[bottom, top)`-bounds, and the
/// ranges are sorted, pairwise disjoint, and non-adjacent (fully merged).
pub open spec fn ranges_wf(rs: Seq<FreeRange>, bottom: int, top: int) -> bool {
    &&& forall|i: int|
        0 <= i < rs.len() ==> {
            &&& (#[trigger] rs[i]).start < rs[i].end
            &&& bottom <= rs[i].start
            &&& rs[i].end <= top
        }
    &&& forall|i: int, j: int|
        #![trigger rs[i], rs[j]]
        0 <= i < j < rs.len() ==> rs[i].end < rs[j].start
}

/// Address `a` lies in one of the ranges.
pub open spec fn in_ranges(rs: Seq<FreeRange>, a: int) -> bool {
    exists|i: int| 0 <= i < rs.len() && (#[trigger] rs[i]).start <= a < rs[i].end
}

/// Total number of free bytes held by the ranges.
pub open spec fn total_free(rs: Seq<FreeRange>) -> int
    decreases rs.len(),
{
    if rs.len() == 0 {
        0
    } else {
        (rs[0].end - rs[0].start) + total_free(rs.skip(1))
    }
}

/// The address chosen by a first-fit scan: the aligned start of the
/// first range that can hold `size` bytes at alignment `align`.
pub open spec fn spec_first_fit(rs: Seq<FreeRange>, size: int, align: int) -> Option<int>
    decreases rs.len(),
{
    if rs.len() == 0 {
        None
    } else {
        let a = spec_align_up(rs[0].start as int, align);
        if a + size <= rs[0].end {
            Some(a)
        } else {
            spec_first_fit(rs.skip(1), size, align)
        }
    }
}

/// The free bytes are bounded by the region size.
proof fn lemma_total_free_le(rs: Seq<FreeRange>, bottom: int, top: int)
    requires
        ranges_wf(rs, bottom, top),
        bottom <= top,
    ensures
        0 <= total_free(rs) <= top - bottom,
    decreases rs.len(),
{
    if rs.len() > 0 {
        let rest = rs.skip(1);
        assert(forall|j: int| 0 <= j < rest.len() ==> rest[j] == rs[j + 1]);
        assert(ranges_wf(rest, rs[0].end as int, top));
        lemma_total_free_le(rest, rs[0].end as int, top);
    }
}

/// Removing one range subtracts its length from the total.
proof fn lemma_total_free_remove(rs: Seq<FreeRange>, i: int)
    requires
        0 <= i < rs.len(),
    ensures
        total_free(rs.remove(i)) == total_free(rs) - (rs[i].end - rs[i].start),
    decreases i,
{
    if i == 0 {
        assert(rs.remove(0) =~= rs.skip(1));
    } else {
        lemma_total_free_remove(rs.skip(1), i - 1);
        assert(rs.remove(i).skip(1) =~= rs.skip(1).remove(i - 1));
        assert(rs.remove(i)[0] == rs[0]);
        assert(rs.remove(i).len() > 0);
    }
}

/// Inserting one range adds its length to the total.
proof fn lemma_total_free_insert(rs: Seq<FreeRange>, i: int, r: FreeRange)
    requires
        0 <= i <= rs.len(),
    ensures
        total_free(rs.insert(i, r)) == total_free(rs) + (r.end - r.start),
    decreases i,
{
    if i == 0 {
        assert(rs.insert(0, r).skip(1) =~= rs);
        assert(rs.insert(0, r)[0] == r);
    } else {
        lemma_total_free_insert(rs.skip(1), i - 1, r);
        assert(rs.insert(i, r).skip(1) =~= rs.skip(1).insert(i - 1, r));
        assert(rs.insert(i, r)[0] == rs[0]);
        assert(rs.insert(i, r).len() > 0);
    }
}

/// Replacing one range adjusts the total by the difference in lengths.
proof fn lemma_total_free_update(rs: Seq<FreeRange>, i: int, r: FreeRange)
    requires
        0 <= i < rs.len(),
    ensures
        total_free(rs.update(i, r)) == total_free(rs) - (rs[i].end - rs[i].start) + (r.end
            - r.start),
{
    assert(rs.update(i, r) =~= rs.remove(i).insert(i, r));
    lemma_total_free_remove(rs, i);
    lemma_total_free_insert(rs.remove(i), i, r);
}

/// Inserting a range that lies strictly between its neighbours keeps the
/// list well formed.
proof fn lemma_ranges_wf_insert(rs: Seq<FreeRange>, i: int, r: FreeRange, bottom: int, top: int)
    requires
        ranges_wf(rs, bottom, top),
        0 <= i <= rs.len(),
        bottom <= r.start < r.end <= top,
        i > 0 ==> rs[i - 1].end < r.start,
        i < rs.len() ==> r.end < rs[i].start,
    ensures
        ranges_wf(rs.insert(i, r), bottom, top),
        forall|a: int| in_ranges(rs.insert(i, r), a) <==> (in_ranges(rs, a) || r.start <= a
            < r.end),
{
    let new = rs.insert(i, r);
    rs.insert_ensures(i, r);
    assert forall|p: int, q: int|
        #![trigger new[p], new[q]]
        0 <= p < q < new.len() implies new[p].end < new[q].start by {
        if p < i && q < i {
            assert(new[p] == rs[p] && new[q] == rs[q]);
        } else if p < i && q == i {
            assert(new[p] == rs[p] && new[q] == r);
            if p < i - 1 {
                assert(rs[p].end < rs[i - 1].start);
                assert(rs[i - 1].start < rs[i - 1].end);
            }
        } else if p < i && q > i {
            assert(new[p] == rs[p] && new[q] == rs[q - 1]);
        } else if p == i {
            assert(new[p] == r && new[q] == rs[q - 1]);
            if q - 1 > i {
                assert(rs[i].end < rs[q - 1].start);
                assert(rs[i].start < rs[i].end);
            }
        } else {
            assert(new[p] == rs[p - 1] && new[q] == rs[q - 1]);
        }
    }
    assert forall|a: int| in_ranges(new, a) implies (in_ranges(rs, a) || r.start <= a
        < r.end) by {
        let j = choose|j: int| 0 <= j < new.len() && (#[trigger] new[j]).start <= a < new[j].end;
        if j < i {
            assert(rs[j].start <= a < rs[j].end);
        } else if j > i {
            assert(rs[j - 1].start <= a < rs[j - 1].end);
        }
    }
    assert forall|a: int| (in_ranges(rs, a) || r.start <= a < r.end) implies in_ranges(
        new,
        a,
    ) by {
        if in_ranges(rs, a) {
            let j = choose|j: int|
                0 <= j < rs.len() && (#[trigger] rs[j]).start <= a < rs[j].end;
            if j < i {
                assert(new[j].start <= a < new[j].end);
            } else {
                assert(new[j + 1].start <= a < new[j + 1].end);
            }
        } else {
            assert(new[i].start <= a < new[i].end);
        }
    }
}

/// Removing a range keeps the list well formed, and takes exactly that
/// range's addresses out of the free set.
proof fn lemma_ranges_wf_remove(rs: Seq<FreeRange>, i: int, bottom: int, top: int)
    requires
        ranges_wf(rs, bottom, top),
        0 <= i < rs.len(),
    ensures
        ranges_wf(rs.remove(i), bottom, top),
        forall|a: int| in_ranges(rs.remove(i), a) <==> (in_ranges(rs, a) && !(rs[i].start <= a
            < rs[i].end)),
{
    let new = rs.remove(i);
    rs.remove_ensures(i);
    assert forall|p: int, q: int|
        #![trigger new[p], new[q]]
        0 <= p < q < new.len() implies new[p].end < new[q].start by {
        if p < i && q < i {
            assert(new[p] == rs[p] && new[q] == rs[q]);
        } else if p < i && q >= i {
            assert(new[p] == rs[p] && new[q] == rs[q + 1]);
        } else {
            assert(new[p] == rs[p + 1] && new[q] == rs[q + 1]);
        }
    }
    assert forall|a: int| in_ranges(new, a) implies (in_ranges(rs, a) && !(rs[i].start <= a
        < rs[i].end)) by {
        let j = choose|j: int| 0 <= j < new.len() && (#[trigger] new[j]).start <= a < new[j].end;
        if j < i {
            assert(rs[j].start <= a < rs[j].end);
            if i < rs.len() {
                assert(rs[j].end < rs[i].start);
            }
        } else {
            assert(rs[j + 1].start <= a < rs[j + 1].end);
            assert(rs[i].end < rs[j + 1].start);
        }
    }
    assert forall|a: int| (in_ranges(rs, a) && !(rs[i].start <= a < rs[i].end)) implies in_ranges(
        new,
        a,
    ) by {
        let j = choose|j: int| 0 <= j < rs.len() && (#[trigger] rs[j]).start <= a < rs[j].end;
        if j < i {
            assert(new[j].start <= a < new[j].end);
        } else {
            assert(j != i);
            assert(new[j - 1].start <= a < new[j - 1].end);
        }
    }
}

/// State of the fallback allocator.
pub struct FallbackAllocator {
    pub bottom: u64,
    pub top: u64,
    pub free_list: Vec<FreeRange>,
    pub used: u64,
}

impl FallbackAllocator {
    /// The free list is well formed and `used` counts exactly the bytes
    /// of the region that are not free.
    pub open spec fn wf(self) -> bool {
        &&& self.bottom <= self.top
        &&& ranges_wf(self.free_list@, self.bottom as int, self.top as int)
        &&& self.used == self.top - self.bottom - total_free(self.free_list@)
    }

    /// The allocator has been given its heap bounds.
    pub open spec fn is_initialized(self) -> bool {
        self.top != 0
    }

    /// Address `a` is currently free.
    pub open spec fn spec_free(self, a: int) -> bool {
        in_ranges(self.free_list@, a)
    }

    /// Creates a new, empty fallback allocator with no region.
    pub fn new() -> (r: FallbackAllocator)
        ensures
            r.bottom == 0,
            r.top == 0,
            r.used == 0,
            r.free_list@.len() == 0,
            r.wf(),
            !r.is_initialized(),
    {
        FallbackAllocator { bottom: 0, top: 0, free_list: Vec::new(), used: 0 }
    }

    /// Hands the allocator its heap region; the whole region becomes
    /// free.  Must be called exactly once, on an unused region.
    pub fn init(&mut self, heap_start: u64, heap_size: u64)
        requires
            !old(self).is_initialized(),
            old(self).wf(),
            heap_size >= 1,
            heap_start + heap_size <= u64::MAX,
        ensures
            final(self).bottom == heap_start,
            final(self).top == heap_start + heap_size,
            final(self).used == 0,
            final(self).wf(),
            final(self).is_initialized(),
            final(self).free_list@ == seq![
                FreeRange { start: heap_start, end: (heap_start + heap_size) as u64 },
            ],
            forall|a: int| final(self).spec_free(a) <==> heap_start <= a < heap_start
                + heap_size,
    {
        self.bottom = heap_start;
        self.top = heap_start + heap_size;
        let mut list: Vec<FreeRange> = Vec::new();
        list.push(FreeRange { start: heap_start, end: heap_start + heap_size });
        self.free_list = list;
        self.used = 0;
        proof {
            assert(self.free_list@ =~= seq![
                FreeRange { start: heap_start, end: (heap_start + heap_size) as u64 },
            ]);
            assert(total_free(self.free_list@.skip(1)) == 0);
            assert forall|a: int| self.spec_free(a) implies heap_start <= a < heap_start
                + heap_size by {}
            assert forall|a: int| heap_start <= a < heap_start + heap_size implies self.spec_free(
                a,
            ) by {
                assert(self.free_list@[0].start <= a < self.free_list@[0].end);
            }
        }
    }

    /// First-fit scan: the index and aligned address of the first range
    /// that can hold the request, if any.
    #[verifier::loop_isolation(false)]
    fn find_first_fit(&self, size: u64, align: u64) -> (r: Option<(usize, u64)>)
        requires
            self.wf(),
            size >= 1,
            align >= 1,
        ensures
            match r {
                Some((i, addr)) => {
                    &&& i < self.free_list@.len()
                    &&& addr == spec_align_up(self.free_list@[i as int].start as int, align as int)
                    &&& self.free_list@[i as int].start <= addr
                    &&& addr + size <= self.free_list@[i as int].end
                    &&& Some(addr as int) == spec_first_fit(
                        self.free_list@,
                        size as int,
                        align as int,
                    )
                },
                None => spec_first_fit(self.free_list@, size as int, align as int) is None,
            },
    {
        let rs = &self.free_list;
        proof {
            assert(rs@.skip(0) =~= rs@);
        }
        let mut i: usize = 0;
        while i < rs.len()
            invariant
                i <= rs.len(),
                spec_first_fit(rs@, size as int, align as int) == spec_first_fit(
                    rs@.skip(i as int),
                    size as int,
                    align as int,
                ),
            decreases rs.len() - i,
        {
            let s = rs[i].start;
            let e = rs[i].end;
            proof {
                assert(rs@.skip(i as int)[0] == rs@[i as int]);
                lemma_align_up(s as int, align as int);
            }
            match align_up_checked(s, align) {
                Some(a) => {
                    if a <= e && size <= e - a {
                        return Some((i, a));
                    }
                },
                None => {},
            }
            proof {
                assert(rs@.skip(i as int).skip(1) =~= rs@.skip(i + 1));
            }
            i = i + 1;
        }
        proof {
            assert(rs@.skip(i as int) =~= Seq::<FreeRange>::empty());
        }
        None
    }

    /// Allocates `size` bytes aligned to `align`, scanning the free list
    /// first-fit.  On success the returned block was free and no longer
    /// is; nothing else changes.  The call fails exactly when no free
    /// range can hold the request, and then the state is untouched.
    pub fn allocate_first_fit(&mut self, size: u64, align: u64) -> (r: Result<u64, AllocError>)
        requires
            old(self).wf(),
            size >= 1,
            align >= 1,
        ensures
            final(self).wf(),
            final(self).bottom == old(self).bottom,
            final(self).top == old(self).top,
            match r {
                Ok(addr) => {
                    &&& Some(addr as int) == spec_first_fit(
                        old(self).free_list@,
                        size as int,
                        align as int,
                    )
                    &&& addr % align == 0
                    &&& old(self).bottom <= addr
                    &&& addr + size <= old(self).top
                    &&& forall|a: int| addr <= a < addr + size ==> old(self).spec_free(a)
                    &&& forall|a: int|
                        final(self).spec_free(a) <==> (old(self).spec_free(a) && !(addr <= a < addr
                            + size))
                    &&& final(self).used == old(self).used + size
                },
                Err(e) => {
                    &&& e == AllocError::AllocationFailure
                    &&& spec_first_fit(old(self).free_list@, size as int, align as int) is None
                    &&& *final(self) == *old(self)
                },
            },
    {
        let found = self.find_first_fit(size, align);
        let (i, addr) = match found {
            Some(pair) => pair,
            None => {
                return Err(AllocError::AllocationFailure);
            },
        };
        let ghost orig = self.free_list@;
        let s = self.free_list[i].start;
        let e = self.free_list[i].end;
        let block_end = addr + size;
        proof {
            lemma_align_up(s as int, align as int);
            lemma_total_free_remove(orig, i as int);
            lemma_ranges_wf_remove(orig, i as int, self.bottom as int, self.top as int);
            lemma_total_free_le(orig.remove(i as int), self.bottom as int, self.top as int);
        }
        // Carve [addr, block_end) out of range i; what is left of the
        // range on either side stays free.
        self.free_list.remove(i);
        if block_end < e {
            proof {
                lemma_ranges_wf_insert(
                    orig.remove(i as int),
                    i as int,
                    FreeRange { start: block_end, end: e },
                    self.bottom as int,
                    self.top as int,
                );
                lemma_total_free_insert(
                    orig.remove(i as int),
                    i as int,
                    FreeRange { start: block_end, end: e },
                );
            }
            self.free_list.insert(i, FreeRange { start: block_end, end: e });
        }
        if addr > s {
            let ghost mid = self.free_list@;
            proof {
                lemma_ranges_wf_insert(
                    mid,
                    i as int,
                    FreeRange { start: s, end: addr },
                    self.bottom as int,
                    self.top as int,
                );
                lemma_total_free_insert(mid, i as int, FreeRange { start: s, end: addr });
            }
            self.free_list.insert(i, FreeRange { start: s, end: addr });
        }
        self.used = self.used + size;
        proof {
            assert forall|a: int| addr <= a < addr + size implies in_ranges(orig, a) by {
                assert(orig[i as int].start <= a < orig[i as int].end);
            }
        }
        Ok(addr)
    }

    /// Returns the block `[addr, addr + size)` to the free set, merging
    /// it with adjacent free ranges.  The block must lie in the region
    /// and must not currently be free (it was handed out by `allocate_first_fit`
    /// with these bounds and not yet returned).
    #[verifier::spinoff_prover]
    #[verifier::rlimit(100)]
    pub fn deallocate(&mut self, addr: u64, size: u64)
        requires
            old(self).wf(),
            size >= 1,
            old(self).bottom <= addr,
            addr + size <= old(self).top,
            forall|a: int| addr <= a < addr + size ==> !old(self).spec_free(a),
        ensures
            final(self).wf(),
            final(self).bottom == old(self).bottom,
            final(self).top == old(self).top,
            final(self).used == old(self).used - size,
            forall|a: int|
                final(self).spec_free(a) <==> (old(self).spec_free(a) || (addr <= a < addr
                    + size)),
    {
        let ghost orig = self.free_list@;
        let ghost bottom = self.bottom as int;
        let ghost top = self.top as int;
        let block_end = addr + size;
        proof {
            // No free range overlaps the freed block: each lies entirely
            // before it or entirely after it.
            assert forall|j: int| 0 <= j < orig.len() implies ((#[trigger] orig[j]).end <= addr
                || orig[j].start >= block_end) by {
                if orig[j].start < block_end && orig[j].end > addr {
                    let a = if orig[j].start > addr {
                        orig[j].start as int
                    } else {
                        addr as int
                    };
                    assert(orig[j].start <= a < orig[j].end);
                    assert(old(self).spec_free(a));
                    assert(addr <= a < addr + size);
                }
            }
        }
        let mut i: usize = 0;
        while i < self.free_list.len() && self.free_list[i].end < addr
            invariant
                i <= self.free_list@.len(),
                forall|j: int| 0 <= j < i ==> (#[trigger] self.free_list@[j]).end < addr,
                *self == *old(self),
            decreases self.free_list@.len() - i,
        {
            i = i + 1;
        }
        let len = self.free_list.len();
        proof {
            if (i as int) < orig.len() {
                assert(orig[i as int].end >= addr);
            }
            assert forall|j: int| i < j < orig.len() implies (#[trigger] orig[j]).start
                >= block_end by {
                assert(orig[i as int].end < orig[j].start);
                assert(orig[j].end > addr);
            }
        }
        if i < len && self.free_list[i].end == addr {
            // The freed block extends the range on its left.
            let left = self.free_list[i];
            if i + 1 < len && self.free_list[i + 1].start == block_end {
                // It also meets the range on its right: join all three.
                let right = self.free_list[i + 1];
                let merged = FreeRange { start: left.start, end: right.end };
                proof {
                    lemma_ranges_wf_remove(orig, i + 1, bottom, top);
                    lemma_total_free_remove(orig, i + 1);
                    let mid = orig.remove(i + 1);
                    assert(mid[i as int] == orig[i as int]);
                    assert(mid.update(i as int, merged) =~= mid.remove(i as int).insert(
                        i as int,
                        merged,
                    ));
                    lemma_ranges_wf_remove(mid, i as int, bottom, top);
                    lemma_total_free_remove(mid, i as int);
                    if i > 0 {
                        assert(mid.remove(i as int)[i - 1] == orig[i - 1]);
                    }
                    if i + 1 < mid.len() {
                        assert(mid.remove(i as int)[i as int] == orig[i + 2]);
                    }
                    lemma_ranges_wf_insert(mid.remove(i as int), i as int, merged, bottom, top);
                    lemma_total_free_insert(mid.remove(i as int), i as int, merged);
                }
                self.free_list.set(i, merged);
                self.free_list.remove(i + 1);
                proof {
                    assert(self.free_list@ =~= orig.remove(i + 1).remove(i as int).insert(
                        i as int,
                        merged,
                    ));
                    let mid = orig.remove(i + 1);
                    let mid2 = mid.remove(i as int);
                    let newlist = self.free_list@;
                    assert(newlist == mid2.insert(i as int, merged));
                    assert forall|a: int| in_ranges(newlist, a) <==> (in_ranges(orig, a) || (addr
                        <= a < addr + size)) by {
                        assert(in_ranges(mid2.insert(i as int, merged), a) <==> (in_ranges(mid2, a)
                            || (merged.start <= a < merged.end)));
                        assert(in_ranges(mid2, a) <==> (in_ranges(mid, a) && !(mid[
                            i as int].start <= a < mid[i as int].end)));
                        assert(in_ranges(mid, a) <==> (in_ranges(orig, a) && !(orig[i + 1].start
                            <= a < orig[i + 1].end)));
                        if merged.start <= a < merged.end {
                            if a < addr {
                                assert(orig[i as int].start <= a < orig[i as int].end);
                                assert(in_ranges(orig, a));
                            } else if a >= block_end {
                                assert(orig[i + 1].start <= a < orig[i + 1].end);
                                assert(in_ranges(orig, a));
                            }
                        }
                    }
                }
            } else {
                let merged = FreeRange { start: left.start, end: block_end };
                proof {
                    assert(orig.update(i as int, merged) =~= orig.remove(i as int).insert(
                        i as int,
                        merged,
                    ));
                    lemma_ranges_wf_remove(orig, i as int, bottom, top);
                    lemma_total_free_remove(orig, i as int);
                    if i > 0 {
                        assert(orig.remove(i as int)[i - 1] == orig[i - 1]);
                    }
                    if i + 1 < orig.len() {
                        assert(orig.remove(i as int)[i as int] == orig[i + 1]);
                    }
                    lemma_ranges_wf_insert(orig.remove(i as int), i as int, merged, bottom, top);
                    lemma_total_free_insert(orig.remove(i as int), i as int, merged);
                }
                self.free_list.set(i, merged);
                proof {
                    let mid = orig.remove(i as int);
                    let newlist = self.free_list@;
                    assert(newlist == orig.update(i as int, merged));
                    assert(newlist == mid.insert(i as int, merged));
                    assert forall|a: int| in_ranges(newlist, a) <==> (in_ranges(orig, a) || (addr
                        <= a < addr + size)) by {
                        assert(in_ranges(mid.insert(i as int, merged), a) <==> (in_ranges(mid, a)
                            || (merged.start <= a < merged.end)));
                        assert(in_ranges(mid, a) <==> (in_ranges(orig, a) && !(orig[
                            i as int].start <= a < orig[i as int].end)));
                        if orig[i as int].start <= a < orig[i as int].end {
                            assert(in_ranges(orig, a));
                        }
                    }
                }
            }
        } else if i < len && self.free_list[i].start == block_end {
            // The freed block meets the range on its right.
            let right = self.free_list[i];
            let merged = FreeRange { start: addr, end: right.end };
            proof {
                assert(orig.update(i as int, merged) =~= orig.remove(i as int).insert(
                    i as int,
                    merged,
                ));
                lemma_ranges_wf_remove(orig, i as int, bottom, top);
                lemma_total_free_remove(orig, i as int);
                if i > 0 {
                    assert(orig.remove(i as int)[i - 1] == orig[i - 1]);
                }
                if i + 1 < orig.len() {
                    assert(orig.remove(i as int)[i as int] == orig[i + 1]);
                }
                lemma_ranges_wf_insert(orig.remove(i as int), i as int, merged, bottom, top);
                lemma_total_free_insert(orig.remove(i as int), i as int, merged);
            }
            self.free_list.set(i, merged);
            proof {
                let mid = orig.remove(i as int);
                let newlist = self.free_list@;
                assert(newlist == orig.update(i as int, merged));
                assert(newlist == mid.insert(i as int, merged));
                assert forall|a: int| in_ranges(newlist, a) <==> (in_ranges(orig, a) || (addr <= a
                    < addr + size)) by {
                    assert(in_ranges(mid.insert(i as int, merged), a) <==> (in_ranges(mid, a) || (
                    merged.start <= a < merged.end)));
                    assert(in_ranges(mid, a) <==> (in_ranges(orig, a) && !(orig[i as int].start
                        <= a < orig[i as int].end)));
                    if orig[i as int].start <= a < orig[i as int].end {
                        assert(in_ranges(orig, a));
                    }
                }
            }
        } else {
            // No adjacent free range: a new range of its own.
            let fresh = FreeRange { start: addr, end: block_end };
            proof {
                if (i as int) < orig.len() {
                    assert(orig[i as int].end != addr);
                    assert(orig[i as int].end > addr);
                    assert(orig[i as int].start >= block_end);
                    assert(orig[i as int].start != block_end);
                }
                lemma_ranges_wf_insert(orig, i as int, fresh, bottom, top);
                lemma_total_free_insert(orig, i as int, fresh);
            }
            self.free_list.insert(i, fresh);
            proof {
                let newlist = self.free_list@;
                assert(newlist == orig.insert(i as int, fresh));
                assert forall|a: int| in_ranges(newlist, a) <==> (in_ranges(orig, a) || (addr <= a
                    < addr + size)) by {
                    assert(in_ranges(orig.insert(i as int, fresh), a) <==> (in_ranges(orig, a) || (
                    fresh.start <= a < fresh.end)));
                }
            }
        }
        proof {
            lemma_total_free_le(self.free_list@, bottom, top);
        }
        self.used = self.used - size;
    }
}

} // verus!
