//! Pool (fixed-size-block) allocation strategy.
//!
//! Small requests are bucketed into nine power-of-two size classes from
//! 8 to 2048 bytes; a class's size doubles as its alignment guarantee.
//! Each class keeps a free list of block addresses, reused LIFO.  An
//! empty class is seeded with one block of exactly the class size from
//! the fallback allocator; oversized requests go to the fallback whole.
//!
//! In the kernel the free list is intrusive: a freed block's own bytes
//! hold the link to the next free block, which is why every class size
//! is at least the size of a link node.  Verified code does not
//! reinterpret raw bytes, so the lists here are kept as stacks of block
//! addresses beside the heap; the allocation discipline is the same.

use vstd::prelude::*;

use crate::align::{lemma_mod_divides_trans, lemma_pow2_divides, spec_is_pow2};
use crate::fallback::{spec_first_fit, FallbackAllocator};
use crate::AllocError;

verus! {

/// Number of size classes.
pub const BLOCK_CLASS_COUNT: usize = 9;

/// The block size of class `i`: the powers of two from 8 to 2048.
pub open spec fn spec_block_size(i: int) -> int {
    if i <= 0 {
        8
    } else if i == 1 {
        16
    } else if i == 2 {
        32
    } else if i == 3 {
        64
    } else if i == 4 {
        128
    } else if i == 5 {
        256
    } else if i == 6 {
        512
    } else if i == 7 {
        1024
    } else {
        2048
    }
}

/// The size a block must have to satisfy a request: the larger of size
/// and alignment, since a class's size is also its alignment.
pub open spec fn spec_required_size(size: int, align: int) -> int {
    if size >= align {
        size
    } else {
        align
    }
}

/// The class that serves a request: the smallest class at least as large
/// as the required size, or `None` when the request exceeds the largest
/// class and falls through to the fallback allocator.
pub open spec fn spec_list_index(size: int, align: int) -> Option<int> {
    let required = spec_required_size(size, align);
    if required <= 8 {
        Some(0)
    } else if required <= 16 {
        Some(1)
    } else if required <= 32 {
        Some(2)
    } else if required <= 64 {
        Some(3)
    } else if required <= 128 {
        Some(4)
    } else if required <= 256 {
        Some(5)
    } else if required <= 512 {
        Some(6)
    } else if required <= 1024 {
        Some(7)
    } else if required <= 2048 {
        Some(8)
    } else {
        None
    }
}

/// Every class size is a power of two.
pub proof fn lemma_block_size_pow2(i: int)
    ensures
        spec_is_pow2(spec_block_size(i)),
{
    reveal_with_fuel(spec_is_pow2, 13);
}

/// The block size of class `i`.
pub fn block_size(i: usize) -> (r: u64)
    requires
        i < BLOCK_CLASS_COUNT,
    ensures
        r == spec_block_size(i as int),
{
    match i {
        0 => 8,
        1 => 16,
        2 => 32,
        3 => 64,
        4 => 128,
        5 => 256,
        6 => 512,
        7 => 1024,
        _ => 2048,
    }
}

/// Determines which class list serves a request of `size` bytes at
/// alignment `align`, or `None` when the request is too large for every
/// class.
pub fn list_index(size: u64, align: u64) -> (r: Option<usize>)
    ensures
        match r {
            Some(i) => {
                &&& Some(i as int) == spec_list_index(size as int, align as int)
                &&& i < BLOCK_CLASS_COUNT
                &&& spec_block_size(i as int) >= spec_required_size(size as int, align as int)
                &&& forall|j: int|
                    0 <= j < i ==> spec_block_size(j) < spec_required_size(
                        size as int,
                        align as int,
                    )
            },
            None => {
                &&& spec_list_index(size as int, align as int) is None
                &&& spec_required_size(size as int, align as int) > 2048
            },
        },
{
    let required = if size >= align {
        size
    } else {
        align
    };
    if required <= 8 {
        Some(0)
    } else if required <= 16 {
        Some(1)
    } else if required <= 32 {
        Some(2)
    } else if required <= 64 {
        Some(3)
    } else if required <= 128 {
        Some(4)
    } else if required <= 256 {
        Some(5)
    } else if required <= 512 {
        Some(6)
    } else if required <= 1024 {
        Some(7)
    } else if required <= 2048 {
        Some(8)
    } else {
        None
    }
}

/// State of the pool strategy: one free list of block addresses per size
/// class, and the fallback allocator spanning the same heap bounds.
pub struct PoolAllocator {
    pub list_heads: Vec<Vec<u64>>,
    pub fallback_allocator: FallbackAllocator,
}

impl PoolAllocator {
    /// The class lists as mathematical sequences; the last element of a
    /// list is its head, the next block to be reused.
    pub open spec fn stacks(self) -> Seq<Seq<u64>> {
        Seq::new(self.list_heads@.len(), |i: int| self.list_heads@[i]@)
    }

    /// There is one list per class, the fallback allocator is well
    /// formed, and every listed block is a block of its class: aligned
    /// to the class size and backed by the heap region.
    pub open spec fn wf(self) -> bool {
        &&& self.list_heads@.len() == BLOCK_CLASS_COUNT
        &&& self.fallback_allocator.wf()
        &&& forall|i: int, k: int|
            #![trigger self.stacks()[i][k]]
            0 <= i < BLOCK_CLASS_COUNT && 0 <= k < self.stacks()[i].len() ==> {
                let b = self.stacks()[i][k];
                &&& b as int % spec_block_size(i) == 0
                &&& self.fallback_allocator.bottom <= b
                &&& b + spec_block_size(i) <= self.fallback_allocator.top
            }
    }

    /// The allocator has been given its heap bounds.
    pub open spec fn is_initialized(self) -> bool {
        self.fallback_allocator.is_initialized()
    }

    /// Creates a new pool allocator: all class lists empty, no heap
    /// region yet.
    pub fn new() -> (r: PoolAllocator)
        ensures
            r.wf(),
            !r.is_initialized(),
            r.fallback_allocator.bottom == 0,
            r.fallback_allocator.top == 0,
            r.fallback_allocator.used == 0,
            forall|i: int| 0 <= i < BLOCK_CLASS_COUNT ==> r.stacks()[i].len() == 0,
    {
        let mut list_heads: Vec<Vec<u64>> = Vec::new();
        let mut i: usize = 0;
        while i < BLOCK_CLASS_COUNT
            invariant
                i <= BLOCK_CLASS_COUNT,
                list_heads@.len() == i,
                forall|j: int| 0 <= j < i ==> (#[trigger] list_heads@[j])@.len() == 0,
            decreases BLOCK_CLASS_COUNT - i,
        {
            list_heads.push(Vec::new());
            i = i + 1;
        }
        PoolAllocator { list_heads, fallback_allocator: FallbackAllocator::new() }
    }

    /// Hands the allocator its heap region.  Only the fallback allocator
    /// is populated; the class lists fill lazily as blocks are freed.
    /// Must be called exactly once, on an unused region.
    pub fn init(&mut self, heap_start: u64, heap_size: u64)
        requires
            old(self).wf(),
            !old(self).is_initialized(),
            heap_size >= 1,
            heap_start + heap_size <= u64::MAX,
        ensures
            final(self).wf(),
            final(self).is_initialized(),
            final(self).stacks() == old(self).stacks(),
            final(self).fallback_allocator.bottom == heap_start,
            final(self).fallback_allocator.top == heap_start + heap_size,
            final(self).fallback_allocator.used == 0,
            final(self).fallback_allocator.free_list@ == seq![
                crate::fallback::FreeRange { start: heap_start, end: (heap_start + heap_size) as u64 },
            ],
    {
        let ghost pre = *self;
        self.fallback_allocator.init(heap_start, heap_size);
        proof {
            assert(self.stacks() =~= pre.stacks());
            assert forall|i: int, k: int|
                0 <= i < BLOCK_CLASS_COUNT && 0 <= k < self.stacks()[i].len() implies {
                let b = #[trigger] self.stacks()[i][k];
                &&& b as int % spec_block_size(i) == 0
                &&& self.fallback_allocator.bottom <= b
                &&& b + spec_block_size(i) <= self.fallback_allocator.top
            } by {
                // Before initialization the region is empty, so no class
                // list can hold a block backed by it.
                if pre.stacks()[i].len() > 0 {
                    assert(pre.stacks()[i][0] + spec_block_size(i)
                        <= pre.fallback_allocator.top);
                }
                assert(pre.stacks()[i].len() == 0);
            }
        }
    }

    /// Allocates using the fallback allocator alone, bypassing the class
    /// lists.
    fn fallback_alloc(&mut self, size: u64, align: u64) -> (r: Result<u64, AllocError>)
        requires
            old(self).wf(),
            size >= 1,
            align >= 1,
        ensures
            final(self).wf(),
            final(self).stacks() == old(self).stacks(),
            final(self).list_heads@.len() == old(self).list_heads@.len(),
            final(self).fallback_allocator.bottom == old(self).fallback_allocator.bottom,
            final(self).fallback_allocator.top == old(self).fallback_allocator.top,
            match r {
                Ok(addr) => {
                    &&& Some(addr as int) == spec_first_fit(
                        old(self).fallback_allocator.free_list@,
                        size as int,
                        align as int,
                    )
                    &&& addr % align == 0
                    &&& old(self).fallback_allocator.bottom <= addr
                    &&& addr + size <= old(self).fallback_allocator.top
                    &&& forall|a: int|
                        addr <= a < addr + size ==> old(self).fallback_allocator.spec_free(a)
                    &&& forall|a: int|
                        final(self).fallback_allocator.spec_free(a) <==> (old(
                            self,
                        ).fallback_allocator.spec_free(a) && !(addr <= a < addr + size))
                    &&& final(self).fallback_allocator.used == old(self).fallback_allocator.used
                        + size
                },
                Err(e) => {
                    &&& e == AllocError::AllocationFailure
                    &&& spec_first_fit(
                        old(self).fallback_allocator.free_list@,
                        size as int,
                        align as int,
                    ) is None
                    &&& *final(self) == *old(self)
                },
            },
    {
        let ghost pre = *self;
        let r = self.fallback_allocator.allocate_first_fit(size, align);
        proof {
            assert(self.stacks() =~= pre.stacks());
        }
        r
    }

    /// Allocates `size` bytes aligned to `align` (a power of two).
    ///
    /// A request that fits a size class pops that class's list head, or,
    /// when the list is empty, seeds the class with one block of exactly
    /// the class size from the fallback allocator.  A request too large
    /// for every class is delegated to the fallback whole.  Every
    /// returned address is aligned to at least `align` and backed by at
    /// least `size` bytes; failure surfaces as a failure value with the
    /// state untouched.
    pub fn allocate(&mut self, size: u64, align: u64) -> (r: Result<u64, AllocError>)
        requires
            old(self).wf(),
            size >= 1,
            spec_is_pow2(align as int),
        ensures
            final(self).wf(),
            final(self).fallback_allocator.bottom == old(self).fallback_allocator.bottom,
            final(self).fallback_allocator.top == old(self).fallback_allocator.top,
            match r {
                Ok(addr) => {
                    &&& addr % align == 0
                    &&& old(self).fallback_allocator.bottom <= addr
                    &&& addr + size <= old(self).fallback_allocator.top
                    &&& match spec_list_index(size as int, align as int) {
                        Some(i) => {
                            &&& addr as int % spec_block_size(i) == 0
                            &&& addr + spec_block_size(i) <= old(self).fallback_allocator.top
                            &&& if old(self).stacks()[i].len() > 0 {
                                // the class list head, reused LIFO
                                &&& addr == old(self).stacks()[i].last()
                                &&& final(self).stacks() == old(self).stacks().update(
                                    i,
                                    old(self).stacks()[i].drop_last(),
                                )
                                &&& final(self).fallback_allocator == old(self).fallback_allocator
                            } else {
                                // a fresh block of the class size from the fallback
                                &&& final(self).stacks() == old(self).stacks()
                                &&& Some(addr as int) == spec_first_fit(
                                    old(self).fallback_allocator.free_list@,
                                    spec_block_size(i),
                                    spec_block_size(i),
                                )
                                &&& final(self).fallback_allocator.used == old(
                                    self,
                                ).fallback_allocator.used + spec_block_size(i)
                                &&& forall|a: int|
                                    final(self).fallback_allocator.spec_free(a) <==> (old(
                                        self,
                                    ).fallback_allocator.spec_free(a) && !(addr <= a < addr
                                        + spec_block_size(i)))
                            }
                        },
                        None => {
                            &&& final(self).stacks() == old(self).stacks()
                            &&& Some(addr as int) == spec_first_fit(
                                old(self).fallback_allocator.free_list@,
                                size as int,
                                align as int,
                            )
                            &&& final(self).fallback_allocator.used == old(
                                self,
                            ).fallback_allocator.used + size
                            &&& forall|a: int|
                                final(self).fallback_allocator.spec_free(a) <==> (old(
                                    self,
                                ).fallback_allocator.spec_free(a) && !(addr <= a < addr + size))
                        },
                    }
                },
                Err(e) => {
                    &&& e == AllocError::AllocationFailure
                    &&& *final(self) == *old(self)
                    &&& match spec_list_index(size as int, align as int) {
                        Some(i) => old(self).stacks()[i].len() == 0 && spec_first_fit(
                            old(self).fallback_allocator.free_list@,
                            spec_block_size(i),
                            spec_block_size(i),
                        ) is None,
                        None => spec_first_fit(
                            old(self).fallback_allocator.free_list@,
                            size as int,
                            align as int,
                        ) is None,
                    }
                },
            },
    {
        let ghost pre = *self;
        match list_index(size, align) {
            Some(index) => {
                proof {
                    lemma_block_size_pow2(index as int);
                    lemma_pow2_divides(align as int, spec_block_size(index as int));
                }
                if self.list_heads[index].len() > 0 {
                    // Pop the list head and hand the block out again.
                    match self.list_heads[index].pop() {
                        Some(addr) => {
                            proof {
                                assert(pre.stacks()[index as int][pre.stacks()[
                                    index as int].len() - 1] == addr);
                                assert(self.stacks() =~= pre.stacks().update(
                                    index as int,
                                    pre.stacks()[index as int].drop_last(),
                                ));
                                assert forall|i: int, k: int|
                                    0 <= i < BLOCK_CLASS_COUNT && 0 <= k
                                        < self.stacks()[i].len() implies {
                                    let b = #[trigger] self.stacks()[i][k];
                                    &&& b as int % spec_block_size(i) == 0
                                    &&& self.fallback_allocator.bottom <= b
                                    &&& b + spec_block_size(i) <= self.fallback_allocator.top
                                } by {
                                    assert(self.stacks()[i][k] == pre.stacks()[i][k]);
                                }
                                lemma_mod_divides_trans(
                                    addr as int,
                                    spec_block_size(index as int),
                                    align as int,
                                );
                            }
                            Ok(addr)
                        },
                        None => Err(AllocError::AllocationFailure),
                    }
                } else {
                    // Seed the class with one block of exactly its size
                    // and alignment; the block goes to the caller, the
                    // list stays empty until the block is freed.
                    let class_size = block_size(index);
                    let r = self.fallback_alloc(class_size, class_size);
                    proof {
                        if let Ok(addr) = r {
                            lemma_mod_divides_trans(
                                addr as int,
                                spec_block_size(index as int),
                                align as int,
                            );
                        }
                    }
                    r
                }
            },
            None => {
                // Too large for every class: the whole request goes to
                // the fallback allocator.
                self.fallback_alloc(size, align)
            },
        }
    }

    /// Returns a block.  `size` and `align` must be the values the block
    /// was allocated with: they select the same class, whose list the
    /// block is pushed onto as the new head; a block no class fits was
    /// carved by the fallback allocator and is returned to it.  In the
    /// kernel the freed block's bytes become the link node; every class
    /// size was checked against the link size when the classes were laid
    /// out, not per call.
    pub fn deallocate(&mut self, addr: u64, size: u64, align: u64)
        requires
            old(self).wf(),
            size >= 1,
            spec_is_pow2(align as int),
            match spec_list_index(size as int, align as int) {
                Some(i) => {
                    &&& addr as int % spec_block_size(i) == 0
                    &&& old(self).fallback_allocator.bottom <= addr
                    &&& addr + spec_block_size(i) <= old(self).fallback_allocator.top
                },
                None => {
                    &&& old(self).fallback_allocator.bottom <= addr
                    &&& addr + size <= old(self).fallback_allocator.top
                    &&& forall|a: int|
                        addr <= a < addr + size ==> !old(self).fallback_allocator.spec_free(a)
                },
            },
        ensures
            final(self).wf(),
            final(self).fallback_allocator.bottom == old(self).fallback_allocator.bottom,
            final(self).fallback_allocator.top == old(self).fallback_allocator.top,
            match spec_list_index(size as int, align as int) {
                Some(i) => {
                    &&& final(self).stacks() == old(self).stacks().update(
                        i,
                        old(self).stacks()[i].push(addr),
                    )
                    &&& final(self).fallback_allocator == old(self).fallback_allocator
                },
                None => {
                    &&& final(self).stacks() == old(self).stacks()
                    &&& final(self).fallback_allocator.used == old(self).fallback_allocator.used
                        - size
                    &&& forall|a: int|
                        final(self).fallback_allocator.spec_free(a) <==> (old(
                            self,
                        ).fallback_allocator.spec_free(a) || (addr <= a < addr + size))
                },
            },
    {
        let ghost pre = *self;
        match list_index(size, align) {
            Some(index) => {
                self.list_heads[index].push(addr);
                proof {
                    assert(self.stacks() =~= pre.stacks().update(
                        index as int,
                        pre.stacks()[index as int].push(addr),
                    ));
                    assert forall|i: int, k: int|
                        0 <= i < BLOCK_CLASS_COUNT && 0 <= k < self.stacks()[i].len() implies {
                        let b = #[trigger] self.stacks()[i][k];
                        &&& b as int % spec_block_size(i) == 0
                        &&& self.fallback_allocator.bottom <= b
                        &&& b + spec_block_size(i) <= self.fallback_allocator.top
                    } by {
                        if i == index as int && k == self.stacks()[i].len() - 1 {
                            assert(self.stacks()[i][k] == addr);
                        } else {
                            assert(self.stacks()[i][k] == pre.stacks()[i][k]);
                        }
                    }
                }
            },
            None => {
                self.fallback_allocator.deallocate(addr, size);
                proof {
                    assert(self.stacks() =~= pre.stacks());
                    assert forall|i: int, k: int|
                        0 <= i < BLOCK_CLASS_COUNT && 0 <= k < self.stacks()[i].len() implies {
                        let b = #[trigger] self.stacks()[i][k];
                        &&& b as int % spec_block_size(i) == 0
                        &&& self.fallback_allocator.bottom <= b
                        &&& b + spec_block_size(i) <= self.fallback_allocator.top
                    } by {
                        assert(self.stacks()[i][k] == pre.stacks()[i][k]);
                    }
                }
            },
        }
    }
}

/// Pool reuse is LIFO: freeing a block pushes it onto its class list,
/// and the next allocation in the same class, with no operation on that
/// class in between, pops exactly that block and restores the lists.
/// Stated over the class-list view that `allocate` and `deallocate`
/// relate their states by.
pub proof fn lemma_pool_lifo_reuse(stacks: Seq<Seq<u64>>, i: int, addr: u64)
    requires
        0 <= i < stacks.len(),
    ensures
        ({
            let pushed = stacks.update(i, stacks[i].push(addr));
            &&& pushed[i].len() > 0
            &&& pushed[i].last() == addr
            &&& pushed.update(i, pushed[i].drop_last()) == stacks
        }),
{
    let pushed = stacks.update(i, stacks[i].push(addr));
    assert(pushed[i].drop_last() =~= stacks[i]);
    assert(pushed.update(i, pushed[i].drop_last()) =~= stacks);
}

} // verus!
