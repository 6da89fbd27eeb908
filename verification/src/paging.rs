//! Planning the heap region's page mappings.
//!
//! Backing the kernel heap means mapping every page of a fixed virtual
//! window to a distinct usable physical frame with read/write access.
//! The plan — which page goes to which frame — is computed here from the
//! frame source; walking the page tables, writing the entries and
//! flushing each page's translation is the boot code's hardware work and
//! follows the plan entry by entry.

use vstd::prelude::*;

use crate::frames::{lemma_usable_frames_wf, BootInfoFrameAllocator, FRAME_SIZE};
use crate::MapError;

verus! {

/// One planned mapping: the page at `page` is to be mapped to the frame
/// at `frame`, present and writable.
#[derive(Clone, Copy, Debug, PartialEq, Eq, Structural)]
pub struct PageMapping {
    pub page: u64,
    pub frame: u64,
}

/// Start address of the page containing `addr`.
pub open spec fn spec_page_of(addr: int) -> int {
    (addr / FRAME_SIZE as int) * FRAME_SIZE as int
}

/// Number of pages needed to cover `[heap_start, heap_start + heap_size)`.
pub open spec fn spec_page_count(heap_start: int, heap_size: int) -> int
    recommends
        heap_size >= 1,
{
    (spec_page_of(heap_start + heap_size - 1) - spec_page_of(heap_start)) / FRAME_SIZE as int + 1
}

/// Plans one mapping for every page of the heap window, drawing one
/// frame per page from the frame source.  Pages are consecutive from the
/// page containing `heap_start`; frames are the source's next usable
/// frames, in order, hence pairwise distinct.  When the source runs out
/// of frames the plan fails — heap setup aborts boot on that.
#[verifier::loop_isolation(false)]
pub fn plan_heap_mappings(
    frame_source: &mut BootInfoFrameAllocator,
    heap_start: u64,
    heap_size: u64,
) -> (r: Result<Vec<PageMapping>, MapError>)
    requires
        old(frame_source).wf(),
        heap_size >= 1,
        heap_start + heap_size <= u64::MAX,
        old(frame_source).next_frame + spec_page_count(heap_start as int, heap_size as int)
            <= usize::MAX,
    ensures
        final(frame_source).wf(),
        final(frame_source).memory_map == old(frame_source).memory_map,
        match r {
            Ok(v) => {
                &&& v@.len() == spec_page_count(heap_start as int, heap_size as int)
                &&& forall|i: int|
                    0 <= i < v@.len() ==> {
                        &&& (#[trigger] v@[i]).page == spec_page_of(heap_start as int)
                            + FRAME_SIZE * i
                        &&& v@[i].frame == old(frame_source).frames()[old(
                            frame_source,
                        ).next_frame + i]
                        &&& v@[i].frame as int % FRAME_SIZE as int == 0
                    }
                &&& forall|i: int, j: int|
                    #![trigger v@[i], v@[j]]
                    0 <= i < j < v@.len() ==> v@[i].frame != v@[j].frame
                &&& old(frame_source).next_frame + v@.len() <= old(frame_source).frames().len()
                &&& final(frame_source).next_frame == old(frame_source).next_frame + v@.len()
            },
            Err(e) => {
                &&& e == MapError::FrameAllocationFailed
                &&& old(frame_source).next_frame + spec_page_count(
                    heap_start as int,
                    heap_size as int,
                ) > old(frame_source).frames().len()
            },
        },
{
    let first_page = (heap_start / FRAME_SIZE) * FRAME_SIZE;
    let last_page = ((heap_start + (heap_size - 1)) / FRAME_SIZE) * FRAME_SIZE;
    let count = (last_page - first_page) / FRAME_SIZE + 1;
    proof {
        assert(first_page == spec_page_of(heap_start as int));
        assert(last_page == spec_page_of(heap_start as int + heap_size - 1));
        vstd::arithmetic::div_mod::lemma_fundamental_div_mod(heap_start as int, FRAME_SIZE as int);
        vstd::arithmetic::div_mod::lemma_fundamental_div_mod(
            heap_start as int + heap_size - 1,
            FRAME_SIZE as int,
        );
        assert(first_page <= last_page) by {
            vstd::arithmetic::div_mod::lemma_div_is_ordered(
                heap_start as int,
                heap_start as int + heap_size - 1,
                FRAME_SIZE as int,
            );
        }
        assert((last_page - first_page) as int % FRAME_SIZE as int == 0) by {
            vstd::arithmetic::div_mod::lemma_fundamental_div_mod(
                (last_page - first_page) as int,
                FRAME_SIZE as int,
            );
        }
        assert(count == spec_page_count(heap_start as int, heap_size as int)) by {
            vstd::arithmetic::div_mod::lemma_fundamental_div_mod(
                (last_page - first_page) as int,
                FRAME_SIZE as int,
            );
        }
    }
    let ghost start_cursor = frame_source.next_frame as int;
    let mut mappings: Vec<PageMapping> = Vec::new();
    let mut i: u64 = 0;
    while i < count
        invariant
            i <= count,
            frame_source.wf(),
            frame_source.memory_map == old(frame_source).memory_map,
            frame_source.next_frame == start_cursor + i,
            i > 0 ==> start_cursor + i <= frame_source.frames().len(),
            mappings@.len() == i,
            forall|j: int|
                0 <= j < i ==> {
                    &&& (#[trigger] mappings@[j]).page == first_page + FRAME_SIZE * j
                    &&& mappings@[j].frame == frame_source.frames()[start_cursor + j]
                    &&& mappings@[j].frame as int % FRAME_SIZE as int == 0
                },
        decreases count - i,
    {
        match frame_source.allocate_frame() {
            Some(frame) => {
                proof {
                    assert(FRAME_SIZE * (i as int) <= FRAME_SIZE * ((count - 1) as int));
                }
                mappings.push(PageMapping { page: first_page + FRAME_SIZE * i, frame });
            },
            None => {
                return Err(MapError::FrameAllocationFailed);
            },
        }
        i = i + 1;
    }
    proof {
        lemma_usable_frames_wf(frame_source.memory_map@);
        assert forall|p: int, q: int|
            #![trigger mappings@[p], mappings@[q]]
            0 <= p < q < mappings@.len() implies mappings@[p].frame != mappings@[q].frame by {
            assert(frame_source.frames()[start_cursor + p] < frame_source.frames()[start_cursor
                + q]);
        }
    }
    Ok(mappings)
}

} // verus!
