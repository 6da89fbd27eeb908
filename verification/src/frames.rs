//! Physical frame source: yields usable physical page frames from the
//! boot memory map, once each, never reused.

use vstd::prelude::*;

verus! {

/// Size of one physical page frame in bytes.
pub const FRAME_SIZE: u64 = 4096;

/// Classification of a boot memory region.
#[derive(Clone, Copy, Debug, PartialEq, Eq, Structural)]
pub enum MemoryRegionKind {
    /// Free for the kernel to use.
    Usable,
    /// Reserved by firmware, devices, or the loaded kernel itself.
    Reserved,
}

/// One region `[start, end)` of the boot memory map.
#[derive(Clone, Copy, Debug, PartialEq, Eq, Structural)]
pub struct MemoryRegion {
    pub start: u64,
    pub end: u64,
    pub kind: MemoryRegionKind,
}

/// The boot memory map is ordered, non-overlapping, and frame-aligned.
pub open spec fn regions_wf(rs: Seq<MemoryRegion>) -> bool {
    &&& forall|i: int|
        0 <= i < rs.len() ==> {
            &&& (#[trigger] rs[i]).start <= rs[i].end
            &&& rs[i].start as int % FRAME_SIZE as int == 0
            &&& rs[i].end as int % FRAME_SIZE as int == 0
        }
    &&& forall|i: int, j: int|
        #![trigger rs[i], rs[j]]
        0 <= i < j < rs.len() ==> rs[i].end <= rs[j].start
}

/// The frame start addresses a single region contributes: every whole
/// frame inside a usable region, in address order.
pub open spec fn frames_of_region(r: MemoryRegion) -> Seq<u64>
    recommends
        r.start <= r.end,
{
    match r.kind {
        MemoryRegionKind::Usable => Seq::new(
            ((r.end - r.start) / FRAME_SIZE as int) as nat,
            |i: int| (r.start + FRAME_SIZE * i) as u64,
        ),
        MemoryRegionKind::Reserved => Seq::empty(),
    }
}

/// All usable frame start addresses of the memory map, in address order.
pub open spec fn spec_usable_frames(rs: Seq<MemoryRegion>) -> Seq<u64>
    decreases rs.len(),
{
    if rs.len() == 0 {
        Seq::empty()
    } else {
        frames_of_region(rs[0]) + spec_usable_frames(rs.skip(1))
    }
}

/// The usable frames of a well-formed map are frame-aligned and
/// strictly increasing, and all lie at or above the first region.
pub proof fn lemma_usable_frames_wf(rs: Seq<MemoryRegion>)
    requires
        regions_wf(rs),
    ensures
        forall|k: int|
            #![trigger spec_usable_frames(rs)[k]]
            0 <= k < spec_usable_frames(rs).len() ==> {
                &&& spec_usable_frames(rs)[k] as int % FRAME_SIZE as int == 0
                &&& rs.len() > 0 ==> rs[0].start <= spec_usable_frames(rs)[k]
            },
        forall|k: int, l: int|
            #![trigger spec_usable_frames(rs)[k], spec_usable_frames(rs)[l]]
            0 <= k < l < spec_usable_frames(rs).len() ==> spec_usable_frames(rs)[k]
                < spec_usable_frames(rs)[l],
    decreases rs.len(),
{
    if rs.len() > 0 {
        let first = frames_of_region(rs[0]);
        let rest = rs.skip(1);
        let restf = spec_usable_frames(rest);
        let all = spec_usable_frames(rs);
        assert(forall|j: int| 0 <= j < rest.len() ==> rest[j] == rs[j + 1]);
        assert(regions_wf(rest));
        lemma_usable_frames_wf(rest);
        let s0 = rs[0].start as int;
        let e0 = rs[0].end as int;
        let c = (e0 - s0) / FRAME_SIZE as int;
        vstd::arithmetic::div_mod::lemma_fundamental_div_mod(e0 - s0, FRAME_SIZE as int);
        assert(FRAME_SIZE * c <= e0 - s0);
        assert forall|k: int| 0 <= k < first.len() implies s0 <= first[k] < e0
            && first[k] as int % FRAME_SIZE as int == 0 by {
            assert(first[k] == s0 + FRAME_SIZE * k);
            assert(FRAME_SIZE * k <= FRAME_SIZE * (c - 1));
            vstd::arithmetic::div_mod::lemma_fundamental_div_mod(s0, FRAME_SIZE as int);
            vstd::arithmetic::div_mod::lemma_mod_multiples_basic(
                s0 / FRAME_SIZE as int + k,
                FRAME_SIZE as int,
            );
            assert(s0 + FRAME_SIZE * k == (s0 / FRAME_SIZE as int + k) * FRAME_SIZE);
        }
        if rest.len() > 0 {
            assert(rs[0].end <= rs[1].start);
            assert(rest[0] == rs[1]);
        }
        assert forall|k: int|
            #![trigger all[k]]
            0 <= k < all.len() implies {
            &&& all[k] as int % FRAME_SIZE as int == 0
            &&& rs[0].start <= all[k]
        } by {
            if k < first.len() {
                assert(all[k] == first[k]);
            } else {
                assert(all[k] == restf[k - first.len()]);
                if rest.len() > 0 {
                    assert(rest[0].start <= restf[k - first.len()]);
                }
            }
        }
        assert forall|k: int, l: int|
            #![trigger all[k], all[l]]
            0 <= k < l < all.len() implies all[k] < all[l] by {
            if l < first.len() {
                assert(all[k] == first[k] && all[l] == first[l]);
                assert(s0 + FRAME_SIZE * k < s0 + FRAME_SIZE * l);
            } else if k < first.len() {
                assert(all[k] == first[k]);
                assert(all[l] == restf[l - first.len()]);
                assert(all[k] < e0);
                assert(rest[0].start <= restf[l - first.len()]);
            } else {
                assert(all[k] == restf[k - first.len()] && all[l] == restf[l - first.len()]);
            }
        }
    }
}

/// Checks that a memory map is well formed: ordered, non-overlapping,
/// frame-aligned regions.  Boot code runs this on the map it received
/// before building a frame source from it.
pub fn regions_well_formed(memory_map: &Vec<MemoryRegion>) -> (b: bool)
    ensures
        b == regions_wf(memory_map@),
{
    let mut i: usize = 0;
    while i < memory_map.len()
        invariant
            i <= memory_map@.len(),
            forall|k: int|
                0 <= k < i ==> {
                    &&& (#[trigger] memory_map@[k]).start <= memory_map@[k].end
                    &&& memory_map@[k].start as int % FRAME_SIZE as int == 0
                    &&& memory_map@[k].end as int % FRAME_SIZE as int == 0
                },
            forall|k: int, l: int|
                #![trigger memory_map@[k], memory_map@[l]]
                0 <= k < l < i ==> memory_map@[k].end <= memory_map@[l].start,
        decreases memory_map@.len() - i,
    {
        let r = memory_map[i];
        if r.start > r.end || r.start % FRAME_SIZE != 0 || r.end % FRAME_SIZE != 0 {
            proof {
                assert(!regions_wf(memory_map@)) by {
                    if regions_wf(memory_map@) {
                        assert(memory_map@[i as int].start <= memory_map@[i as int].end);
                        assert(memory_map@[i as int].start as int % FRAME_SIZE as int == 0);
                        assert(memory_map@[i as int].end as int % FRAME_SIZE as int == 0);
                        assert(false);
                    }
                }
            }
            return false;
        }
        if i > 0 && memory_map[i - 1].end > r.start {
            proof {
                assert(!regions_wf(memory_map@)) by {
                    if regions_wf(memory_map@) {
                        assert(memory_map@[i - 1].end <= memory_map@[i as int].start);
                        assert(false);
                    }
                }
            }
            return false;
        }
        proof {
            assert forall|k: int| 0 <= k < i implies (#[trigger] memory_map@[k]).end
                <= memory_map@[i as int].start by {
                if k < i - 1 {
                    assert(memory_map@[k].end <= memory_map@[i - 1].start);
                }
            }
        }
        i = i + 1;
    }
    true
}

/// A frame source that owns no memory and never yields a frame.
pub struct EmptyFrameAllocator;

impl EmptyFrameAllocator {
    /// Always reports exhaustion.
    pub fn allocate_frame(&mut self) -> (r: Option<u64>)
        ensures
            r is None,
    {
        None
    }
}

/// Yields the usable frames of the boot memory map at a monotonically
/// advancing cursor.  There is no deallocation: a frame, once yielded,
/// is never yielded again.
pub struct BootInfoFrameAllocator {
    pub memory_map: Vec<MemoryRegion>,
    pub next_frame: usize,
}

impl BootInfoFrameAllocator {
    /// The memory map is well formed.
    pub open spec fn wf(self) -> bool {
        regions_wf(self.memory_map@)
    }

    /// The usable frames this source steps through.
    pub open spec fn frames(self) -> Seq<u64> {
        spec_usable_frames(self.memory_map@)
    }

    /// Builds a frame source over the given memory map.  The map must be
    /// well formed — `regions_well_formed` checks exactly this — and its
    /// usable regions must really be unused.
    pub fn init(memory_map: Vec<MemoryRegion>) -> (r: BootInfoFrameAllocator)
        requires
            regions_wf(memory_map@),
        ensures
            r.memory_map == memory_map,
            r.next_frame == 0,
            r.wf(),
    {
        BootInfoFrameAllocator { memory_map, next_frame: 0 }
    }

    /// Yields the frame at the cursor, or `None` once the usable frames
    /// are exhausted.  The cursor advances on every call regardless of
    /// the outcome.
    pub fn allocate_frame(&mut self) -> (r: Option<u64>)
        requires
            old(self).wf(),
            old(self).next_frame < usize::MAX,
        ensures
            final(self).wf(),
            final(self).memory_map == old(self).memory_map,
            final(self).next_frame == old(self).next_frame + 1,
            match r {
                Some(f) => {
                    &&& old(self).next_frame < old(self).frames().len()
                    &&& f == old(self).frames()[old(self).next_frame as int]
                    &&& f as int % FRAME_SIZE as int == 0
                },
                None => old(self).next_frame >= old(self).frames().len(),
            },
    {
        let frame = nth_usable_frame(&self.memory_map, self.next_frame);
        self.next_frame = self.next_frame + 1;
        proof {
            if frame is Some {
                lemma_usable_frames_wf(self.memory_map@);
            }
        }
        frame
    }
}

/// The `n`th usable frame of the memory map, if there are that many.
fn nth_usable_frame(memory_map: &Vec<MemoryRegion>, n: usize) -> (r: Option<u64>)
    requires
        regions_wf(memory_map@),
    ensures
        match r {
            Some(f) => n < spec_usable_frames(memory_map@).len() && f == spec_usable_frames(
                memory_map@,
            )[n as int],
            None => n >= spec_usable_frames(memory_map@).len(),
        },
{
    let ghost full = spec_usable_frames(memory_map@);
    proof {
        assert(memory_map@.skip(0) =~= memory_map@);
    }
    let mut idx: usize = n;
    let mut i: usize = 0;
    while i < memory_map.len()
        invariant
            i <= memory_map@.len(),
            idx <= n,
            regions_wf(memory_map@),
            full == spec_usable_frames(memory_map@),
            full.skip(n - idx) == spec_usable_frames(memory_map@.skip(i as int)),
            n - idx == full.len() - spec_usable_frames(memory_map@.skip(i as int)).len(),
        decreases memory_map@.len() - i,
    {
        let r = memory_map[i];
        let ghost rem = spec_usable_frames(memory_map@.skip(i as int));
        proof {
            assert(memory_map@.skip(i as int)[0] == memory_map@[i as int]);
            assert(memory_map@.skip(i as int).skip(1) =~= memory_map@.skip(i + 1));
        }
        if matches!(r.kind, MemoryRegionKind::Usable) {
            let count = (r.end - r.start) / FRAME_SIZE;
            if (idx as u64) < count {
                proof {
                    vstd::arithmetic::div_mod::lemma_fundamental_div_mod(
                        (r.end - r.start) as int,
                        FRAME_SIZE as int,
                    );
                    assert(FRAME_SIZE * (idx as int) <= FRAME_SIZE * (count - 1));
                    assert(rem[idx as int] == frames_of_region(r)[idx as int]);
                    assert(full.skip(n - idx)[idx as int] == full[n as int]);
                }
                return Some(r.start + FRAME_SIZE * (idx as u64));
            }
            proof {
                assert(frames_of_region(r).len() == count);
                assert(full.skip(n - idx).skip(count as int) =~= full.skip(
                    n - (idx - count as usize),
                ));
                assert(rem.skip(count as int) =~= spec_usable_frames(memory_map@.skip(i + 1)));
            }
            idx = idx - (count as usize);
        } else {
            proof {
                assert(frames_of_region(r).len() == 0);
                assert(rem =~= spec_usable_frames(memory_map@.skip(i + 1)));
            }
        }
        i = i + 1;
    }
    proof {
        assert(spec_usable_frames(memory_map@.skip(memory_map@.len() as int)).len() == 0);
    }
    None
}

/// No two successful frame allocations denote the same physical frame:
/// the usable frames are pairwise distinct, and `allocate_frame` hands
/// out the frame at a cursor that only ever advances.
pub proof fn lemma_frames_distinct(fa: BootInfoFrameAllocator)
    requires
        fa.wf(),
    ensures
        forall|k: int, l: int|
            #![trigger fa.frames()[k], fa.frames()[l]]
            0 <= k < l < fa.frames().len() ==> fa.frames()[k] != fa.frames()[l],
{
    lemma_usable_frames_wf(fa.memory_map@);
}

} // verus!
