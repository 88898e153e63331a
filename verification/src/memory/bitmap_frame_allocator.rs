//! Bitmap frame allocator.
//!
//! Represents each frame of physical memory as one bit (1 = in use, 0 = free)
//! and keeps counters to check against memory leaks.

use crate::constants::{FRAME_SIZE, FULL_BITMAP_ENTRY};
use crate::memory::MemoryRegion;
use vstd::prelude::*;

verus! {

/// Largest number of frames the allocator tracks: every frame's start
/// address must fit in a `u64`.
pub open spec fn max_tracked_frames() -> nat {
    0x10_0000_0000_0000
}

/// Whether bit `k` of `w` is set.
pub open spec fn bit_set(w: u64, k: u64) -> bool {
    (w >> k) & 1 == 1
}

/// The number of `false` entries (free frames) in `s`.
pub open spec fn count_free(s: Seq<bool>) -> nat
    decreases s.len(),
{
    if s.len() == 0 {
        0
    } else {
        count_free(s.drop_last()) + if s.last() {
            0nat
        } else {
            1nat
        }
    }
}

/// Whether `j` lies in the cyclic range that starts at `start` and stops
/// just before `end`, among indices below `total`.
pub open spec fn in_cyclic_range(start: int, end: int, j: int, total: int) -> bool {
    if start <= end {
        start <= j < end
    } else {
        (start <= j < total) || (0 <= j < end)
    }
}

/// Whether a region of the memory map frees frame `i`: it is usable and `i`
/// lies among the whole frames from its base to its end.
pub open spec fn region_frees(r: MemoryRegion, i: int) -> bool {
    r.usable && r.base as int / 4096 <= i < (r.base + r.length) / 4096
}

/// Whether some region of the memory map frees frame `i`.
pub open spec fn freed_by(regions: Seq<MemoryRegion>, i: int) -> bool {
    exists|k: int| 0 <= k < regions.len() && region_frees(#[trigger] regions[k], i)
}

/// Whether `i` is the frame of one of the given frame addresses.
pub open spec fn listed_frame(frames: Seq<u64>, i: int) -> bool {
    exists|m: int| 0 <= m < frames.len() && (#[trigger] frames[m]) / 4096 == i
}

/// The end of the highest usable region of the memory map.
pub open spec fn top_of_usable(regions: Seq<MemoryRegion>) -> nat
    decreases regions.len(),
{
    if regions.len() == 0 {
        0
    } else {
        let rest = top_of_usable(regions.drop_last());
        let r = regions.last();
        if r.usable && r.base + r.length > rest {
            (r.base + r.length) as nat
        } else {
            rest
        }
    }
}

/// Number of frames the allocator covers for a memory map: enough to reach
/// the end of the highest usable region.
pub open spec fn frames_for(regions: Seq<MemoryRegion>) -> nat {
    (top_of_usable(regions) + 4095) as nat / 4096
}

/// Which frames are in use right after `init`: every frame outside the
/// usable regions, and every frame handed over as already allocated.
pub open spec fn initial_use(regions: Seq<MemoryRegion>, frames: Seq<u64>) -> Seq<bool> {
    Seq::new(frames_for(regions), |i: int| !freed_by(regions, i) || listed_frame(frames, i))
}

pub proof fn lemma_top_of_usable(regions: Seq<MemoryRegion>)
    requires
        forall|k: int| 0 <= k < regions.len() ==> (#[trigger] regions[k]).base + regions[k].length <= u64::MAX,
    ensures
        top_of_usable(regions) <= u64::MAX,
        forall|k: int| 0 <= k < regions.len() && (#[trigger] regions[k]).usable ==> regions[k].base + regions[k].length <= top_of_usable(regions),
    decreases regions.len(),
{
    if regions.len() > 0 {
        let d = regions.drop_last();
        assert forall|k: int| 0 <= k < d.len() implies (#[trigger] d[k]).base + d[k].length <= u64::MAX by {
            assert(d[k] == regions[k]);
        }
        lemma_top_of_usable(d);
        assert forall|k: int| 0 <= k < regions.len() && (#[trigger] regions[k]).usable implies regions[k].base + regions[k].length <= top_of_usable(regions) by {
            if k < regions.len() - 1 {
                assert(d[k] == regions[k]);
            }
        }
    }
}

/// The number of frames the allocator covers for `memory_map`, as
/// `frames_for` says: enough to reach the end of the highest usable region.
pub fn frames_for_map(memory_map: &Vec<MemoryRegion>) -> (r: u64)
    requires
        forall|k: int| 0 <= k < memory_map@.len() ==> (#[trigger] memory_map@[k]).base + memory_map@[k].length <= u64::MAX,
    ensures
        r == frames_for(memory_map@),
{
    let ghost regions = memory_map@;
    proof {
        lemma_top_of_usable(regions);
    }
    // The top of usable physical memory.
    let mut true_end: u64 = 0;
    let mut k: usize = 0;
    while k < memory_map.len()
        invariant
            k <= memory_map@.len(),
            regions == memory_map@,
            forall|j: int| 0 <= j < regions.len() ==> (#[trigger] regions[j]).base + regions[j].length <= u64::MAX,
            true_end == top_of_usable(regions.take(k as int)),
        decreases memory_map.len() - k,
    {
        let entry = memory_map[k];
        proof {
            assert(regions.take(k as int + 1).drop_last() =~= regions.take(k as int));
        }
        if entry.usable {
            let end_addr = entry.base + entry.length;
            if end_addr > true_end {
                true_end = end_addr;
            }
        }
        k = k + 1;
    }
    proof {
        assert(regions.take(k as int) =~= regions);
    }
    let total: u64 = true_end / 4096 + if true_end % 4096 != 0 { 1 } else { 0 };
    assert(total == frames_for(regions));
    total
}

/// Holds the bitmap and the counters of the allocator.
pub struct BitmapFrameAllocator {
    /// Total frames in physical memory that the bitmap covers.
    total_frames: usize,
    /// Number of those frames that are free.
    free_frames: usize,
    /// Index of the next frame to look at for allocation.
    to_allocate: usize,
    /// One bit per frame.
    bitmap: Vec<u64>,
    /// How many allocations the allocator has done.
    allocate_count: usize,
    /// How many frees the allocator has done.
    free_count: usize,
    /// How many frames were free when the allocator was set up.
    initial_free: Ghost<nat>,
}

pub proof fn lemma_bit_after_set(w: u64, k: u64, j: u64)
    requires
        k < 64,
        j < 64,
    ensures
        bit_set(w | (1u64 << k), j) == (j == k || bit_set(w, j)),
{
    assert(((w | (1u64 << k)) >> j) & 1 == 1 <==> (j == k || (w >> j) & 1 == 1)) by (bit_vector)
        requires
            k < 64,
            j < 64,
    ;
}

pub proof fn lemma_bit_after_clear(w: u64, k: u64, j: u64)
    requires
        k < 64,
        j < 64,
    ensures
        bit_set(w & !(1u64 << k), j) == (j != k && bit_set(w, j)),
{
    assert(((w & !(1u64 << k)) >> j) & 1 == 1 <==> (j != k && (w >> j) & 1 == 1)) by (bit_vector)
        requires
            k < 64,
            j < 64,
    ;
}

pub proof fn lemma_bit_test(w: u64, k: u64)
    requires
        k < 64,
    ensures
        ((w & (1u64 << k)) != 0) == bit_set(w, k),
{
    assert(((w & (1u64 << k)) != 0) <==> ((w >> k) & 1 == 1)) by (bit_vector)
        requires
            k < 64,
    ;
}

pub proof fn lemma_full_word(k: u64)
    requires
        k < 64,
    ensures
        bit_set(0xFFFF_FFFF_FFFF_FFFFu64, k),
{
    assert((0xFFFF_FFFF_FFFF_FFFFu64 >> k) & 1 == 1) by (bit_vector)
        requires
            k < 64,
    ;
}

/// Changing one entry changes the number of free entries by at most one.
pub proof fn lemma_count_free_update(s: Seq<bool>, i: int, v: bool)
    requires
        0 <= i < s.len(),
    ensures
        count_free(s.update(i, v)) + (if s[i] {
            0int
        } else {
            1int
        }) == count_free(s) + (if v {
            0int
        } else {
            1int
        }),
    decreases s.len(),
{
    let t = s.update(i, v);
    if i == s.len() - 1 {
        assert(t.drop_last() =~= s.drop_last());
    } else {
        assert(t.drop_last() =~= s.drop_last().update(i, v));
        lemma_count_free_update(s.drop_last(), i, v);
    }
}

pub proof fn lemma_count_free_bound(s: Seq<bool>)
    ensures
        count_free(s) <= s.len(),
    decreases s.len(),
{
    if s.len() > 0 {
        lemma_count_free_bound(s.drop_last());
    }
}

/// Nothing counted means no free entry.
pub proof fn lemma_count_free_zero(s: Seq<bool>)
    requires
        count_free(s) == 0,
    ensures
        forall|i: int| 0 <= i < s.len() ==> s[i],
    decreases s.len(),
{
    if s.len() > 0 {
        lemma_count_free_zero(s.drop_last());
        assert forall|i: int| 0 <= i < s.len() implies s[i] by {
            if i < s.len() - 1 {
                assert(s.drop_last()[i] == s[i]);
            }
        }
    }
}

/// With no free entry, nothing is counted.
pub proof fn lemma_count_free_none(s: Seq<bool>)
    requires
        forall|i: int| 0 <= i < s.len() ==> s[i],
    ensures
        count_free(s) == 0,
    decreases s.len(),
{
    if s.len() > 0 {
        lemma_count_free_none(s.drop_last());
    }
}

/// All entries `true`: nothing is free.
pub proof fn lemma_count_free_all_used(n: nat)
    ensures
        count_free(Seq::new(n, |i: int| true)) == 0,
{
    lemma_count_free_none(Seq::new(n, |i: int| true));
}

impl BitmapFrameAllocator {
    /// Whether frame `i` is marked in use.
    pub closed spec fn frame_used(&self, i: int) -> bool {
        bit_set(self.bitmap@[i / 64], (i % 64) as u64)
    }

    /// Which frames are in use, one entry per frame.
    pub closed spec fn used(&self) -> Seq<bool> {
        Seq::new(self.total_frames as nat, |i: int| self.frame_used(i))
    }

    pub closed spec fn spec_total_frames(&self) -> nat {
        self.total_frames as nat
    }

    pub closed spec fn spec_free_frames(&self) -> nat {
        self.free_frames as nat
    }

    pub closed spec fn spec_to_allocate(&self) -> nat {
        self.to_allocate as nat
    }

    pub closed spec fn spec_allocate_count(&self) -> nat {
        self.allocate_count as nat
    }

    pub closed spec fn spec_free_count(&self) -> nat {
        self.free_count as nat
    }

    /// How many frames were free when the allocator was set up.
    pub closed spec fn spec_initial_free(&self) -> nat {
        self.initial_free@
    }

    /// The counters account for every change since set-up: the free frames
    /// and the allocations together equal the frames free at set-up and
    /// the frees together.
    pub closed spec fn counters_ok(&self) -> bool {
        self.free_frames + self.allocate_count == self.initial_free@ + self.free_count
    }

    /// The allocator's invariant: the bitmap has a word for every 64 frames,
    /// the free counter is the number of free frames and the search position
    /// is a frame.
    pub closed spec fn wf(&self) -> bool {
        &&& self.total_frames <= max_tracked_frames()
        &&& self.total_frames <= self.bitmap@.len() * 64
        &&& self.free_frames == count_free(self.used())
        &&& (self.total_frames > 0 ==> self.to_allocate < self.total_frames)
        &&& (self.total_frames == 0 ==> self.to_allocate == 0)
    }

    proof fn lemma_word_index(&self, i: int)
        requires
            self.wf(),
            0 <= i < self.total_frames,
        ensures
            0 <= i / 64 < self.bitmap@.len(),
            0 <= i % 64 < 64,
    {
    }

    /// Builds the allocator for a memory map: frames up to the end of the
    /// highest usable region are tracked, those inside usable regions start
    /// free, and the frames at `initial_frames` (already handed out by the boot
    /// allocator) start in use. The search for a free frame starts at the
    /// number of those frames (at 0 when that is not a frame).
    pub fn init(memory_map: &Vec<MemoryRegion>, initial_frames: &Vec<u64>) -> (r: Self)
        requires
            forall|k: int| 0 <= k < memory_map@.len() ==> (#[trigger] memory_map@[k]).base + memory_map@[k].length <= u64::MAX,
            forall|m: int| 0 <= m < initial_frames@.len() ==> (#[trigger] initial_frames@[m]) / 4096 < frames_for(memory_map@),
            frames_for(memory_map@) <= usize::MAX,
        ensures
            r.wf(),
            r.spec_total_frames() == frames_for(memory_map@),
            r.used() == initial_use(memory_map@, initial_frames@),
            r.spec_free_frames() == count_free(initial_use(memory_map@, initial_frames@)),
            r.spec_to_allocate() == if initial_frames@.len() < frames_for(memory_map@) {
                initial_frames@.len()
            } else {
                0
            },
            r.spec_allocate_count() == 0,
            r.spec_free_count() == 0,
            r.counters_ok(),
            r.spec_initial_free() == r.spec_free_frames(),
    {
        let ghost regions = memory_map@;
        proof {
            lemma_top_of_usable(regions);
        }
        let total_frames_u64 = frames_for_map(memory_map);
        let ghost true_end = top_of_usable(regions);
        let total_frames = total_frames_u64 as usize;
        let bitmap_size = total_frames / 64 + if total_frames % 64 != 0 { 1 } else { 0 };
        let bitmap = vec![FULL_BITMAP_ENTRY; bitmap_size];
        let to_allocate = if initial_frames.len() < total_frames {
            initial_frames.len()
        } else {
            0
        };
        let mut allocator = BitmapFrameAllocator {
            total_frames,
            free_frames: 0,
            to_allocate,
            bitmap,
            allocate_count: 0,
            free_count: 0,
            initial_free: Ghost(0),
        };
        proof {
            assert forall|i: int| 0 <= i < total_frames implies allocator.frame_used(i) by {
                lemma_full_word((i % 64) as u64);
            }
            assert(allocator.used() =~= Seq::new(total_frames as nat, |i: int| true));
            lemma_count_free_all_used(total_frames as nat);
        }
        // Free the usable regions.
        let mut k: usize = 0;
        while k < memory_map.len()
            invariant
                k <= memory_map@.len(),
                regions == memory_map@,
                forall|j: int| 0 <= j < regions.len() ==> (#[trigger] regions[j]).base + regions[j].length <= u64::MAX,
                forall|j: int| 0 <= j < regions.len() && (#[trigger] regions[j]).usable ==> regions[j].base + regions[j].length <= true_end,
                allocator.wf(),
                allocator.total_frames == total_frames,
                total_frames == frames_for(regions),
                true_end == top_of_usable(regions),
                allocator.to_allocate == to_allocate,
                allocator.allocate_count == 0,
                allocator.free_count == 0,
                forall|i: int| 0 <= i < total_frames ==> (#[trigger] allocator.used()[i]) == !freed_by(regions.take(k as int), i),
            decreases memory_map.len() - k,
        {
            let entry = memory_map[k];
            let ghost before = allocator.used();
            if entry.usable {
                allocator.free_region(entry.base, entry.length);
            }
            proof {
                assert forall|i: int| 0 <= i < total_frames implies (#[trigger] allocator.used()[i]) == !freed_by(regions.take(k as int + 1), i) by {
                    let t = regions.take(k as int + 1);
                    if freed_by(regions.take(k as int), i) {
                        let w = choose|w: int| 0 <= w < k && region_frees(#[trigger] regions.take(k as int)[w], i);
                        assert(t[w] == regions.take(k as int)[w]);
                    }
                    if freed_by(t, i) {
                        let w = choose|w: int| 0 <= w < k + 1 && region_frees(#[trigger] t[w], i);
                        if w < k {
                            assert(regions.take(k as int)[w] == t[w]);
                        }
                    }
                    if region_frees(entry, i) {
                        assert(t[k as int] == entry);
                    }
                }
            }
            k = k + 1;
        }
        proof {
            assert(regions.take(k as int) =~= regions);
        }
        // Mark the frames already in use.
        let mut m: usize = 0;
        while m < initial_frames.len()
            invariant
                m <= initial_frames@.len(),
                regions == memory_map@,
                forall|j: int| 0 <= j < initial_frames@.len() ==> (#[trigger] initial_frames@[j]) / 4096 < frames_for(regions),
                allocator.wf(),
                allocator.total_frames == total_frames,
                total_frames == frames_for(regions),
                allocator.to_allocate == to_allocate,
                allocator.allocate_count == 0,
                allocator.free_count == 0,
                forall|i: int| 0 <= i < total_frames ==> (#[trigger] allocator.used()[i]) == (!freed_by(regions, i) || listed_frame(initial_frames@.take(m as int), i)),
            decreases initial_frames.len() - m,
        {
            let addr = initial_frames[m];
            let index = (addr / 4096) as usize;
            allocator.set_bit(index);
            proof {
                let t = initial_frames@.take(m as int + 1);
                assert forall|i: int| 0 <= i < total_frames implies (#[trigger] allocator.used()[i]) == (!freed_by(regions, i) || listed_frame(t, i)) by {
                    if listed_frame(initial_frames@.take(m as int), i) {
                        let w = choose|w: int| 0 <= w < m && (#[trigger] initial_frames@.take(m as int)[w]) / 4096 == i;
                        assert(t[w] == initial_frames@.take(m as int)[w]);
                    }
                    if listed_frame(t, i) {
                        let w = choose|w: int| 0 <= w < m + 1 && (#[trigger] t[w]) / 4096 == i;
                        if w < m {
                            assert(initial_frames@.take(m as int)[w] == t[w]);
                        }
                    }
                    if i == index {
                        assert(t[m as int] == addr);
                    }
                }
            }
            m = m + 1;
        }
        proof {
            assert(initial_frames@.take(m as int) =~= initial_frames@);
            assert(allocator.used() =~= initial_use(regions, initial_frames@));
        }
        let ghost pre = allocator;
        allocator.initial_free = Ghost(allocator.free_frames as nat);
        proof {
            assert(allocator.used() =~= pre.used());
        }
        allocator
    }

    /// Marks the frames that lie whole in [base, base + length) as free.
    fn free_region(&mut self, base: u64, length: u64)
        requires
            old(self).wf(),
            base + length <= u64::MAX,
            (base + length) / 4096 <= old(self).total_frames,
        ensures
            final(self).initial_free == old(self).initial_free,
            final(self).wf(),
            forall|i: int| 0 <= i < final(self).total_frames ==> (#[trigger] final(self).used()[i]) == (old(self).used()[i] && !(base as int / 4096 <= i < (base + length) / 4096)),
            final(self).total_frames == old(self).total_frames,
            final(self).to_allocate == old(self).to_allocate,
            final(self).allocate_count == old(self).allocate_count,
            final(self).free_count == old(self).free_count,
    {
        let start_frame = (base / 4096) as usize;
        let end_frame = ((base + length) / 4096) as usize;
        let ghost before = self.used();
        let mut frame_index = start_frame;
        while frame_index < end_frame
            invariant
                start_frame <= frame_index,
                frame_index <= end_frame || frame_index == start_frame,
                end_frame <= self.total_frames,
                self.wf(),
                self.total_frames == old(self).total_frames,
                self.to_allocate == old(self).to_allocate,
                self.initial_free == old(self).initial_free,
                self.allocate_count == old(self).allocate_count,
                self.initial_free == old(self).initial_free,
                self.free_count == old(self).free_count,
                before == old(self).used(),
                start_frame == base / 4096,
                end_frame == (base + length) / 4096,
                forall|i: int| 0 <= i < self.total_frames ==> (#[trigger] self.used()[i]) == (before[i] && !(start_frame <= i < frame_index)),
            decreases end_frame - frame_index,
        {
            let ghost mid = self.used();
            self.clear_bit_init(frame_index);
            proof {
                assert forall|i: int| 0 <= i < self.total_frames implies (#[trigger] self.used()[i]) == (before[i] && !(start_frame <= i < frame_index + 1)) by {
                    assert(self.used()[i] == mid.update(frame_index as int, false)[i]);
                }
            }
            frame_index = frame_index + 1;
        }
    }

    /// Whether the frame starting at `addr` is in use.
    pub fn is_frame_used(&self, addr: u64) -> (r: bool)
        requires
            self.wf(),
            addr / 4096 < self.spec_total_frames(),
        ensures
            r == self.used()[addr as int / 4096],
    {
        self.is_bit_set((addr / 4096) as usize)
    }

    /// Marks the frame starting at `addr` as in use.
    fn mark_frame_used(&mut self, addr: u64)
        requires
            old(self).wf(),
            addr / 4096 < old(self).total_frames,
        ensures
            final(self).initial_free == old(self).initial_free,
            final(self).wf(),
            final(self).used() == old(self).used().update(addr as int / 4096, true),
            final(self).total_frames == old(self).total_frames,
            final(self).to_allocate == old(self).to_allocate,
            final(self).allocate_count == old(self).allocate_count,
            final(self).free_count == old(self).free_count,
    {
        self.set_bit((addr / 4096) as usize);
    }

    /// Marks the frame starting at `addr`, which must be in use, as free.
    fn mark_frame_free(&mut self, addr: u64)
        requires
            old(self).wf(),
            addr / 4096 < old(self).total_frames,
            old(self).used()[addr as int / 4096],
        ensures
            final(self).initial_free == old(self).initial_free,
            final(self).wf(),
            final(self).used() == old(self).used().update(addr as int / 4096, false),
            final(self).free_frames == old(self).free_frames + 1,
            final(self).total_frames == old(self).total_frames,
            final(self).to_allocate == old(self).to_allocate,
            final(self).allocate_count == old(self).allocate_count,
            final(self).free_count == old(self).free_count,
    {
        self.clear_bit((addr / 4096) as usize);
    }

    /// The number of allocations done so far.
    pub fn get_allocate_count(&self) -> (r: usize)
        ensures
            r == self.spec_allocate_count(),
    {
        self.allocate_count
    }

    /// The number of frees done so far.
    pub fn get_free_count(&self) -> (r: usize)
        ensures
            r == self.spec_free_count(),
    {
        self.free_count
    }

    /// The number of free frames.
    pub fn free_frames(&self) -> (r: usize)
        ensures
            r == self.spec_free_frames(),
    {
        self.free_frames
    }

    /// The number of frames the bitmap covers.
    pub fn total_frames(&self) -> (r: usize)
        ensures
            r == self.spec_total_frames(),
    {
        self.total_frames
    }

    /// The bitmap words, one bit per frame, lowest frame in the lowest bit.
    pub fn bitmap_words(&self) -> (r: &Vec<u64>)
        ensures
            forall|i: int| 0 <= i < self.spec_total_frames() ==> (#[trigger] self.used()[i]) == bit_set(r@[i / 64], (i % 64) as u64),
    {
        &self.bitmap
    }

    /// Allocates a frame: the first free frame at or after the search
    /// position, wrapping around to frame 0. Returns its start address, or
    /// `None` when no frame is free.
    pub fn allocate_frame(&mut self) -> (r: Option<u64>)
        requires
            old(self).wf(),
            old(self).spec_allocate_count() < usize::MAX,
        ensures
            final(self).wf(),
            final(self).spec_total_frames() == old(self).spec_total_frames(),
            final(self).spec_free_count() == old(self).spec_free_count(),
            final(self).spec_initial_free() == old(self).spec_initial_free(),
            old(self).counters_ok() ==> final(self).counters_ok(),
            r is None <==> old(self).spec_free_frames() == 0,
            r is None <==> forall|j: int| 0 <= j < old(self).spec_total_frames() ==> #[trigger] old(self).used()[j],
            r is None ==> final(self).used() == old(self).used()
                && final(self).spec_free_frames() == old(self).spec_free_frames()
                && final(self).spec_to_allocate() == old(self).spec_to_allocate()
                && final(self).spec_allocate_count() == old(self).spec_allocate_count(),
            r matches Some(addr) ==> {
                let i = addr as int / 4096;
                &&& addr % 4096 == 0
                &&& i < old(self).spec_total_frames()
                &&& !old(self).used()[i]
                &&& forall|j: int| #![trigger old(self).used()[j]] in_cyclic_range(old(self).spec_to_allocate() as int, i as int, j, old(self).spec_total_frames() as int) ==> old(self).used()[j]
                &&& final(self).used() == old(self).used().update(i as int, true)
                &&& final(self).spec_free_frames() == old(self).spec_free_frames() - 1
                &&& final(self).spec_to_allocate() == (i + 1) % (old(self).spec_total_frames() as int)
                &&& final(self).spec_allocate_count() == old(self).spec_allocate_count() + 1
            },
    {
        proof {
            if self.free_frames == 0 {
                lemma_count_free_zero(self.used());
            } else if forall|j: int| 0 <= j < self.total_frames ==> #[trigger] self.used()[j] {
                lemma_count_free_none(self.used());
            }
        }
        if self.free_frames == 0 {
            return None;
        }
        proof {
            lemma_count_free_bound(self.used());
        }
        let start_index = self.to_allocate;
        let ghost start = self.to_allocate as int;
        let ghost total = self.total_frames as int;
        let ghost before = self.used();
        let mut wrapped = false;
        loop
            invariant_except_break
                self.wf(),
                self.free_frames > 0,
                self.used() == before,
                self.total_frames == total,
                total > 0,
                0 <= start < total,
                0 <= self.to_allocate < total,
                self.allocate_count == old(self).allocate_count,
                self.free_count == old(self).free_count,
                self.free_frames == old(self).free_frames,
                self.initial_free == old(self).initial_free,
                before == old(self).used(),
                start == old(self).to_allocate,
                start == start_index,
                !wrapped ==> start <= self.to_allocate,
                wrapped ==> self.to_allocate <= start,
                self.allocate_count < usize::MAX,
                forall|j: int| #![trigger before[j]] (if wrapped {
                    (start <= j < total) || (0 <= j < self.to_allocate)
                } else {
                    start <= j < self.to_allocate
                }) ==> before[j],
            ensures
                self.wf(),
            decreases (if wrapped { 0int } else { total }) + start - self.to_allocate,
        {
            if wrapped && self.to_allocate == start_index {
                proof {
                    assert forall|i: int| 0 <= i < before.len() implies before[i] by {
                        assert((start <= i < total) || (0 <= i < start));
                    }
                    lemma_count_free_none(before);
                }
                assert(false);
            }
            let index = self.to_allocate;
            if !self.is_bit_set(index) {
                self.set_bit(index);
                let ghost after = self.used();
                let addr = (index as u64) * 4096;
                self.to_allocate = if index + 1 == self.total_frames { 0 } else { index + 1 };
                self.allocate_count = self.allocate_count + 1;
                proof {
                    assert(self.used() =~= after);
                    assert(addr / 4096 == index);
                    if index + 1 == total {
                        vstd::arithmetic::div_mod::lemma_mod_self_0(total);
                    } else {
                        vstd::arithmetic::div_mod::lemma_small_mod((index + 1) as nat, total as nat);
                    }
                    assert(self.to_allocate == (index + 1) % total);
                    assert(self.free_frames == old(self).free_frames - 1);
                    assert(self.used() == before.update(index as int, true));
                }
                return Some(addr);
            }
            let ghost after = self.used();
            if index + 1 == self.total_frames {
                self.to_allocate = 0;
                wrapped = true;
            } else {
                self.to_allocate = index + 1;
            }
            assert(self.used() =~= after);
        }
    }

    /// Frees the frame starting at `addr`, which must be in use.
    pub fn deallocate_frame(&mut self, addr: u64)
        requires
            old(self).wf(),
            addr / 4096 < old(self).spec_total_frames(),
            old(self).used()[addr as int / 4096],
            old(self).spec_free_count() < usize::MAX,
        ensures
            final(self).wf(),
            final(self).used() == old(self).used().update(addr as int / 4096, false),
            final(self).spec_free_frames() == old(self).spec_free_frames() + 1,
            final(self).spec_free_count() == old(self).spec_free_count() + 1,
            final(self).spec_total_frames() == old(self).spec_total_frames(),
            final(self).spec_to_allocate() == old(self).spec_to_allocate(),
            final(self).spec_allocate_count() == old(self).spec_allocate_count(),
            final(self).spec_initial_free() == old(self).spec_initial_free(),
            old(self).counters_ok() ==> final(self).counters_ok(),
    {
        self.mark_frame_free(addr);
        let ghost after = self.used();
        self.free_count = self.free_count + 1;
        assert(self.used() =~= after);
    }

    /// Sets bit `frame_index` to 1 (in use); the free counter drops when the
    /// frame was free.
    fn set_bit(&mut self, frame_index: usize)
        requires
            old(self).wf(),
            frame_index < old(self).total_frames,
        ensures
            final(self).initial_free == old(self).initial_free,
            final(self).wf(),
            final(self).used() == old(self).used().update(frame_index as int, true),
            final(self).free_frames == old(self).free_frames - if old(self).used()[frame_index as int] {
                0int
            } else {
                1int
            },
            final(self).total_frames == old(self).total_frames,
            final(self).to_allocate == old(self).to_allocate,
            final(self).allocate_count == old(self).allocate_count,
            final(self).free_count == old(self).free_count,
            final(self).bitmap@.len() == old(self).bitmap@.len(),
    {
        proof {
            self.lemma_word_index(frame_index as int);
        }
        let byte_index = frame_index / 64;
        let bit_index = frame_index % 64;
        let was_set = self.is_bit_set(frame_index);
        let mask: u64 = 1u64 << (bit_index as u64);
        let ghost before = self.used();
        let word = self.bitmap[byte_index];
        self.bitmap.set(byte_index, word | mask);
        proof {
            assert forall|i: int| 0 <= i < self.total_frames implies self.frame_used(i) == (
            if i == frame_index {
                true
            } else {
                before[i]
            }) by {
                if i / 64 == byte_index as int {
                    lemma_bit_after_set(word, bit_index as u64, (i % 64) as u64);
                }
            }
            assert(self.used() =~= before.update(frame_index as int, true));
            lemma_count_free_update(before, frame_index as int, true);
        }
        let ghost after = self.used();
        if !was_set {
            self.free_frames = self.free_frames - 1;
        }
        assert(self.used() =~= after);
    }

    /// Clears bit `frame_index` to 0 (free); the frame must be in use.
    fn clear_bit(&mut self, frame_index: usize)
        requires
            old(self).wf(),
            frame_index < old(self).total_frames,
            old(self).used()[frame_index as int],
        ensures
            final(self).initial_free == old(self).initial_free,
            final(self).wf(),
            final(self).used() == old(self).used().update(frame_index as int, false),
            final(self).free_frames == old(self).free_frames + 1,
            final(self).total_frames == old(self).total_frames,
            final(self).to_allocate == old(self).to_allocate,
            final(self).allocate_count == old(self).allocate_count,
            final(self).free_count == old(self).free_count,
    {
        self.clear_bit_init(frame_index);
    }

    /// Clears bit `frame_index` to 0 (free) whatever it held; the free counter
    /// grows when the frame was in use.
    fn clear_bit_init(&mut self, frame_index: usize)
        requires
            old(self).wf(),
            frame_index < old(self).total_frames,
        ensures
            final(self).initial_free == old(self).initial_free,
            final(self).wf(),
            final(self).used() == old(self).used().update(frame_index as int, false),
            final(self).free_frames == old(self).free_frames + if old(self).used()[frame_index as int] {
                1int
            } else {
                0int
            },
            final(self).total_frames == old(self).total_frames,
            final(self).to_allocate == old(self).to_allocate,
            final(self).allocate_count == old(self).allocate_count,
            final(self).free_count == old(self).free_count,
            final(self).bitmap@.len() == old(self).bitmap@.len(),
    {
        proof {
            self.lemma_word_index(frame_index as int);
            lemma_count_free_bound(self.used());
        }
        let byte_index = frame_index / 64;
        let bit_index = frame_index % 64;
        let was_set = self.is_bit_set(frame_index);
        let mask: u64 = 1u64 << (bit_index as u64);
        let ghost before = self.used();
        let word = self.bitmap[byte_index];
        self.bitmap.set(byte_index, word & !mask);
        proof {
            assert forall|i: int| 0 <= i < self.total_frames implies self.frame_used(i) == (
            if i == frame_index {
                false
            } else {
                before[i]
            }) by {
                if i / 64 == byte_index as int {
                    lemma_bit_after_clear(word, bit_index as u64, (i % 64) as u64);
                }
            }
            assert(self.used() =~= before.update(frame_index as int, false));
            lemma_count_free_update(before, frame_index as int, false);
            lemma_count_free_bound(self.used());
        }
        let ghost after = self.used();
        if was_set {
            self.free_frames = self.free_frames + 1;
        }
        assert(self.used() =~= after);
    }

    /// Whether bit `frame_index` is 1 (the frame is in use).
    fn is_bit_set(&self, frame_index: usize) -> (r: bool)
        requires
            self.wf(),
            frame_index < self.total_frames,
        ensures
            r == self.used()[frame_index as int],
    {
        proof {
            self.lemma_word_index(frame_index as int);
        }
        let byte_index = frame_index / 64;
        let bit_index = frame_index % 64;
        let mask: u64 = 1u64 << (bit_index as u64);
        proof {
            lemma_bit_test(self.bitmap@[byte_index as int], bit_index as u64);
        }
        (self.bitmap[byte_index] & mask) != 0
    }
}

/// Allocating a frame and then freeing it gives back the same frames in
/// use and the same number of free frames.
pub proof fn lemma_allocate_then_free_restores(
    a0: BitmapFrameAllocator,
    a1: BitmapFrameAllocator,
    a2: BitmapFrameAllocator,
    addr: u64,
)
    requires
        addr as int / 4096 < a0.spec_total_frames(),
        !a0.used()[addr as int / 4096],
        a1.used() == a0.used().update(addr as int / 4096, true),
        a1.spec_free_frames() == a0.spec_free_frames() - 1,
        a2.used() == a1.used().update(addr as int / 4096, false),
        a2.spec_free_frames() == a1.spec_free_frames() + 1,
    ensures
        a2.used() == a0.used(),
        a2.spec_free_frames() == a0.spec_free_frames(),
{
    assert(a2.used() =~= a0.used());
}

/// However allocations and frees follow one another, the counters keep
/// track of them: the free frames plus the allocations made equal the
/// frames free at set-up plus the frees made, so the frames in use beyond
/// those at set-up are the allocations less the frees.
pub proof fn lemma_counters_track_use(a: BitmapFrameAllocator)
    requires
        a.counters_ok(),
    ensures
        a.spec_free_frames() + a.spec_allocate_count() == a.spec_initial_free() + a.spec_free_count(),
{
}

/// One call on an allocator, as far as its counters go.
#[derive(Debug, Clone, Copy, PartialEq, Eq, Structural)]
pub enum AllocatorCall {
    /// `allocate_frame` returned a frame.
    Allocated,
    /// `allocate_frame` returned `None`.
    Refused,
    /// `deallocate_frame` freed a frame.
    Freed,
}

/// Whether `b` is what call `c` leaves of the counters of `a`, as the
/// contracts of `allocate_frame` and `deallocate_frame` say.
pub open spec fn counted_call(a: BitmapFrameAllocator, b: BitmapFrameAllocator, c: AllocatorCall) -> bool {
    match c {
        AllocatorCall::Allocated => b.spec_allocate_count() == a.spec_allocate_count() + 1
            && b.spec_free_count() == a.spec_free_count(),
        AllocatorCall::Refused => b.spec_allocate_count() == a.spec_allocate_count()
            && b.spec_free_count() == a.spec_free_count(),
        AllocatorCall::Freed => b.spec_allocate_count() == a.spec_allocate_count()
            && b.spec_free_count() == a.spec_free_count() + 1,
    }
}

/// How many of `calls` are `c`.
pub open spec fn calls_of(calls: Seq<AllocatorCall>, c: AllocatorCall) -> nat
    decreases calls.len(),
{
    if calls.len() == 0 {
        0
    } else {
        calls_of(calls.drop_last(), c) + if calls.last() == c { 1nat } else { 0nat }
    }
}

/// After any sequence of calls on an allocator fresh from `init`, the
/// allocation count is the number of allocations that returned a frame,
/// and the free count the number of frees: `states[i + 1]` is the
/// allocator after call `calls[i]` on `states[i]`.
pub proof fn lemma_counts_over_calls(states: Seq<BitmapFrameAllocator>, calls: Seq<AllocatorCall>)
    requires
        states.len() == calls.len() + 1,
        states[0].spec_allocate_count() == 0,
        states[0].spec_free_count() == 0,
        forall|i: int| 0 <= i < calls.len() ==> counted_call(states[i], states[i + 1], #[trigger] calls[i]),
    ensures
        states.last().spec_allocate_count() == calls_of(calls, AllocatorCall::Allocated),
        states.last().spec_free_count() == calls_of(calls, AllocatorCall::Freed),
    decreases calls.len(),
{
    if calls.len() > 0 {
        let n = calls.len() - 1;
        lemma_counts_over_calls(states.drop_last(), calls.drop_last());
        assert(counted_call(states[n], states[n + 1], calls[n]));
        assert(states.drop_last().last() == states[n]);
    }
}

} // verus!
