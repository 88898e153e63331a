//! The boot frame allocator: hands out physical frames, one after the other,
//! from the usable regions of the boot loader's memory map, before the heap
//! exists. It never takes a frame back.

use crate::constants::{HEAP_SIZE, HEAP_START, MAX_ALLOCATED_FRAMES};
use crate::memory::MemoryRegion;
use vstd::prelude::*;

verus! {

/// Bytes in a frame, as a `u64`.
pub const FRAME_BYTES: u64 = 4096;

/// Physical addresses are below this bound.
pub const PHYSICAL_ADDRESS_LIMIT: u64 = 0x10_0000_0000_0000;

/// Whether the regions of a memory map lie below the physical address
/// limit.
pub open spec fn map_ok(map: Seq<MemoryRegion>) -> bool {
    forall|i: int| 0 <= i < map.len() ==> #[trigger] map[i].base + map[i].length < PHYSICAL_ADDRESS_LIMIT
}

/// Whether the frame at `addr` may be handed out: it lies outside the
/// kernel's image or outside the heap's range.
pub open spec fn frame_kept(addr: int, kernel_start: u64, kernel_end: u64) -> bool {
    ||| addr < kernel_start
    ||| addr >= kernel_end
    ||| addr < HEAP_START
    ||| addr > HEAP_START + HEAP_SIZE
}

/// The start of the frame that holds `addr`.
pub open spec fn frame_of(addr: int) -> int {
    addr - addr % 4096
}

/// The frames handed out from the addresses `addr`, `addr + 4096`, ...
/// below `end`.
pub open spec fn region_frames(addr: int, end: int, kernel_start: u64, kernel_end: u64) -> Seq<u64>
    decreases if addr < end {
        end - addr
    } else {
        0
    },
{
    if addr >= end {
        Seq::empty()
    } else {
        let rest = region_frames(addr + 4096, end, kernel_start, kernel_end);
        if frame_kept(addr, kernel_start, kernel_end) {
            seq![frame_of(addr) as u64] + rest
        } else {
            rest
        }
    }
}

/// The frames a region contributes: none unless it is usable.
pub open spec fn region_part(r: MemoryRegion, kernel_start: u64, kernel_end: u64) -> Seq<u64> {
    if r.usable {
        region_frames(r.base as int, r.base + r.length, kernel_start, kernel_end)
    } else {
        Seq::empty()
    }
}

/// All the frames the allocator hands out, in order: those of each usable
/// region in the order of the map.
pub open spec fn usable_frames_of(map: Seq<MemoryRegion>, kernel_start: u64, kernel_end: u64) -> Seq<u64>
    decreases map.len(),
{
    if map.len() == 0 {
        Seq::empty()
    } else {
        usable_frames_of(map.drop_last(), kernel_start, kernel_end) + region_part(
            map.last(),
            kernel_start,
            kernel_end,
        )
    }
}

proof fn lemma_take_step(map: Seq<MemoryRegion>, i: int, ks: u64, ke: u64)
    requires
        0 <= i < map.len(),
    ensures
        usable_frames_of(map.take(i + 1), ks, ke) == usable_frames_of(map.take(i), ks, ke)
            + region_part(map[i], ks, ke),
{
    assert(map.take(i + 1).drop_last() =~= map.take(i));
}

proof fn lemma_prefix(map: Seq<MemoryRegion>, i: int, j: int, ks: u64, ke: u64)
    requires
        0 <= i <= j <= map.len(),
    ensures
        usable_frames_of(map.take(i), ks, ke).len() <= usable_frames_of(map.take(j), ks, ke).len(),
        forall|k: int|
            0 <= k < usable_frames_of(map.take(i), ks, ke).len() ==> #[trigger] usable_frames_of(
                map.take(j),
                ks,
                ke,
            )[k] == usable_frames_of(map.take(i), ks, ke)[k],
    decreases j - i,
{
    if i < j {
        lemma_prefix(map, i, j - 1, ks, ke);
        lemma_take_step(map, j - 1, ks, ke);
    }
}

proof fn lemma_frames_bounded(addr: int, end: int, ks: u64, ke: u64)
    requires
        0 <= addr,
        end <= PHYSICAL_ADDRESS_LIMIT,
    ensures
        forall|k: int|
            0 <= k < region_frames(addr, end, ks, ke).len() ==> #[trigger] region_frames(
                addr,
                end,
                ks,
                ke,
            )[k] < PHYSICAL_ADDRESS_LIMIT,
    decreases if addr < end {
        end - addr
    } else {
        0
    },
{
    if addr < end {
        lemma_frames_bounded(addr + 4096, end, ks, ke);
        let rest = region_frames(addr + 4096, end, ks, ke);
        let all = region_frames(addr, end, ks, ke);
        assert(0 <= frame_of(addr) <= addr);
        if frame_kept(addr, ks, ke) {
            assert(all == seq![frame_of(addr) as u64] + rest);
            assert forall|k: int| 0 <= k < all.len() implies #[trigger] all[k] < PHYSICAL_ADDRESS_LIMIT by {
                if k > 0 {
                    assert(all[k] == rest[k - 1]);
                }
            }
        } else {
            assert(all == rest);
        }
    }
}

proof fn lemma_usable_bounded(map: Seq<MemoryRegion>, ks: u64, ke: u64)
    requires
        map_ok(map),
    ensures
        forall|k: int|
            0 <= k < usable_frames_of(map, ks, ke).len() ==> #[trigger] usable_frames_of(
                map,
                ks,
                ke,
            )[k] < PHYSICAL_ADDRESS_LIMIT,
    decreases map.len(),
{
    if map.len() > 0 {
        let front = map.drop_last();
        assert(map_ok(front)) by {
            assert forall|i: int| 0 <= i < front.len() implies #[trigger] front[i].base
                + front[i].length < PHYSICAL_ADDRESS_LIMIT by {
                assert(front[i] == map[i]);
            }
        }
        lemma_usable_bounded(front, ks, ke);
        let r = map.last();
        assert(map[map.len() - 1] == r);
        lemma_frames_bounded(r.base as int, r.base + r.length, ks, ke);
        let a = usable_frames_of(front, ks, ke);
        let b = region_part(r, ks, ke);
        let all = usable_frames_of(map, ks, ke);
        assert(all == a + b);
        assert forall|k: int| 0 <= k < all.len() implies #[trigger] all[k] < PHYSICAL_ADDRESS_LIMIT by {
            if k < a.len() {
                assert(all[k] == a[k]);
            } else {
                assert(all[k] == b[k - a.len()]);
            }
        }
    }
}

/// Hands out the usable frames of the memory map in order.
pub struct BootIntoFrameAllocator<'a> {
    memory_map: &'a [MemoryRegion],
    next: usize,
    first_frame: Option<u64>,
    last_frame: Option<u64>,
    allocated_count: usize,
    kernel_start: u64,
    kernel_end: u64,
}

impl<'a> BootIntoFrameAllocator<'a> {
    /// All the frames the allocator hands out, in order.
    pub closed spec fn frames(&self) -> Seq<u64> {
        usable_frames_of(self.memory_map@, self.kernel_start, self.kernel_end)
    }

    /// The memory map it hands frames out of.
    pub closed spec fn spec_memory_map(&self) -> Seq<MemoryRegion> {
        self.memory_map@
    }

    /// How many frames it has handed out.
    pub closed spec fn allocated(&self) -> nat {
        self.allocated_count as nat
    }

    /// The first frame handed out, if any.
    pub closed spec fn spec_first_frame(&self) -> Option<u64> {
        self.first_frame
    }

    /// The last frame handed out, if any.
    pub closed spec fn spec_last_frame(&self) -> Option<u64> {
        self.last_frame
    }

    /// The frames handed out are the first `allocated()` of `frames()`, at
    /// most `MAX_ALLOCATED_FRAMES` of them; the first and the last are
    /// remembered.
    pub closed spec fn wf(&self) -> bool {
        &&& map_ok(self.memory_map@)
        &&& self.next == self.allocated_count
        &&& self.allocated_count <= self.frames().len()
        &&& self.allocated_count <= MAX_ALLOCATED_FRAMES
        &&& if self.allocated_count == 0 {
            self.first_frame is None && self.last_frame is None
        } else {
            self.first_frame == Some(self.frames()[0]) && self.last_frame == Some(
                self.frames()[self.allocated_count - 1],
            )
        }
    }

    /// An allocator over `memory_map` that has handed nothing out. The
    /// kernel's image starts at physical address `physical_base`; it is
    /// linked at `virtual_base` and ends at `kernel_end_virtual`, so it ends
    /// at `kernel_end_virtual - virtual_base + physical_base` in physical
    /// memory.
    pub fn init(
        memory_map: &'a [MemoryRegion],
        physical_base: u64,
        virtual_base: u64,
        kernel_end_virtual: u64,
    ) -> (r: Self)
        requires
            map_ok(memory_map@),
            virtual_base <= kernel_end_virtual,
            kernel_end_virtual - virtual_base + physical_base <= u64::MAX,
        ensures
            r.wf(),
            r.allocated() == 0,
            r.spec_memory_map() == memory_map@,
            r.frames() == usable_frames_of(
                memory_map@,
                physical_base,
                (kernel_end_virtual - virtual_base + physical_base) as u64,
            ),
    {
        let kernel_end = (kernel_end_virtual - virtual_base) + physical_base;
        BootIntoFrameAllocator {
            memory_map,
            next: 0,
            first_frame: None,
            last_frame: None,
            allocated_count: 0,
            kernel_start: physical_base,
            kernel_end,
        }
    }

    /// The frame at position `n` of `frames()`, if there is one.
    pub fn usable_frame(&self, n: usize) -> (r: Option<u64>)
        requires
            self.wf(),
        ensures
            r == if n < self.frames().len() {
                Some(self.frames()[n as int])
            } else {
                None
            },
    {
        let ghost map = self.memory_map@;
        let ghost ks = self.kernel_start;
        let ghost ke = self.kernel_end;
        let mut count: usize = 0;
        let mut i: usize = 0;
        while i < self.memory_map.len()
            invariant
                map == self.memory_map@,
                ks == self.kernel_start,
                ke == self.kernel_end,
                map_ok(map),
                i <= map.len(),
                count <= n,
                count == usable_frames_of(map.take(i as int), ks, ke).len(),
            decreases map.len() - i,
        {
            let region = self.memory_map[i];
            proof {
                lemma_take_step(map, i as int, ks, ke);
                assert(map[i as int] == region);
            }
            if region.usable {
                let end = region.base + region.length;
                let mut addr = region.base;
                let ghost done = usable_frames_of(map.take(i as int), ks, ke);
                let ghost mut acc: Seq<u64> = Seq::empty();
                while addr < end
                    invariant
                        map == self.memory_map@,
                        ks == self.kernel_start,
                        ke == self.kernel_end,
                        map_ok(map),
                        i < map.len(),
                        region == map[i as int],
                        region.usable,
                        end == region.base + region.length,
                        end < PHYSICAL_ADDRESS_LIMIT,
                        region.base <= addr <= end + 4096,
                        count <= n,
                        count == done.len() + acc.len(),
                        done == usable_frames_of(map.take(i as int), ks, ke),
                        acc + region_frames(addr as int, end as int, ks, ke) == region_part(
                            region,
                            ks,
                            ke,
                        ),
                        usable_frames_of(map.take(i + 1), ks, ke) == done + region_part(
                            region,
                            ks,
                            ke,
                        ),
                    decreases end + 4096 - addr,
                {
                    let kept = addr < self.kernel_start || addr >= self.kernel_end || addr
                        < HEAP_START || addr > HEAP_START.wrapping_add(HEAP_SIZE as u64);
                    let ghost rest = region_frames(addr + 4096, end as int, ks, ke);
                    assert(HEAP_START.wrapping_add(HEAP_SIZE as u64) == HEAP_START + HEAP_SIZE);
                    if kept {
                        let frame = addr - addr % 4096;
                        if count == n {
                            proof {
                                let whole = usable_frames_of(map.take(i + 1), ks, ke);
                                assert(region_frames(addr as int, end as int, ks, ke) == seq![
                                    frame,
                                ] + rest);
                                assert(whole == done + acc + (seq![frame] + rest));
                                assert(whole[n as int] == frame);
                                lemma_prefix(map, i + 1, map.len() as int, ks, ke);
                                assert(map.take(map.len() as int) =~= map);
                            }
                            return Some(frame);
                        }
                        proof {
                            assert(region_frames(addr as int, end as int, ks, ke) == seq![frame]
                                + rest);
                            assert(acc.push(frame) + rest == acc + (seq![frame] + rest));
                            acc = acc.push(frame);
                        }
                        count = count + 1;
                    }
                    addr = addr + 4096;
                }
                proof {
                    assert(acc == region_part(region, ks, ke));
                }
            }
            i = i + 1;
        }
        proof {
            assert(map.take(map.len() as int) =~= map);
        }
        None
    }

    /// Hands out the next usable frame; nothing once they are all out.
    /// More than `MAX_ALLOCATED_FRAMES` frames are never handed out.
    pub fn allocate_frame(&mut self) -> (r: Option<u64>)
        requires
            old(self).wf(),
            old(self).allocated() < MAX_ALLOCATED_FRAMES || old(self).allocated() >= old(
                self,
            ).frames().len(),
        ensures
            final(self).wf(),
            final(self).frames() == old(self).frames(),
            final(self).spec_memory_map() == old(self).spec_memory_map(),
            r == if old(self).allocated() < old(self).frames().len() {
                Some(old(self).frames()[old(self).allocated() as int])
            } else {
                None
            },
            final(self).allocated() == old(self).allocated() + if r is Some {
                1int
            } else {
                0int
            },
    {
        let frame = match self.usable_frame(self.next) {
            Some(f) => f,
            None => return None,
        };
        self.next = self.next + 1;
        if self.first_frame.is_none() {
            self.first_frame = Some(frame);
        }
        self.last_frame = Some(frame);
        self.allocated_count = self.allocated_count + 1;
        Some(frame)
    }

    /// The memory map it hands frames out of.
    pub fn memory_map(&self) -> (r: &'a [MemoryRegion])
        requires
            self.wf(),
        ensures
            r@ == self.spec_memory_map(),
            map_ok(r@),
    {
        &self.memory_map
    }

    /// How many frames it has handed out.
    pub fn allocated_count(&self) -> (r: usize)
        ensures
            r == self.allocated(),
    {
        self.allocated_count
    }

    /// The first frame handed out, if any.
    pub fn first_frame(&self) -> (r: Option<u64>)
        requires
            self.wf(),
        ensures
            r == self.spec_first_frame(),
            r == if self.allocated() == 0 {
                None
            } else {
                Some(self.frames()[0])
            },
    {
        self.first_frame
    }

    /// The last frame handed out, if any.
    pub fn last_frame(&self) -> (r: Option<u64>)
        requires
            self.wf(),
        ensures
            r == self.spec_last_frame(),
            r == if self.allocated() == 0 {
                None
            } else {
                Some(self.frames()[self.allocated() - 1])
            },
    {
        self.last_frame
    }

    /// The frames handed out so far, counted as one run of consecutive
    /// frames from the first one handed out.
    pub fn allocated_frames(&self) -> (r: Vec<u64>)
        requires
            self.wf(),
            self.allocated() > 0,
        ensures
            r@.len() == self.allocated(),
            forall|i: int| 0 <= i < r@.len() ==> #[trigger] r@[i] == self.frames()[0] + i * 4096,
    {
        let start = self.first_frame.unwrap();
        proof {
            lemma_usable_bounded(self.memory_map@, self.kernel_start, self.kernel_end);
            assert(self.frames()[0] < PHYSICAL_ADDRESS_LIMIT);
        }
        let mut out: Vec<u64> = Vec::new();
        let mut i: usize = 0;
        while i < self.allocated_count
            invariant
                self.wf(),
                start == self.frames()[0],
                start < PHYSICAL_ADDRESS_LIMIT,
                i <= self.allocated_count,
                out@.len() == i,
                forall|k: int| 0 <= k < i ==> #[trigger] out@[k] == start + k * 4096,
            decreases self.allocated_count - i,
        {
            assert(i * 4096 <= MAX_ALLOCATED_FRAMES * 4096) by (nonlinear_arith)
                requires
                    i <= MAX_ALLOCATED_FRAMES,
            ;
            out.push(start + (i as u64) * FRAME_BYTES);
            i = i + 1;
        }
        out
    }
}

/// Once `allocate_frame` has handed out frame `f`, `f` is the last frame
/// handed out, and the first frame handed out is the first of `frames()`,
/// which is `f` itself when nothing had been handed out before.
pub proof fn lemma_allocation_in_order<'a>(
    before: BootIntoFrameAllocator<'a>,
    after: BootIntoFrameAllocator<'a>,
    f: u64,
)
    requires
        before.wf(),
        after.wf(),
        after.frames() == before.frames(),
        after.allocated() == before.allocated() + 1,
        f == before.frames()[before.allocated() as int],
    ensures
        after.spec_last_frame() == Some(f),
        after.spec_first_frame() == Some(before.frames()[0]),
        before.allocated() == 0 ==> after.spec_first_frame() == Some(f),
{
}

} // verus!
