//! Loading a program: from the bytes of an ELF file to the plan of pages to
//! map and fill, segment by segment, and of the user stack.

use crate::constants::{STACK_SIZE, STACK_START};
use vstd::prelude::*;

verus! {

/// Program-header type of a loadable segment.
pub const PT_LOAD: u32 = 1;
/// Program-header flag: the segment is executable.
pub const PF_X: u32 = 1;
/// Program-header flag: the segment is writable.
pub const PF_W: u32 = 2;

/// Page-table flag: present.
pub const PTE_PRESENT: u64 = 1;
/// Page-table flag: writable.
pub const PTE_WRITABLE: u64 = 2;
/// Page-table flag: reachable from user mode.
pub const PTE_USER_ACCESSIBLE: u64 = 4;
/// Page-table flag: not executable.
pub const PTE_NO_EXECUTE: u64 = 0x8000_0000_0000_0000;

/// Size of a page in bytes, as a `u64`.
pub const PAGE_BYTES: u64 = 4096;

/// What `goblin::elf::Elf::parse` finds in an ELF file: its entry point and
/// its program headers, each as (type, flags, virtual address, size in
/// memory, size in the file, offset in the file); nothing when the bytes do
/// not parse.
pub uninterp spec fn elf_parse(bytes: Seq<u8>) -> Option<(u64, Seq<(u32, u32, u64, u64, u64, u64)>)>;

/// Parses an ELF file with `goblin::elf::Elf::parse`, keeping its entry
/// point and, of each program header, the type, flags, virtual address,
/// sizes in memory and in the file, and file offset.
#[verifier::external_body]
fn parse_elf(bytes: &[u8]) -> (r: Option<(u64, Vec<(u32, u32, u64, u64, u64, u64)>)>)
    ensures
        match r {
            Some((entry, headers)) => elf_parse(bytes@) == Some((entry, headers@)),
            None => elf_parse(bytes@) is None,
        },
{
    match goblin::elf::Elf::parse(bytes) {
        Ok(elf) => Some((
            elf.header.e_entry,
            elf.program_headers.iter().map(
                |ph| (ph.p_type, ph.p_flags, ph.p_vaddr, ph.p_memsz, ph.p_filesz, ph.p_offset),
            ).collect(),
        )),
        Err(_) => None,
    }
}

/// The pages of one loadable segment and how they are filled.
#[derive(Debug, Clone, Copy, PartialEq, Eq, Structural)]
pub struct SegmentPlan {
    /// Address of the first page.
    pub first_page: u64,
    /// Number of pages, one after the other.
    pub page_count: u64,
    /// Flags the pages are first mapped with, for filling them.
    pub map_flags: u64,
    /// Flags the pages end with.
    pub page_flags: u64,
    /// Offset of the segment's bytes in the file.
    pub file_offset: u64,
    /// Number of the segment's bytes in the file.
    pub file_size: u64,
}

/// Everything loading a program maps.
#[derive(Debug, Clone)]
pub struct LoadPlan {
    /// The loadable segments, in the order of their program headers.
    pub segments: Vec<SegmentPlan>,
    /// Address of the first page of the user stack.
    pub stack_first_page: u64,
    /// Number of pages of the user stack.
    pub stack_page_count: u64,
    /// Flags of the stack pages.
    pub stack_flags: u64,
    /// The initial stack pointer: the top of the stack.
    pub stack_top: u64,
    /// The program's entry point.
    pub entry: u64,
}

/// Whether `a` is a canonical 48-bit virtual address.
pub open spec fn canonical(a: u64) -> bool {
    a < 0x8000_0000_0000 || a >= 0xFFFF_8000_0000_0000
}

/// Whether a program header can be loaded from a file of `len` bytes: it
/// is not loadable, or it occupies memory at canonical addresses and its
/// bytes lie in the file.
pub open spec fn segment_ok(ph: (u32, u32, u64, u64, u64, u64), len: nat) -> bool {
    let (p_type, p_flags, vaddr, memsz, filesz, offset) = ph;
    p_type != PT_LOAD || {
        &&& memsz > 0
        &&& vaddr + memsz - 1 <= u64::MAX
        &&& canonical(vaddr)
        &&& canonical((vaddr + memsz - 1) as u64)
        &&& offset + spec_copied(ph) <= len
    }
}

/// The file bytes a segment's pages take: its file size, cut at the end of
/// the last page that its memory size reaches.
pub open spec fn spec_copied(ph: (u32, u32, u64, u64, u64, u64)) -> int {
    let (p_type, p_flags, vaddr, memsz, filesz, offset) = ph;
    let first = vaddr - vaddr % 4096;
    let last_byte = vaddr + memsz - 1;
    let last = last_byte - last_byte % 4096;
    let span = last - first + 4096;
    if filesz < span {
        filesz as int
    } else {
        span
    }
}

/// The plan of a loadable segment: the pages from the one holding its
/// first byte to the one holding its last, mapped writable for filling and
/// left present, user-accessible and writable, and not executable unless
/// the segment is.
pub open spec fn spec_segment(ph: (u32, u32, u64, u64, u64, u64)) -> SegmentPlan {
    let (p_type, p_flags, vaddr, memsz, filesz, offset) = ph;
    let first = vaddr - vaddr % 4096;
    let last_byte = vaddr + memsz - 1;
    let last = last_byte - last_byte % 4096;
    let base = PTE_PRESENT | PTE_USER_ACCESSIBLE | PTE_WRITABLE;
    let with_w = if p_flags & PF_W != 0 { base | PTE_WRITABLE } else { base };
    SegmentPlan {
        first_page: first as u64,
        page_count: ((last - first) / 4096 + 1) as u64,
        map_flags: base,
        page_flags: if p_flags & PF_X == 0 { with_w | PTE_NO_EXECUTE } else { with_w },
        file_offset: offset,
        file_size: filesz,
    }
}

/// The pages of a segment's plan cover its memory exactly: they start at
/// the page holding its first byte, and the last of them holds its last
/// byte, so every byte from `vaddr` to `vaddr + memsz` lies in a planned
/// page and no planned page lies wholly past the segment.
pub proof fn lemma_segment_pages(ph: (u32, u32, u64, u64, u64, u64))
    requires
        ph.3 > 0,
        ph.2 + ph.3 - 1 <= u64::MAX,
    ensures
        ({
            let p = spec_segment(ph);
            let (p_type, p_flags, vaddr, memsz, filesz, offset) = ph;
            &&& p.first_page % 4096 == 0
            &&& p.first_page <= vaddr < p.first_page + 4096
            &&& p.page_count >= 1
            &&& vaddr + memsz <= p.first_page + p.page_count * 4096
            &&& p.first_page + (p.page_count - 1) * 4096 <= vaddr + memsz - 1
        }),
{
    let (p_type, p_flags, vaddr, memsz, filesz, offset) = ph;
    let first = vaddr - vaddr % 4096;
    let last_byte = vaddr + memsz - 1;
    let last = last_byte - last_byte % 4096;
    let p = spec_segment(ph);
    assert(first % 4096 == 0 && last % 4096 == 0 && first <= last && last <= last_byte < last + 4096
        && first <= vaddr < first + 4096) by (nonlinear_arith)
        requires
            first == vaddr - vaddr % 4096,
            last == last_byte - last_byte % 4096,
            last_byte == vaddr + memsz - 1,
            memsz > 0,
            vaddr >= 0,
    ;
    let k = (last - first) / 4096;
    assert(k * 4096 == last - first && k >= 0) by (nonlinear_arith)
        requires
            first % 4096 == 0,
            last % 4096 == 0,
            first <= last,
            k == (last - first) / 4096,
    ;
    assert(p.first_page == first);
    assert(p.page_count == k + 1);
    assert(p.first_page + p.page_count * 4096 == last + 4096) by (nonlinear_arith)
        requires
            p.first_page == first,
            p.page_count == k + 1,
            k * 4096 == last - first,
    ;
    assert(p.first_page + (p.page_count - 1) * 4096 == last) by (nonlinear_arith)
        requires
            p.first_page == first,
            p.page_count == k + 1,
            k * 4096 == last - first,
    ;
}

/// A loadable segment whose plan is made lies at canonical addresses, and
/// the file bytes its pages are filled from lie in the file: its file bytes,
/// up to as many as its planned pages hold, from its offset on.
pub proof fn lemma_segment_in_bounds(ph: (u32, u32, u64, u64, u64, u64), len: nat)
    requires
        ph.0 == PT_LOAD,
        segment_ok(ph, len),
    ensures
        ({
            let p = spec_segment(ph);
            let copied = if (ph.4 as int) < p.page_count * 4096 { ph.4 as int } else { p.page_count * 4096 };
            &&& ph.3 > 0
            &&& canonical(ph.2) && canonical((ph.2 + ph.3 - 1) as u64)
            &&& canonical(p.first_page)
            &&& ph.5 + copied <= len
        }),
{
    lemma_segment_pages(ph);
    let p = spec_segment(ph);
    let (p_type, p_flags, vaddr, memsz, filesz, offset) = ph;
    let first = vaddr - vaddr % 4096;
    let last_byte = vaddr + memsz - 1;
    let last = last_byte - last_byte % 4096;
    assert(p.first_page + p.page_count * 4096 == last + 4096) by (nonlinear_arith)
        requires
            p.first_page == first,
            p.first_page + (p.page_count - 1) * 4096 == last,
    ;
    assert(p.page_count * 4096 == last - first + 4096) by (nonlinear_arith)
        requires
            p.first_page == first,
            p.first_page + p.page_count * 4096 == last + 4096,
    ;
}

/// The flags of a segment's plan: its pages are first mapped present,
/// user-accessible and writable, and end present, user-accessible and
/// writable, not executable exactly when the segment is not executable,
/// with no other flag.
pub proof fn lemma_segment_flags(ph: (u32, u32, u64, u64, u64, u64))
    ensures
        ({
            let p = spec_segment(ph);
            let f = p.page_flags;
            &&& p.map_flags == PTE_PRESENT | PTE_USER_ACCESSIBLE | PTE_WRITABLE
            &&& f & PTE_PRESENT != 0 && f & PTE_USER_ACCESSIBLE != 0 && f & PTE_WRITABLE != 0
            &&& (f & PTE_NO_EXECUTE != 0) == (ph.1 & PF_X == 0)
            &&& f & !(PTE_PRESENT | PTE_USER_ACCESSIBLE | PTE_WRITABLE | PTE_NO_EXECUTE) == 0
            &&& p.file_offset == ph.5
            &&& p.file_size == ph.4
        }),
{
    let p_flags = ph.1;
    let f = spec_segment(ph).page_flags;
    let base: u64 = 1u64 | 4u64 | 2u64;
    let with_w: u64 = if p_flags & 2 != 0 { base | 2u64 } else { base };
    assert(spec_segment(ph).map_flags == base);
    assert(f == (if p_flags & 1 == 0 { with_w | 0x8000_0000_0000_0000u64 } else { with_w }));
    assert({
        &&& f & 1 != 0 && f & 4 != 0 && f & 2 != 0
        &&& (f & 0x8000_0000_0000_0000 != 0) == (p_flags & 1 == 0)
        &&& f & !(1u64 | 4u64 | 2u64 | 0x8000_0000_0000_0000u64) == 0
    }) by (bit_vector)
        requires
            base == 1u64 | 4u64 | 2u64,
            with_w == (if p_flags & 2 != 0 { base | 2u64 } else { base }),
            f == (if p_flags & 1 == 0 { with_w | 0x8000_0000_0000_0000u64 } else { with_w }),
    ;
}

/// The plans of the loadable segments among `hs`, in order.
pub open spec fn spec_plans(hs: Seq<(u32, u32, u64, u64, u64, u64)>) -> Seq<SegmentPlan>
    decreases hs.len(),
{
    if hs.len() == 0 {
        Seq::empty()
    } else {
        let prev = spec_plans(hs.drop_last());
        if hs.last().0 == PT_LOAD {
            prev.push(spec_segment(hs.last()))
        } else {
            prev
        }
    }
}

/// Whether every program header can be loaded from a file of `len` bytes.
pub open spec fn all_segments_ok(hs: Seq<(u32, u32, u64, u64, u64, u64)>, len: nat) -> bool {
    forall|i: int| 0 <= i < hs.len() ==> #[trigger] segment_ok(hs[i], len)
}

/// Whether `a` is a canonical address.
fn is_canonical(a: u64) -> (r: bool)
    ensures
        r == canonical(a),
{
    a < 0x8000_0000_0000 || a >= 0xFFFF_8000_0000_0000
}

/// The plan of one loadable segment, or nothing when it cannot be loaded
/// from a file of `len` bytes.
fn plan_segment(ph: (u32, u32, u64, u64, u64, u64), len: u64) -> (r: Option<SegmentPlan>)
    requires
        ph.0 == PT_LOAD,
    ensures
        r is Some <==> segment_ok(ph, len as nat),
        r matches Some(p) ==> p == spec_segment(ph),
        r matches Some(p) ==> p.first_page % 4096 == 0 && p.first_page <= ph.2 && ph.2 + ph.3 <= p.first_page
            + p.page_count * 4096 && p.first_page + (p.page_count - 1) * 4096 < ph.2 + ph.3,
{
    proof {
        if ph.3 > 0 && ph.2 + ph.3 - 1 <= u64::MAX {
            lemma_segment_pages(ph);
        }
    }
    let (p_type, p_flags, vaddr, memsz, filesz, offset) = ph;
    if memsz == 0 || vaddr > u64::MAX - (memsz - 1) {
        return None;
    }
    let last_byte = vaddr + (memsz - 1);
    if !is_canonical(vaddr) || !is_canonical(last_byte) {
        return None;
    }
    let first = vaddr - vaddr % PAGE_BYTES;
    let last = last_byte - last_byte % PAGE_BYTES;
    let span: u128 = (last - first) as u128 + PAGE_BYTES as u128;
    let copied: u64 = if (filesz as u128) < span { filesz } else { span as u64 };
    if offset > len || copied > len - offset {
        return None;
    }
    let base = PTE_PRESENT | PTE_USER_ACCESSIBLE | PTE_WRITABLE;
    let with_w = if p_flags & PF_W != 0 { base | PTE_WRITABLE } else { base };
    Some(SegmentPlan {
        first_page: first,
        page_count: (last - first) / PAGE_BYTES + 1,
        map_flags: base,
        page_flags: if p_flags & PF_X == 0 { with_w | PTE_NO_EXECUTE } else { with_w },
        file_offset: offset,
        file_size: filesz,
    })
}

/// The plans of the loadable segments among `headers`, in order; nothing
/// when one of them cannot be loaded from a file of `len` bytes.
pub fn plan_segments(headers: &Vec<(u32, u32, u64, u64, u64, u64)>, len: u64) -> (r: Option<Vec<SegmentPlan>>)
    ensures
        r is Some <==> all_segments_ok(headers@, len as nat),
        r matches Some(v) ==> v@ == spec_plans(headers@),
{
    let mut plans: Vec<SegmentPlan> = Vec::new();
    let mut i: usize = 0;
    while i < headers.len()
        invariant
            i <= headers@.len(),
            all_segments_ok(headers@.take(i as int), len as nat),
            plans@ == spec_plans(headers@.take(i as int)),
        decreases headers@.len() - i,
    {
        let ph = headers[i];
        proof {
            assert(headers@.take(i + 1).drop_last() =~= headers@.take(i as int));
            assert(headers@.take(i + 1).last() == ph);
        }
        if ph.0 == PT_LOAD {
            match plan_segment(ph, len) {
                Some(p) => {
                    plans.push(p);
                },
                None => {
                    proof {
                        assert(!segment_ok(headers@[i as int], len as nat));
                    }
                    return None;
                },
            }
        }
        proof {
            assert forall|k: int| 0 <= k < i + 1 implies #[trigger] segment_ok(
                headers@.take(i + 1)[k],
                len as nat,
            ) by {
                if k < i {
                    assert(headers@.take(i + 1)[k] == headers@.take(i as int)[k]);
                }
            }
        }
        i = i + 1;
    }
    proof {
        assert(headers@.take(i as int) =~= headers@);
    }
    Some(plans)
}

/// How page `k` of a segment is filled: the number of file bytes copied to
/// its start, and the offset from which it is zeroed to its end (4096 when
/// nothing is zeroed).
pub fn page_fill(seg: &SegmentPlan, k: u64) -> (r: (u64, u64))
    requires
        k < seg.page_count,
        seg.page_count <= 0x10_0000_0000_0000,
    ensures
        ({
            let page_offset = k * 4096;
            let rest = if seg.file_size > page_offset { seg.file_size - page_offset } else { 0 };
            &&& r.0 == (if rest < 4096 { rest } else { 4096 })
            &&& r.1 == (if rest < 4096 { rest } else { 4096 })
        }),
{
    let page_offset = k * PAGE_BYTES;
    let rest = seg.file_size.saturating_sub(page_offset);
    let to_copy = if rest < PAGE_BYTES { rest } else { PAGE_BYTES };
    let zero_from = if rest < PAGE_BYTES { rest } else { PAGE_BYTES };
    (to_copy, zero_from)
}

/// The load plan for a parsed ELF file of `len` bytes with entry point
/// `entry` and program headers `headers`: its loadable segments and a user
/// stack of the pages from `STACK_START` to `STACK_START + STACK_SIZE`,
/// both ends included; nothing when a segment cannot be loaded.
pub fn plan_load(entry: u64, headers: &Vec<(u32, u32, u64, u64, u64, u64)>, len: u64) -> (r: Option<LoadPlan>)
    ensures
        r is Some <==> all_segments_ok(headers@, len as nat),
        r matches Some(p) ==> {
            &&& p.segments@ == spec_plans(headers@)
            &&& p.stack_first_page == STACK_START
            &&& p.stack_page_count == STACK_SIZE / 4096 + 1
            &&& p.stack_flags == PTE_PRESENT | PTE_WRITABLE | PTE_USER_ACCESSIBLE
            &&& p.stack_top == STACK_START + STACK_SIZE
            &&& p.entry == entry
        },
{
    let segments = plan_segments(headers, len)?;
    let stack_end = STACK_START + STACK_SIZE as u64;
    Some(LoadPlan {
        segments,
        stack_first_page: STACK_START,
        stack_page_count: (stack_end - STACK_START) / PAGE_BYTES + 1,
        stack_flags: PTE_PRESENT | PTE_WRITABLE | PTE_USER_ACCESSIBLE,
        stack_top: stack_end,
        entry,
    })
}

/// Parses the ELF file `elf_bytes` and plans its loading; nothing when it
/// does not parse or a segment cannot be loaded.
pub fn load_elf(elf_bytes: &[u8]) -> (r: Option<LoadPlan>)
    ensures
        r is Some <==> (elf_parse(elf_bytes@) matches Some((e, hs)) && all_segments_ok(
            hs,
            elf_bytes@.len(),
        )),
        r matches Some(p) ==> (elf_parse(elf_bytes@) matches Some((e, hs)) && p.segments@ == spec_plans(hs)
            && p.entry == e && p.stack_top == STACK_START + STACK_SIZE),
        r matches Some(p) ==> p.stack_first_page == STACK_START && p.stack_page_count == STACK_SIZE
            / 4096 + 1 && p.stack_flags == PTE_PRESENT | PTE_WRITABLE | PTE_USER_ACCESSIBLE,
{
    let len = elf_bytes.len() as u64;
    match parse_elf(elf_bytes) {
        Some((entry, headers)) => plan_load(entry, &headers, len),
        None => None,
    }
}

} // verus!
