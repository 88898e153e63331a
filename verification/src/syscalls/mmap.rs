//! `mmap`: memory-mapping requests of user processes, and the plan of pages
//! that serving one maps.

use crate::constants::PAGE_SIZE;
use vstd::prelude::*;

verus! {

/// Page-table flag: the page is present.
pub const PAGE_PRESENT: u64 = 1;

/// Page-table flag: the page is writable.
pub const PAGE_WRITABLE: u64 = 2;

/// Page-table flag: code on the page may not run.
pub const PAGE_NO_EXECUTE: u64 = 0x8000_0000_0000_0000;

/// One mapping that `mmap` made for a process.
#[derive(Clone, Debug)]
pub struct MmapCall {
    /// First virtual address of the mapping.
    pub start: u64,
    /// Virtual address just past the mapping.
    pub end: u64,
    /// File the mapping reads from, or -1 for anonymous memory.
    pub fd: i64,
    /// Offset in the file.
    pub offset: u64,
    /// For each page of anonymous memory, whether it has been loaded.
    pub loaded: Vec<bool>,
}

impl MmapCall {
    /// A mapping of `[start, end)` with nothing loaded yet.
    pub fn new(start: u64, end: u64, fd: i64, offset: u64) -> (r: Self)
        ensures
            r.start == start,
            r.end == end,
            r.fd == fd,
            r.offset == offset,
            r.loaded@ == Seq::<bool>::empty(),
    {
        MmapCall { start, end, fd, offset, loaded: Vec::new() }
    }

    /// Whether `addr` lies in the mapping.
    pub fn contains(&self, addr: u64) -> (r: bool)
        ensures
            r == (self.start <= addr < self.end),
    {
        addr >= self.start && addr < self.end
    }
}

/// The flags argument of `mmap`, as bits.
#[derive(Debug, Clone, Copy, PartialEq, Eq, Structural)]
pub struct MmapFlags(pub u64);

impl Default for MmapFlags {
    fn default() -> (r: Self)
        ensures
            r.0 == 0,
    {
        Self::new()
    }
}

impl MmapFlags {
    pub const MAP_SHARED: u64 = 1;
    pub const MAP_SHARED_VALIDATE: u64 = 2;
    pub const MAP_PRIVATE: u64 = 4;
    pub const MAP_32BIT: u64 = 8;
    pub const MAP_ANONYMOUS: u64 = 16;
    pub const MAP_ANON: u64 = 16;
    pub const MAP_DENYWRITE: u64 = 32;
    pub const MAP_EXECUTABLE: u64 = 64;
    pub const MAP_FILE: u64 = 128;
    pub const MAP_FIXED: u64 = 256;
    pub const MAP_FIXED_NOREPLACE: u64 = 512;
    pub const MAP_GROWSDOWN: u64 = 1024;
    pub const MAP_HUGETLB: u64 = 2048;
    pub const MAP_HUGE_2MB: u64 = 4096;
    pub const MAP_HUGE_1GB: u64 = 8192;
    pub const MAP_LOCKED: u64 = 16384;
    pub const MAP_NONBLOCK: u64 = 32768;
    pub const MAP_NORESERVE: u64 = 65536;
    pub const MAP_POPULATE: u64 = 131072;
    pub const MAP_STACK: u64 = 262144;
    pub const MAP_SYNC: u64 = 524288;
    pub const MAP_UNINITIALIZED: u64 = 1048576;

    /// No flags.
    pub fn new() -> (r: Self)
        ensures
            r.0 == 0,
    {
        MmapFlags(0)
    }

    /// These flags with the bits of `flag` added.
    pub fn with_flags(self, flag: u64) -> (r: Self)
        ensures
            r.0 == self.0 | flag,
    {
        MmapFlags(self.0 | flag)
    }

    /// Whether these flags contain every bit of `flag`.
    pub fn contains(self, flag: u64) -> (r: bool)
        ensures
            r == (self.0 & flag == flag),
    {
        (self.0 & flag) == flag
    }

    /// The bits of these flags.
    pub fn bits(self) -> (r: u64)
        ensures
            r == self.0,
    {
        self.0
    }
}

/// The protection argument of `mmap`, as bits.
#[derive(Debug, Clone, Copy, PartialEq, Eq, Structural)]
pub struct ProtFlags(pub u64);

impl Default for ProtFlags {
    fn default() -> (r: Self)
        ensures
            r.0 == 0,
    {
        Self::new()
    }
}

impl ProtFlags {
    pub const PROT_EXEC: u64 = 1;
    pub const PROT_READ: u64 = 2;
    pub const PROT_WRITE: u64 = 4;
    pub const PROT_NONE: u64 = 8;

    /// No flags.
    pub fn new() -> (r: Self)
        ensures
            r.0 == 0,
    {
        ProtFlags(0)
    }

    /// These flags with the bits of `flag` added.
    pub fn with_flags(self, flag: u64) -> (r: Self)
        ensures
            r.0 == self.0 | flag,
    {
        ProtFlags(self.0 | flag)
    }

    /// Whether these flags contain every bit of `flag`.
    pub fn contains(self, flag: u64) -> (r: bool)
        ensures
            r == (self.0 & flag == flag),
    {
        (self.0 & flag) == flag
    }

    /// The bits of these flags.
    pub fn bits(self) -> (r: u64)
        ensures
            r == self.0,
    {
        self.0
    }
}

/// Errors of `mmap`, after those of Linux.
#[derive(Debug, Clone, Copy, PartialEq, Eq, Structural)]
pub enum MmapErrors {
    EACCES,
    EAGAIN,
    EBADF,
    EEXIST,
    EINVAL,
    ENFILE,
    ENODEV,
    ENOMEM,
    EOVERFLOW,
    EPERM,
    ETXTBSY,
    SIGSEGV,
    SIGBUS,
}

/// The page-table flags for pages mapped with protection `prot`: present
/// when readable, writable or not executable; writable when writable; not
/// executable unless executable.
pub open spec fn spec_pagetable_flags(prot: u64) -> u64 {
    let r = if prot & ProtFlags::PROT_READ != 0 { PAGE_PRESENT } else { 0 };
    let w = if prot & ProtFlags::PROT_WRITE != 0 { PAGE_WRITABLE | PAGE_PRESENT } else { 0 };
    let x = if prot & ProtFlags::PROT_EXEC == 0 { PAGE_NO_EXECUTE | PAGE_PRESENT } else { 0 };
    r | w | x
}

/// The page-table flags for pages mapped with protection `prot`, as bits.
/// The page-table flags of a protection, bit by bit: writable exactly when
/// the protection allows writes; present when it allows reads or writes or
/// does not allow execution; not executable exactly when it does not allow
/// execution; and no other bit.
pub proof fn lemma_pagetable_flags(prot: u64)
    ensures
        (spec_pagetable_flags(prot) & PAGE_WRITABLE != 0) == (prot & ProtFlags::PROT_WRITE != 0),
        (spec_pagetable_flags(prot) & PAGE_PRESENT != 0) == (prot & ProtFlags::PROT_READ != 0 || prot
            & ProtFlags::PROT_WRITE != 0 || prot & ProtFlags::PROT_EXEC == 0),
        (spec_pagetable_flags(prot) & PAGE_NO_EXECUTE != 0) == (prot & ProtFlags::PROT_EXEC == 0),
        spec_pagetable_flags(prot) & !(PAGE_PRESENT | PAGE_WRITABLE | PAGE_NO_EXECUTE) == 0,
{
    let f = spec_pagetable_flags(prot);
    let r: u64 = if prot & 2 != 0 { 1 } else { 0 };
    let w: u64 = if prot & 4 != 0 { 2u64 | 1u64 } else { 0 };
    let x: u64 = if prot & 1 == 0 { 0x8000_0000_0000_0000u64 | 1u64 } else { 0 };
    assert(f == r | w | x);
    assert({
        &&& (f & 2 != 0) == (prot & 4 != 0)
        &&& (f & 1 != 0) == (prot & 2 != 0 || prot & 4 != 0 || prot & 1 == 0)
        &&& (f & 0x8000_0000_0000_0000 != 0) == (prot & 1 == 0)
        &&& f & !(1u64 | 2u64 | 0x8000_0000_0000_0000u64) == 0
    }) by (bit_vector)
        requires
            f == r | w | x,
            r == (if prot & 2 != 0 { 1u64 } else { 0u64 }),
            w == (if prot & 4 != 0 { 2u64 | 1u64 } else { 0u64 }),
            x == (if prot & 1 == 0 { 0x8000_0000_0000_0000u64 | 1u64 } else { 0u64 }),
    ;
}

pub fn protection_to_pagetable_flags(prot: u64) -> (r: u64)
    ensures
        r == spec_pagetable_flags(prot),
        (r & PAGE_WRITABLE != 0) == (prot & ProtFlags::PROT_WRITE != 0),
        (r & PAGE_PRESENT != 0) == (prot & ProtFlags::PROT_READ != 0 || prot & ProtFlags::PROT_WRITE != 0
            || prot & ProtFlags::PROT_EXEC == 0),
        (r & PAGE_NO_EXECUTE != 0) == (prot & ProtFlags::PROT_EXEC == 0),
        r & !(PAGE_PRESENT | PAGE_WRITABLE | PAGE_NO_EXECUTE) == 0,
{
    proof {
        lemma_pagetable_flags(prot);
    }
    let read = if prot & ProtFlags::PROT_READ != 0 { PAGE_PRESENT } else { 0 };
    let write = if prot & ProtFlags::PROT_WRITE != 0 { PAGE_WRITABLE | PAGE_PRESENT } else { 0 };
    let exec = if prot & ProtFlags::PROT_EXEC == 0 { PAGE_NO_EXECUTE | PAGE_PRESENT } else { 0 };
    read | write | exec
}

/// What serving an `mmap` request does: the address it returns, the pages
/// it maps (with their flags), the mapping it records and where the next
/// request starts.
pub struct MmapPlan {
    /// The address handed back to the process.
    pub address: u64,
    /// First page to map.
    pub first_page: u64,
    /// Number of pages to map, one after the other.
    pub page_count: u64,
    /// Page-table flags of the mapped pages.
    pub page_flags: u64,
    /// The mapping to record, when one is made.
    pub call: Option<MmapCall>,
    /// Where the process's next mapping starts.
    pub next_address: u64,
}

/// Plans an `mmap` of `len` bytes for a process whose mappings continue at
/// `begin`: nothing is mapped, and `limit` is returned, when `begin +
/// offset` passes `limit`; else whole pages from `begin` are mapped,
/// anonymous memory (whose pages start unloaded) when `flags` is exactly
/// `MAP_ANONYMOUS`, the file `fd` at `offset` otherwise. The requested
/// address is ignored.
pub fn mmap_plan(begin: u64, len: u64, prot: u64, flags: u64, fd: i64, offset: u64, limit: u64) -> (r:
    MmapPlan)
    requires
        len > 0,
        begin + len <= u64::MAX,
        begin + offset <= u64::MAX,
    ensures
        begin + offset > limit ==> r.address == limit && r.page_count == 0 && r.call is None
            && r.next_address == begin,
        begin + offset <= limit ==> {
            let pages = len / (PAGE_SIZE as u64);
            &&& r.address == begin
            &&& r.first_page == begin
            &&& r.page_count == pages
            &&& r.page_flags == spec_pagetable_flags(prot)
            &&& r.next_address == begin + pages * PAGE_SIZE
            &&& r.call matches Some(c) && c.start == begin && c.end == begin + len && (if flags
                == MmapFlags::MAP_ANONYMOUS {
                c.fd == -1 && c.offset == 0 && c.loaded@ == Seq::new(pages as nat, |i: int| false)
            } else {
                c.fd == fd && c.offset == offset && c.loaded@.len() == 0
            })
        },
{
    if begin + offset > limit {
        return MmapPlan {
            address: limit,
            first_page: begin,
            page_count: 0,
            page_flags: 0,
            call: None,
            next_address: begin,
        };
    }
    let mut call = MmapCall::new(begin, begin + len, fd, offset);
    let page_count = len / PAGE_SIZE as u64;
    let page_flags = protection_to_pagetable_flags(prot);
    if flags == MmapFlags::MAP_ANONYMOUS {
        let mut k: u64 = 0;
        while k < page_count
            invariant
                k <= page_count,
                call.start == begin,
                call.end == begin + len,
                call.loaded@ == Seq::new(k as nat, |i: int| false),
            decreases page_count - k,
        {
            call.loaded.push(false);
            proof {
                assert(call.loaded@ =~= Seq::new((k + 1) as nat, |i: int| false));
            }
            k = k + 1;
        }
        call.fd = -1;
        call.offset = 0;
    }
    proof {
        assert(page_count * 4096 <= len) by (nonlinear_arith)
            requires
                page_count == len / 4096,
        ;
    }
    MmapPlan {
        address: begin,
        first_page: begin,
        page_count,
        page_flags,
        call: Some(call),
        next_address: begin + page_count * PAGE_SIZE as u64,
    }
}

} // verus!
