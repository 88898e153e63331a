//! FAT16 file system.

pub mod boot_sector;
pub mod constants;
pub mod dir_entry;
pub mod fat_entry;
pub mod file;
pub mod path;
pub mod raw;

use crate::filesys::fat16::boot_sector::BootSector;
use crate::filesys::fat16::constants::{
    ATTR_ARCHIVE, ATTR_DIRECTORY, ATTR_READ_ONLY, DELETED_ENTRY_MARKER, DIR_ENTRY_SIZE, ENTRIES_PER_SECTOR,
    MAX_EXTENSION_LENGTH, MAX_FILENAME_LENGTH, ROOT_DIR_SECTORS, SECTOR_SIZE,
};
use crate::filesys::fat16::dir_entry::{
    lemma_entry_bytes_len, lemma_new_file_name, spec_name_parts, spec_new_entry_bytes, spec_padded,
    DirEntry83,
};
use crate::filesys::fat16::fat_entry::FatEntry;
use crate::filesys::fat16::file::{
    all_in_use, find_free_cluster, read_fat_entry_at, read_sector, spec_fat_entry, spec_fat_sector,
    spec_set_fat_entry, spec_splice, write_fat_entry_at, Fat16File,
};
use crate::filesys::fat16::path::{
    bytes_eq, components, lemma_rfind, spec_components, spec_rfind, spec_split_last, split_last,
    EXTENSION_SEPARATOR, PATH_SEPARATOR,
};
use crate::filesys::{
    BlockDevice, DirEntry, File, FileMetadata, FilePermissions, FileSystem, FsError, SeekFrom,
};
use vstd::prelude::*;
use vstd::bytes::{spec_u32_from_le_bytes, spec_u32_to_le_bytes};
use vstd::string::StringSliceAdditionalSpecFns;
use vstd::utf8::{encode_utf8, pop_first_scalar, valid_first_scalar, valid_utf8};

verus! {

/// The 32 bytes of directory slot `i` of a sector.
pub open spec fn spec_slot(sec: Seq<u8>, i: int) -> Seq<u8> {
    sec.subrange(i * 32, i * 32 + 32)
}

/// Whether slot `i` of a sector is unused.
pub open spec fn slot_free(sec: Seq<u8>, i: int) -> bool {
    sec[i * 32] == 0
}

/// Whether slot `i` of a sector holds a deleted entry.
pub open spec fn slot_deleted(sec: Seq<u8>, i: int) -> bool {
    sec[i * 32] == DELETED_ENTRY_MARKER
}

/// Whether slot `i` of a sector holds an entry that a directory scan sees:
/// no slot up to it is unused, and it is not deleted.
pub open spec fn slot_live(sec: Seq<u8>, i: int) -> bool {
    &&& forall|j: int| 0 <= j <= i ==> !#[trigger] slot_free(sec, j)
    &&& !slot_deleted(sec, i)
}

/// The name of the entry in slot `i` of a sector.
pub open spec fn slot_name(sec: Seq<u8>, i: int) -> Seq<u8> {
    spec_name_parts(sec.subrange(i * 32, i * 32 + 8), sec.subrange(i * 32 + 8, i * 32 + 11))
}

/// Whether a scan for `name` stops at slot `i` of a sector.
pub open spec fn slot_matches(sec: Seq<u8>, i: int, name: Seq<u8>) -> bool {
    slot_live(sec, i) && slot_name(sec, i) == name
}

/// Whether slot `i` of a sector can take a new entry.
pub open spec fn slot_open(sec: Seq<u8>, i: int) -> bool {
    slot_free(sec, i) || slot_deleted(sec, i)
}

/// Whether no slot of the sector before `n` matches `name`.
pub open spec fn no_match_before(sec: Seq<u8>, n: int, name: Seq<u8>) -> bool {
    forall|j: int| 0 <= j < n ==> !#[trigger] slot_matches(sec, j, name)
}

/// Whether no slot of the sector before `n` can take a new entry.
pub open spec fn none_open_before(sec: Seq<u8>, n: int) -> bool {
    forall|j: int| 0 <= j < n ==> !#[trigger] slot_open(sec, j)
}

/// Whether the `n` sectors from `start` on are on the disk, whole, and hold
/// no live slot called `name`.
pub open spec fn scanned_clear(disk: Seq<Seq<u8>>, start: int, n: int, name: Seq<u8>) -> bool {
    forall|s: int| start <= s < start + n ==> sector_ok(disk, s) && no_match_before(#[trigger] disk[s], 16, name)
}

/// Sectors that a scan found clear of `name` stay clear on a disk that
/// holds the same bytes there.
pub proof fn lemma_clear_kept(a: Seq<Seq<u8>>, b: Seq<Seq<u8>>, start: int, n: int, name: Seq<u8>)
    requires
        scanned_clear(a, start, n, name),
        a.len() == b.len(),
        forall|s: int| start <= s < start + n ==> #[trigger] b[s] == a[s],
    ensures
        scanned_clear(b, start, n, name),
{
    assert forall|s: int| start <= s < start + n implies #[trigger] sector_ok(b, s) by {
        assert(b[s] == a[s]);
        assert(sector_ok(a, s));
    }
}

/// Whether sector `s` of `disk` exists and is whole.
pub open spec fn sector_ok(disk: Seq<Seq<u8>>, s: int) -> bool {
    0 <= s < disk.len() && disk[s].len() == 512
}

/// The entry in slot `i` of a sector, as a scan decodes it.
pub open spec fn decoded_slot(e: DirEntry83, sec: Seq<u8>, i: int) -> bool {
    e.spec_bytes() == spec_slot(sec, i)
}

/// An entry decoded from a slot has the slot's name and first byte.
pub proof fn lemma_decoded_slot(e: DirEntry83, sec: Seq<u8>, i: int)
    requires
        decoded_slot(e, sec, i),
        0 <= i < 16,
        sec.len() == 512,
    ensures
        e.spec_name() == slot_name(sec, i),
        e.name@[0] == sec[i * 32],
        e.attributes == sec[i * 32 + 11],
{
    lemma_entry_bytes_len(e);
    assert(e.name@ =~= sec.subrange(i * 32, i * 32 + 8));
    assert(e.ext@ =~= sec.subrange(i * 32 + 8, i * 32 + 11));
}

/// The bytes written by a splice are where it put them.
pub proof fn lemma_splice_subrange(s: Seq<u8>, o: int, b: Seq<u8>)
    requires
        0 <= o,
        o + b.len() <= s.len(),
    ensures
        spec_splice(s, o, b).len() == s.len(),
        spec_splice(s, o, b).subrange(o, o + b.len()) == b,
        forall|k: int| 0 <= k < s.len() && !(o <= k < o + b.len()) ==> #[trigger] spec_splice(s, o, b)[k] == s[k],
{
    assert(spec_splice(s, o, b).subrange(o, o + b.len()) =~= b);
}

/// Whether `name` is a non-empty file name of printable ASCII without
/// spaces that an 8.3 entry spells back: when it has a dot, something
/// follows the last one.
pub open spec fn plain_name(name: Seq<u8>) -> bool {
    &&& name.len() > 0
    &&& forall|j: int| 0 <= j < name.len() ==> 0x20 < #[trigger] name[j] < 0x7F
    &&& spec_ext(name).len() > 0 || spec_rfind(name, EXTENSION_SEPARATOR) is None
}

/// Bytes below 0x80 are valid UTF-8.
pub proof fn lemma_ascii_utf8(s: Seq<u8>)
    requires
        forall|j: int| 0 <= j < s.len() ==> #[trigger] s[j] < 0x80,
    ensures
        valid_utf8(s),
    decreases s.len(),
{
    if s.len() > 0 {
        assert(valid_first_scalar(s));
        assert(pop_first_scalar(s) =~= s.subrange(1, s.len() as int));
        lemma_ascii_utf8(s.subrange(1, s.len() as int));
    }
}

/// An entry made from the base and extension of a plain name spells the
/// name.
pub proof fn lemma_plain_name(e: DirEntry83, name: Seq<u8>)
    requires
        plain_name(name),
        spec_base(name).len() <= 8,
        spec_ext(name).len() <= 3,
        e.name@ == spec_padded(spec_base(name), 8),
        e.ext@ == spec_padded(spec_ext(name), 3),
    ensures
        e.spec_name() == name,
{
    lemma_rfind(name, EXTENSION_SEPARATOR);
    let base = spec_base(name);
    let ext = spec_ext(name);
    assert forall|j: int| 0 <= j < base.len() implies #[trigger] base[j] < 0x80 && base[j] != 0x20 by {
        assert(base[j] == name[j]);
    }
    assert forall|j: int| 0 <= j < ext.len() implies #[trigger] ext[j] < 0x80 && ext[j] != 0x20 by {
        assert(ext[j] == name[name.len() - ext.len() + j]);
    }
    lemma_ascii_utf8(base);
    lemma_ascii_utf8(ext);
    lemma_new_file_name(e, base, ext);
    if ext.len() > 0 {
        let i = spec_rfind(name, EXTENSION_SEPARATOR)->Some_0;
        assert(name =~= base + seq![0x2Eu8] + ext);
    } else {
        assert(base =~= name);
    }
}

/// The first sector of a new directory: its "." and ".." entries, then zeros.
pub open spec fn spec_dir_first_sector(cluster: u16, parent: u16) -> Seq<u8> {
    spec_new_entry_bytes(seq![0x2Eu8], Seq::empty(), ATTR_DIRECTORY, cluster) + spec_new_entry_bytes(
        seq![0x2Eu8, 0x2Eu8],
        Seq::empty(),
        ATTR_DIRECTORY,
        parent,
    ) + Seq::new(448, |i: int| 0u8)
}

/// `disk` after a new directory's cluster, from `sector` on, is written: the
/// first sector as `spec_dir_first_sector` says, the others zero.
pub open spec fn spec_init_dir(disk: Seq<Seq<u8>>, sector: int, spc: nat, first: Seq<u8>) -> Seq<Seq<u8>> {
    Seq::new(
        disk.len(),
        |k: int|
            if k == sector {
                first
            } else if sector < k < sector + spc {
                Seq::new(512, |j: int| 0u8)
            } else {
                disk[k]
            },
    )
}

/// Whether the live entries of a directory's first sector are only "." and "..".
pub open spec fn dir_sector_empty(sec: Seq<u8>) -> bool {
    forall|i: int|
        0 <= i < 16 && #[trigger] slot_live(sec, i) ==> slot_name(sec, i) == seq![0x2Eu8] || slot_name(sec, i)
            == seq![0x2Eu8, 0x2Eu8]
}

/// Whether slot `i` of sector `sector` of `disk` holds the bytes `b`.
pub open spec fn holds_entry(disk: Seq<Seq<u8>>, sector: int, i: int, b: Seq<u8>) -> bool {
    &&& 0 <= i < 16
    &&& sector_ok(disk, sector)
    &&& spec_slot(disk[sector], i) == b
}

/// The name part of a path: what follows its last `/`.
pub open spec fn spec_leaf(path: Seq<u8>) -> Seq<u8> {
    spec_split_last(path, PATH_SEPARATOR, false).1
}

/// The directory part of a path: what precedes its last `/`.
pub open spec fn spec_parent(path: Seq<u8>) -> Seq<u8> {
    spec_split_last(path, PATH_SEPARATOR, false).0
}

/// The base name of a file name: what precedes its last `.`, or all of it.
pub open spec fn spec_base(name: Seq<u8>) -> Seq<u8> {
    spec_split_last(name, EXTENSION_SEPARATOR, true).0
}

/// The extension of a file name: what follows its last `.`, or nothing.
pub open spec fn spec_ext(name: Seq<u8>) -> Seq<u8> {
    spec_split_last(name, EXTENSION_SEPARATOR, true).1
}

/// The largest element of a non-empty sequence.
pub open spec fn seq_max(s: Seq<usize>) -> usize
    decreases s.len(),
{
    if s.len() <= 1 {
        s[0]
    } else if s.last() >= seq_max(s.drop_last()) {
        s.last()
    } else {
        seq_max(s.drop_last())
    }
}

/// `seq_max` is an element and no element is larger.
pub proof fn lemma_seq_max(s: Seq<usize>)
    requires
        s.len() > 0,
    ensures
        s.contains(seq_max(s)),
        forall|k: int| 0 <= k < s.len() ==> s[k] <= seq_max(s),
    decreases s.len(),
{
    if s.len() > 1 {
        lemma_seq_max(s.drop_last());
        assert(s.drop_last().contains(seq_max(s.drop_last())));
        let w = choose|j: int| 0 <= j < s.drop_last().len() && s.drop_last()[j] == seq_max(s.drop_last());
        assert(s[w] == s.drop_last()[w]);
        assert forall|k: int| 0 <= k < s.len() implies s[k] <= seq_max(s) by {
            if k < s.len() - 1 {
                assert(s[k] == s.drop_last()[k]);
            }
        }
    } else {
        assert(s[0] == seq_max(s));
    }
}

/// Takes the largest descriptor out of `v`, as a max-heap's `pop` does.
pub fn pop_max(v: &mut Vec<usize>) -> (r: Option<usize>)
    ensures
        old(v)@.len() == 0 ==> r is None && final(v)@ == old(v)@,
        old(v)@.len() > 0 ==> r == Some(seq_max(old(v)@)) && exists|k: int|
            0 <= k < old(v)@.len() && old(v)@[k] == seq_max(old(v)@) && final(v)@ == old(v)@.remove(k),
{
    let n = v.len();
    if n == 0 {
        return None;
    }
    let mut best: usize = 0;
    let mut i: usize = 1;
    while i < n
        invariant
            n == v@.len(),
            v@ == old(v)@,
            1 <= i <= n,
            best < i,
            v@[best as int] == seq_max(v@.take(i as int)),
        decreases n - i,
    {
        proof {
            assert(v@.take(i + 1).drop_last() =~= v@.take(i as int));
        }
        if v[i] > v[best] {
            best = i;
        }
        i = i + 1;
    }
    proof {
        assert(v@.take(n as int) =~= v@);
    }
    let m = v.remove(best);
    Some(m)
}

/// The metadata of a directory entry.
pub open spec fn spec_metadata(e: DirEntry83) -> FileMetadata {
    FileMetadata {
        size: e.file_size as u64,
        is_dir: e.spec_is_directory(),
        created: 0,
        modified: ((e.date as u64) << 16u64) | (e.time as u64),
        permissions: FilePermissions {
            readable: true,
            writable: e.attributes & ATTR_READ_ONLY == 0,
            executable: false,
        },
    }
}

/// The metadata of a directory entry.
pub fn metadata_of(e: &DirEntry83) -> (r: FileMetadata)
    ensures
        r == spec_metadata(*e),
{
    FileMetadata {
        size: e.file_size as u64,
        is_dir: e.is_directory(),
        created: 0,
        modified: ((e.date as u64) << 16u64) | (e.time as u64),
        permissions: FilePermissions {
            readable: true,
            writable: e.attributes & ATTR_READ_ONLY == 0,
            executable: false,
        },
    }
}

/// The entry of a closed descriptor.
pub open spec fn closed_file() -> Fat16File {
    Fat16File {
        valid: false,
        current_cluster: 0,
        position: 0,
        size: 0,
        cluster_size: 0,
        fat_start: 0,
        data_start: 0,
        entry_position: 0,
        cluster_limit: 0,
    }
}

/// Whether a directory listing shows slot `i` of a sector: a scan sees it
/// and its name does not start with a dot.
pub open spec fn slot_listed(sec: Seq<u8>, i: int) -> bool {
    slot_live(sec, i) && sec[i * 32] != 0x2E
}

/// The metadata a listing gives the entry in slot `i` of a sector, whose
/// modification stamp is `modified`.
pub open spec fn slot_metadata(sec: Seq<u8>, i: int, modified: u64) -> FileMetadata {
    let attr = sec[i * 32 + 11];
    FileMetadata {
        size: spec_u32_from_le_bytes(sec.subrange(i * 32 + 28, i * 32 + 32)) as u64,
        is_dir: attr & ATTR_DIRECTORY != 0,
        created: 0,
        modified,
        permissions: FilePermissions { readable: true, writable: attr & ATTR_READ_ONLY == 0, executable: false },
    }
}

/// The names and metadata a listing gives for the first `n` slots of a sector.
pub open spec fn sector_listing(sec: Seq<u8>, n: nat, modified: u64) -> Seq<(Seq<u8>, FileMetadata)>
    decreases n,
{
    if n == 0 {
        Seq::empty()
    } else {
        let prev = sector_listing(sec, (n - 1) as nat, modified);
        if slot_listed(sec, n - 1) {
            prev.push((slot_name(sec, n - 1), slot_metadata(sec, n - 1, modified)))
        } else {
            prev
        }
    }
}

/// The names and metadata a listing gives for `count` sectors from `start`.
pub open spec fn dir_listing(disk: Seq<Seq<u8>>, start: int, count: nat, modified: u64) -> Seq<
    (Seq<u8>, FileMetadata),
>
    decreases count,
{
    if count == 0 {
        Seq::empty()
    } else {
        dir_listing(disk, start, (count - 1) as nat, modified) + sector_listing(
            disk[start + count - 1],
            16,
            modified,
        )
    }
}

/// Past an unused slot, a sector's listing does not grow.
pub proof fn lemma_listing_stops(sec: Seq<u8>, i: int, n: nat, modified: u64)
    requires
        0 <= i < n <= 16,
        slot_free(sec, i),
    ensures
        sector_listing(sec, n, modified) == sector_listing(sec, i as nat, modified),
    decreases n,
{
    if n > i + 1 {
        lemma_listing_stops(sec, i, (n - 1) as nat, modified);
    }
    assert(!slot_live(sec, n - 1));
}

/// Whether `v` lists what `listing` says, name and metadata in order.
pub open spec fn listing_matches(v: Seq<DirEntry>, listing: Seq<(Seq<u8>, FileMetadata)>) -> bool {
    &&& v.len() == listing.len()
    &&& forall|k: int|
        0 <= k < v.len() ==> encode_utf8((#[trigger] v[k]).name@) == listing[k].0 && v[k].metadata
            == listing[k].1
}

/// The modification stamp a listing of directory entry `d` gives to what it
/// lists: `d`'s own date and time.
pub open spec fn stamp_of(d: DirEntry83) -> u64 {
    ((d.date as u64) << 16u64) | (d.time as u64)
}

/// `disk` with the first byte of the directory slot at byte position `pos`
/// set to the deleted-entry marker.
pub open spec fn spec_mark_deleted(disk: Seq<Seq<u8>>, pos: int) -> Seq<Seq<u8>> {
    disk.update(pos / 512, disk[pos / 512].update(pos % 512, DELETED_ENTRY_MARKER))
}

/// Sectors of a root directory of 512 entries, for sectors of `bs` bytes.
pub open spec fn spec_root_dir_sectors(bs: int) -> int {
    (512 * 32 + bs - 1) / bs
}

/// The sectors of each FAT that `format` computes for a device of `total`
/// blocks of `bs` bytes.
pub open spec fn spec_format_fat_sectors(total: int, bs: int) -> int {
    let clusters = (total - 1 - spec_root_dir_sectors(bs)) / 4;
    (clusters * 2 + bs - 1) / bs
}

/// `x / b` rounded up, without overflow for any `b`.
fn div_ceil_u64(x: u64, b: u64) -> (r: u64)
    requires
        b > 0,
    ensures
        r == (x + b - 1) / (b as int),
{
    let q = x / b;
    let m = x % b;
    proof {
        assert(x == q * b + m && 0 <= m < b) by (nonlinear_arith)
            requires
                q == x / b,
                m == x % b,
                b > 0,
        ;
        if m == 0 {
            assert((x + b - 1) / (b as int) == q) by (nonlinear_arith)
                requires
                    x == q * b,
                    b > 0,
                    q >= 0,
            ;
        } else {
            assert((x + b - 1) / (b as int) == q + 1) by (nonlinear_arith)
                requires
                    x == q * b + m,
                    0 < m < b,
                    q >= 0,
            ;
        }
        assert(q * b <= x) by (nonlinear_arith)
            requires
                x == q * b + m,
                m >= 0,
        ;
        if m != 0 {
            assert(q < 0x1_0000_0000_0000_0000int - 1) by (nonlinear_arith)
                requires
                    x == q * b + m,
                    0 < m < b,
                    x < 0x1_0000_0000_0000_0000int,
                    q >= 0,
            ;
        }
    }
    if m == 0 {
        q
    } else {
        q + 1
    }
}

/// The FATs and the root directory that `format` lays out fit on the device.
proof fn lemma_format_fits(total: int, bs: int, rds: int, spf: int)
    requires
        bs >= 512,
        rds >= 0,
        total >= 1 + rds,
        spf == ((total - 1 - rds) / 4 * 2 + bs - 1) / bs,
    ensures
        1 + 2 * spf + rds <= total,
{
    let tc = (total - 1 - rds) / 4;
    assert(tc >= 0 && 4 * tc <= total - 1 - rds) by (nonlinear_arith)
        requires
            tc == (total - 1 - rds) / 4,
            total - 1 - rds >= 0,
    ;
    assert(spf * bs <= tc * 2 + bs - 1 && spf >= 0) by (nonlinear_arith)
        requires
            spf == (tc * 2 + bs - 1) / bs,
            bs >= 512,
            tc >= 0,
    ;
    if tc == 0 {
        assert(spf == 0) by (nonlinear_arith)
            requires
                spf * bs <= bs - 1,
                spf >= 0,
                bs >= 512,
        ;
    } else {
        assert(2 * spf <= 4 * tc) by (nonlinear_arith)
            requires
                spf * bs <= tc * 2 + bs - 1,
                spf >= 0,
                bs >= 512,
                tc >= 1,
        ;
    }
}

/// The first sector of each FAT that `format` writes: the media byte F8
/// and the end-of-chain marks of clusters 0 and 1, then zeros.
pub open spec fn fat_head_block(bs: nat) -> Seq<u8> {
    Seq::new(bs, |k: int| if k == 0 { 0xF8u8 } else if k < 4 { 0xFFu8 } else { 0u8 })
}

/// A block of `bs` zero bytes.
pub open spec fn zeroed_block(bs: nat) -> Seq<u8> {
    Seq::new(bs, |k: int| 0u8)
}

/// Whether `disk` holds the tables `format` writes, with FATs of `spf`
/// sectors from sector 1 and a root directory of `rds` sectors after them:
/// each FAT starts with `fat_head_block` and is zero after it, and the root
/// directory is zero.
pub open spec fn format_tables_ok(disk: Seq<Seq<u8>>, spf: int, rds: int, bs: nat) -> bool {
    &&& disk[1] == fat_head_block(bs)
    &&& disk[1 + spf] == fat_head_block(bs)
    &&& forall|j: int| 1 <= j < spf ==> #[trigger] disk[1 + j] == zeroed_block(bs)
    &&& forall|j: int| 1 <= j < spf ==> #[trigger] disk[1 + spf + j] == zeroed_block(bs)
    &&& forall|k: int| 0 <= k < rds ==> #[trigger] disk[1 + 2 * spf + k] == zeroed_block(bs)
}

/// The boot sector that `format` writes for a device of `total` blocks of
/// `bs` bytes.
pub open spec fn spec_format_boot_sector(total: u64, bs: usize) -> BootSector {
    BootSector {
        jump_boot: [0xEBu8, 0x3C, 0x90],
        oem_name: [0x55u8, 0x54, 0x54, 0x41, 0x4F, 0x53, 0x2E, 0x30],
        bytes_per_sector: bs as u16,
        sectors_per_cluster: 4,
        reserved_sectors: 1,
        fat_count: 2,
        root_dir_entries: 512,
        total_sectors_16: if total < 65536 { total as u16 } else { 0 },
        media_type: 0xF8,
        sectors_per_fat: spec_format_fat_sectors(total as int, bs as int) as u16,
        sectors_per_track: 63,
        head_count: 255,
        hidden_sectors: 0,
        total_sectors_32: if total >= 65536 { total as u32 } else { 0 },
        drive_number: 0x80,
        reserved1: 0,
        boot_signature: 0x29,
        volume_id: 0x12345678,
        volume_label: [0x4Eu8, 0x4F, 0x20, 0x4E, 0x41, 0x4D, 0x45, 0x20, 0x20, 0x20, 0x20],
        fs_type: [0x46u8, 0x41, 0x54, 0x31, 0x36, 0x20, 0x20, 0x20],
    }
}

/// The first block `format` writes: the boot sector, zeros, and the boot
/// signature 0x55 0xAA at bytes 510 and 511.
pub open spec fn spec_boot_block(b: BootSector, bs: nat) -> Seq<u8> {
    Seq::new(
        bs,
        |k: int|
            if k < 62 {
                b.spec_bytes()[k]
            } else if k == 510 {
                0x55u8
            } else if k == 511 {
                0xAAu8
            } else {
                0u8
            },
    )
}

/// A FAT16 file system on a block device.
pub struct Fat16<D: BlockDevice> {
    /// The device that holds the file system.
    pub device: D,
    /// The boot sector, which gives the file system's parameters.
    boot_sector: BootSector,
    /// First sector of the first FAT.
    fat_start: u64,
    /// First sector of the root directory.
    root_dir_start: u64,
    /// First sector of the data area.
    data_start: u64,
    /// Size of a cluster in bytes.
    cluster_size: usize,
    /// The next file descriptor never handed out.
    fd_counter: usize,
    /// File descriptors that were closed and can be handed out again.
    reuse_fds: Vec<usize>,
    /// The open files, by file descriptor.
    fd_table: Vec<Fat16File>,
}

impl<D: BlockDevice> Fat16<D> {
    /// The boot sector the file system was read from.
    pub closed spec fn spec_boot_sector(&self) -> BootSector {
        self.boot_sector
    }

    /// First sector of the first FAT.
    pub closed spec fn spec_fat_start(&self) -> u64 {
        self.fat_start
    }

    /// First sector of the root directory.
    pub closed spec fn spec_root_dir_start(&self) -> u64 {
        self.root_dir_start
    }

    /// First sector of the data area.
    pub closed spec fn spec_data_start(&self) -> u64 {
        self.data_start
    }

    /// Size of a cluster in bytes.
    pub closed spec fn spec_cluster_size(&self) -> usize {
        self.cluster_size
    }

    /// The open-file table.
    pub closed spec fn spec_fd_table(&self) -> Seq<Fat16File> {
        self.fd_table@
    }

    /// The descriptors waiting to be handed out again.
    pub closed spec fn spec_reuse_fds(&self) -> Seq<usize> {
        self.reuse_fds@
    }

    /// Sectors per cluster.
    pub open spec fn spc(&self) -> nat {
        self.spec_boot_sector().sectors_per_cluster as nat
    }

    /// The contents of the device.
    pub closed spec fn disk(&self) -> Seq<Seq<u8>> {
        self.device.blocks()
    }

    /// The block size of the device.
    pub closed spec fn block_size(&self) -> nat {
        self.device.spec_block_size()
    }

    /// Whether the device fails only where it must (see
    /// `BlockDevice::reliable`).
    pub closed spec fn device_reliable(&self) -> bool {
        self.device.reliable()
    }

    /// Whether the device fails only where it must and its blocks are
    /// sectors of 512 bytes: then only a sector outside the disk fails, with
    /// `IOError`.
    pub open spec fn io_ok(&self) -> bool {
        self.device_reliable() && self.block_size() == 512
    }

    /// The layout that `new` derives from a boot sector.
    pub open spec fn layout_of(bs: BootSector, fat_start: u64, root_dir_start: u64, data_start: u64) -> bool {
        &&& fat_start == bs.reserved_sectors
        &&& root_dir_start == fat_start + bs.sectors_per_fat * bs.fat_count
        &&& data_start == root_dir_start + 32
    }

    /// The file system's fields agree with its boot sector, and its table
    /// of open files is consistent.
    pub closed spec fn wf(&self) -> bool {
        &&& Self::layout_of(self.boot_sector, self.fat_start, self.root_dir_start, self.data_start)
        &&& self.cluster_size == self.boot_sector.sectors_per_cluster * 512
        &&& self.data_start <= 0x100_0000
        &&& self.fd_counter == self.fd_table@.len()
        &&& forall|k: int|
            0 <= k < self.fd_table@.len() ==> Self::file_ok(#[trigger] self.fd_table@[k])
        &&& forall|k: int|
            0 <= k < self.reuse_fds@.len() ==> (#[trigger] self.reuse_fds@[k]) < self.fd_table@.len()
                && !self.fd_table@[self.reuse_fds@[k] as int].valid
        &&& forall|a: int, b: int|
            0 <= a < b < self.reuse_fds@.len() ==> self.reuse_fds@[a] != self.reuse_fds@[b]
    }

    /// Putting `g` in place of entry `fd` of an open-file table keeps the
    /// table's invariants when `g` has the limits of this file system and the
    /// validity of the entry it replaces.
    proof fn lemma_set_file_keeps(table: Seq<Fat16File>, reuse: Seq<usize>, fd: int, g: Fat16File)
        requires
            0 <= fd < table.len(),
            forall|k: int| 0 <= k < table.len() ==> Self::file_ok(#[trigger] table[k]),
            forall|a: int|
                0 <= a < reuse.len() ==> (#[trigger] reuse[a]) < table.len() && !table[reuse[a] as int].valid,
            Self::file_ok(g),
            g.valid == table[fd].valid,
        ensures
            forall|k: int| 0 <= k < table.len() ==> Self::file_ok(#[trigger] table.update(fd, g)[k]),
            forall|a: int|
                0 <= a < reuse.len() ==> (#[trigger] reuse[a]) < table.len() && !table.update(
                    fd,
                    g,
                )[reuse[a] as int].valid,
    {
        assert forall|k: int| 0 <= k < table.len() implies Self::file_ok(#[trigger] table.update(fd, g)[k]) by {
            if k != fd {
                assert(table.update(fd, g)[k] == table[k]);
            }
        }
        assert forall|a: int| 0 <= a < reuse.len() implies (#[trigger] reuse[a]) < table.len() && !table.update(
            fd,
            g,
        )[reuse[a] as int].valid by {
            let x = reuse[a] as int;
            if x != fd {
                assert(table.update(fd, g)[x] == table[x]);
            }
        }
    }

    /// An entry of the open-file table has the limits of this file system.
    pub open spec fn file_ok(f: Fat16File) -> bool {
        &&& f.entry_position % 512 + 32 <= 512
        &&& f.cluster_size % 512 == 0
        &&& f.cluster_size <= 255 * 512
        &&& f.fat_start + 256 <= u64::MAX
        &&& f.data_start + 0xFFFF * 255 <= u64::MAX
    }

    /// The regions of the disk: the first FAT right after the reserved
    /// sectors, the root directory right after the FATs, 32 sectors long
    /// (512 entries of 32 bytes), and the data area right after it, whose
    /// first cluster is cluster 2; a subdirectory is the cluster it starts
    /// in.
    pub proof fn lemma_regions(&self, c: u16)
        requires
            self.wf(),
            c >= 2,
        ensures
            self.spec_fat_start() == self.spec_boot_sector().reserved_sectors,
            self.spec_root_dir_start() == self.spec_fat_start() + self.spec_boot_sector().fat_count
                * self.spec_boot_sector().sectors_per_fat,
            self.spec_dir_region(0) == (self.spec_root_dir_start() as int, 32int),
            self.spec_data_start() == self.spec_root_dir_start() + 32,
            self.spec_dir_region(c).0 == self.spec_data_start() + (c - 2) * self.spc(),
            self.spec_dir_region(c).1 == self.spc(),
            self.spec_dir_region(2).0 == self.spec_data_start(),
    {
        assert(self.spec_boot_sector().fat_count * self.spec_boot_sector().sectors_per_fat
            == self.spec_boot_sector().sectors_per_fat * self.spec_boot_sector().fat_count) by (nonlinear_arith);
    }

    /// The first sector and the number of sectors of the directory whose
    /// first cluster is `c` (0 for the root directory).
    pub open spec fn spec_dir_region(&self, c: u16) -> (int, int) {
        if c == 0 {
            (self.spec_root_dir_start() as int, 32)
        } else {
            (self.spec_data_start() + (c - 2) * self.spc(), self.spc() as int)
        }
    }

    /// Whether the scan of directory `c` for `name` stops at slot `i` of its
    /// sector `sector`, finding `e`: every slot scanned before matches not.
    pub open spec fn entry_found(&self, c: u16, name: Seq<u8>, e: DirEntry83, pos: int) -> bool {
        let (start, num) = self.spec_dir_region(c);
        let disk = self.disk();
        let sector = pos / 512;
        let i = (pos % 512) / 32;
        &&& c != 1
        &&& 0 <= pos
        &&& pos % 32 == 0
        &&& start <= sector < start + num
        &&& sector_ok(disk, sector)
        &&& decoded_slot(e, disk[sector], i)
        &&& slot_matches(disk[sector], i, name)
        &&& no_match_before(disk[sector], i, name)
        &&& forall|s: int| start <= s < sector ==> sector_ok(disk, s) && no_match_before(#[trigger] disk[s], 16, name)
    }

    /// Whether every sector of directory `c` is on the disk and whole.
    pub open spec fn dir_readable(&self, c: u16) -> bool {
        let (start, num) = self.spec_dir_region(c);
        &&& c != 1
        &&& forall|s: int| start <= s < start + num ==> #[trigger] sector_ok(self.disk(), s)
    }

    /// Whether a scan of directory `c` finds no entry called `name`: every
    /// sector is on the disk and whole, and no live slot of it has that name.
    pub open spec fn absent_in(&self, c: u16, name: Seq<u8>) -> bool {
        let (start, num) = self.spec_dir_region(c);
        &&& c != 1
        &&& scanned_clear(self.disk(), start, num, name)
    }

    /// A name that a scan of a directory does not find is found at no
    /// position of it.
    pub proof fn lemma_absent_not_found(&self, c: u16, name: Seq<u8>, e: DirEntry83, pos: int)
        requires
            self.absent_in(c, name),
        ensures
            !self.entry_found(c, name, e, pos),
    {
        if self.entry_found(c, name, e, pos) {
            let sector = pos / 512;
            let i = (pos % 512) / 32;
            assert(no_match_before(self.disk()[sector], 16, name));
            assert(0 <= i < 16);
            assert(!slot_matches(self.disk()[sector], i, name));
        }
    }

    /// A scan finds a name in one place only: the first live slot with that
    /// name, in order, and the entry stored there.
    pub proof fn lemma_found_unique(&self, c: u16, name: Seq<u8>, e1: DirEntry83, p1: int, e2: DirEntry83, p2: int)
        requires
            self.entry_found(c, name, e1, p1),
            self.entry_found(c, name, e2, p2),
        ensures
            p1 == p2,
            e1 == e2,
    {
        let s1 = p1 / 512;
        let s2 = p2 / 512;
        let i1 = (p1 % 512) / 32;
        let i2 = (p2 % 512) / 32;
        if s1 < s2 {
            assert(no_match_before(self.disk()[s1], 16, name));
            assert(!slot_matches(self.disk()[s1], i1, name));
        } else if s2 < s1 {
            assert(no_match_before(self.disk()[s2], 16, name));
            assert(!slot_matches(self.disk()[s2], i2, name));
        } else if i1 < i2 {
            assert(!slot_matches(self.disk()[s2], i1, name));
        } else if i2 < i1 {
            assert(!slot_matches(self.disk()[s1], i2, name));
        }
        assert(s1 == s2 && i1 == i2);
        assert(p1 == s1 * 512 + i1 * 32) by (nonlinear_arith)
            requires
                s1 == p1 / 512,
                i1 == (p1 % 512) / 32,
                p1 % 32 == 0,
                p1 >= 0,
        ;
        assert(p2 == s2 * 512 + i2 * 32) by (nonlinear_arith)
            requires
                s2 == p2 / 512,
                i2 == (p2 % 512) / 32,
                p2 % 32 == 0,
                p2 >= 0,
        ;
        crate::filesys::fat16::dir_entry::lemma_entry_bytes_injective(e1, e2);
    }

    /// On a device that fails only where it must, with a whole root
    /// directory, looking up a one-component path finds exactly what
    /// `found_at` says is there: `r` is what the lookup gave.
    pub proof fn lemma_root_lookup(&self, path: Seq<u8>, r: Result<(DirEntry83, u64), FsError>, e: DirEntry83, pos: int)
        requires
            spec_components(path).len() == 1,
            self.found_at(path, e, pos),
            r matches Ok((e2, p2)) ==> self.found_at(path, e2, p2 as int),
            r == Err::<(DirEntry83, u64), FsError>(FsError::NotFound) ==> self.absent_in(0, spec_components(path)[0]),
            r is Ok || r == Err::<(DirEntry83, u64), FsError>(FsError::NotFound),
        ensures
            r == Ok::<(DirEntry83, u64), FsError>((e, pos as u64)),
    {
        if r is Ok {
            let (e2, p2) = r->Ok_0;
            self.lemma_found_unique(0, spec_components(path)[0], e, pos, e2, p2 as int);
        } else {
            self.lemma_root_absent(path, e, pos);
        }
    }

    /// A one-component path whose name a scan of the root directory does not
    /// find names no entry.
    pub proof fn lemma_root_absent(&self, path: Seq<u8>, e: DirEntry83, pos: int)
        requires
            spec_components(path).len() == 1,
            self.absent_in(0, spec_components(path)[0]),
        ensures
            !self.found_at(path, e, pos),
    {
        self.lemma_absent_not_found(0, spec_components(path)[0], e, pos);
    }

    /// An entry written into the first open slot of the root directory,
    /// where no live slot has its name, is what a scan for that name finds:
    /// `fin` is the file system once `before` had the slot written.
    pub proof fn lemma_new_entry_found(
        &self,
        fin: Self,
        before: Seq<Seq<u8>>,
        sector: int,
        i: int,
        entry: DirEntry83,
        name: Seq<u8>,
    )
        requires
            fin.spec_dir_region(0) == self.spec_dir_region(0),
            self.open_slot_found(before, 0, sector, i),
            scanned_clear(before, self.spec_dir_region(0).0, self.spec_dir_region(0).1, name),
            fin.disk() == before.update(sector, spec_splice(before[sector], i * 32, entry.spec_bytes())),
            entry.spec_name() == name,
            entry.name@[0] != 0,
            entry.name@[0] != DELETED_ENTRY_MARKER,
        ensures
            fin.entry_found(0, name, entry, sector * 512 + i * 32),
    {
        let old_sec = before[sector];
        let sec = fin.disk()[sector];
        let pos = sector * 512 + i * 32;
        lemma_entry_bytes_len(entry);
        lemma_splice_subrange(old_sec, i * 32, entry.spec_bytes());
        assert(sec == spec_splice(old_sec, i * 32, entry.spec_bytes()));
        assert(pos / 512 == sector && (pos % 512) / 32 == i && pos % 32 == 0) by (nonlinear_arith)
            requires
                pos == sector * 512 + i * 32,
                0 <= i < 16,
                sector >= 0,
        ;
        assert(sector_ok(fin.disk(), sector));
        assert(spec_slot(sec, i) =~= entry.spec_bytes());
        assert(decoded_slot(entry, sec, i));
        lemma_decoded_slot(entry, sec, i);
        assert(entry.name@[0] == entry.spec_bytes()[0]);
        assert forall|j: int| 0 <= j <= i implies !#[trigger] slot_free(sec, j) by {
            if j < i {
                assert(!slot_open(old_sec, j));
                assert(sec[j * 32] == old_sec[j * 32]);
            }
        }
        assert(slot_matches(sec, i, name));
        assert(no_match_before(old_sec, 16, name));
        assert forall|j: int| 0 <= j < i implies !#[trigger] slot_matches(sec, j, name) by {
            assert(!slot_matches(old_sec, j, name));
            assert(sec[j * 32] == old_sec[j * 32]);
            assert(sec.subrange(j * 32, j * 32 + 8) =~= old_sec.subrange(j * 32, j * 32 + 8));
            assert(sec.subrange(j * 32 + 8, j * 32 + 11) =~= old_sec.subrange(j * 32 + 8, j * 32 + 11));
            assert(slot_name(sec, j) == slot_name(old_sec, j));
            if slot_live(sec, j) {
                assert forall|k: int| 0 <= k <= j implies !#[trigger] slot_free(old_sec, k) by {
                    assert(sec[k * 32] == old_sec[k * 32]);
                    assert(!slot_free(sec, k));
                }
            }
        }
        let (start, num) = self.spec_dir_region(0);
        assert forall|t: int| start <= t < sector implies sector_ok(fin.disk(), t) && no_match_before(
            #[trigger] fin.disk()[t],
            16,
            name,
        ) by {
            assert(fin.disk()[t] == before[t]);
        }
    }

    /// Marking another slot deleted keeps what a scan of the root directory
    /// finds: `fin` is this file system once the slot at byte `del`, which
    /// is in use, was marked deleted.
    pub proof fn lemma_found_after_delete(&self, fin: Self, del: int, name: Seq<u8>, e: DirEntry83, p: int)
        requires
            self.entry_found(0, name, e, p),
            fin.spec_dir_region(0) == self.spec_dir_region(0),
            fin.disk() == spec_mark_deleted(self.disk(), del),
            del >= 0,
            del % 32 == 0,
            sector_ok(self.disk(), del / 512),
            self.disk()[del / 512][del % 512] != 0,
            del != p,
        ensures
            fin.entry_found(0, name, e, p),
    {
        let ds = del / 512;
        let di = (del % 512) / 32;
        let ps = p / 512;
        let pi = (p % 512) / 32;
        assert(del % 512 == di * 32 && 0 <= di < 16) by (nonlinear_arith)
            requires
                del % 32 == 0,
                di == (del % 512) / 32,
                del >= 0,
        ;
        assert(p % 512 == pi * 32 && 0 <= pi < 16) by (nonlinear_arith)
            requires
                p % 32 == 0,
                pi == (p % 512) / 32,
                p >= 0,
        ;
        assert(ds != ps || di != pi) by (nonlinear_arith)
            requires
                del != p,
                ds == del / 512,
                ps == p / 512,
                del % 512 == di * 32,
                p % 512 == pi * 32,
        ;
        let old_d = self.disk();
        let new_d = fin.disk();
        let (start, num) = self.spec_dir_region(0);
        let sec_old = old_d[ds];
        let sec_new = new_d[ds];
        // The mark gives slot `di` the deleted marker and keeps every other byte.
        assert(sec_new == sec_old.update(di * 32, DELETED_ENTRY_MARKER));
        assert forall|j: int| 0 <= j < 16 && j != di implies #[trigger] slot_name(sec_new, j) == slot_name(sec_old, j)
            && sec_new[j * 32] == sec_old[j * 32] && spec_slot(sec_new, j) == spec_slot(sec_old, j) by {
            assert(sec_new.subrange(j * 32, j * 32 + 8) =~= sec_old.subrange(j * 32, j * 32 + 8));
            assert(sec_new.subrange(j * 32 + 8, j * 32 + 11) =~= sec_old.subrange(j * 32 + 8, j * 32 + 11));
            assert(spec_slot(sec_new, j) =~= spec_slot(sec_old, j));
        }
        assert forall|j: int| 0 <= j < 16 implies (#[trigger] slot_matches(sec_new, j, name) ==> slot_matches(
            sec_old,
            j,
            name,
        )) by {
            if slot_matches(sec_new, j, name) {
                assert(j != di);
                assert(slot_name(sec_new, j) == slot_name(sec_old, j));
                assert forall|k: int| 0 <= k <= j implies !#[trigger] slot_free(sec_old, k) by {
                    assert(!slot_free(sec_new, k));
                    if k != di {
                        assert(slot_name(sec_new, k) == slot_name(sec_old, k));
                    }
                }
            }
        }
        // Sectors scanned before the entry's own hold no match.
        assert forall|t: int| start <= t < ps implies sector_ok(new_d, t) && no_match_before(
            #[trigger] new_d[t],
            16,
            name,
        ) by {
            assert(sector_ok(old_d, t) && no_match_before(old_d[t], 16, name));
            if t == ds {
                assert forall|j: int| 0 <= j < 16 implies !#[trigger] slot_matches(new_d[t], j, name) by {
                    assert(!slot_matches(old_d[t], j, name));
                }
            } else {
                assert(new_d[t] == old_d[t]);
            }
        }
        // The entry's own sector.
        let sp_old = old_d[ps];
        let sp_new = new_d[ps];
        if ps == ds {
            assert(pi != di);
            assert forall|j: int| 0 <= j < pi implies !#[trigger] slot_matches(sp_new, j, name) by {
                assert(!slot_matches(sp_old, j, name));
            }
            assert(spec_slot(sp_new, pi) == spec_slot(sp_old, pi));
            assert(slot_name(sp_new, pi) == slot_name(sp_old, pi));
            assert forall|k: int| 0 <= k <= pi implies !#[trigger] slot_free(sp_new, k) by {
                assert(!slot_free(sp_old, k));
                if k != di {
                    assert(slot_name(sp_new, k) == slot_name(sp_old, k));
                }
            }
            assert(slot_matches(sp_new, pi, name));
            assert(decoded_slot(e, sp_new, pi));
        } else {
            assert(sp_new == sp_old);
        }
    }

    /// Whether the only slot of directory `c` spelling `name`, live or not,
    /// is the one at byte `pos`.
    pub open spec fn name_only_at(&self, c: u16, name: Seq<u8>, pos: int) -> bool {
        let (start, num) = self.spec_dir_region(c);
        forall|s: int, j: int|
            start <= s < start + num && 0 <= j < 16 && #[trigger] slot_name(self.disk()[s], j) == name ==> s * 512
                + j * 32 == pos
    }

    /// Once the entry at byte `del`, the only slot of the root directory
    /// spelling `name`, is marked deleted, and an entry spelling another name
    /// is written into slot `i` of sector `sector`, a scan of the root
    /// directory finds no `name`: `fin` is this file system after both.
    pub proof fn lemma_moved_absent(
        &self,
        fin: Self,
        sector: int,
        i: int,
        bytes: Seq<u8>,
        del: int,
        name: Seq<u8>,
    )
        requires
            self.dir_readable(0),
            self.name_only_at(0, name, del),
            fin.spec_dir_region(0) == self.spec_dir_region(0),
            fin.disk() == spec_mark_deleted(
                self.disk().update(sector, spec_splice(self.disk()[sector], i * 32, bytes)),
                del,
            ),
            bytes.len() == 32,
            spec_name_parts(bytes.take(8), bytes.subrange(8, 11)) != name,
            self.spec_dir_region(0).0 <= sector < self.spec_dir_region(0).0 + self.spec_dir_region(0).1,
            0 <= i < 16,
            del >= 0,
            del % 32 == 0,
            self.spec_dir_region(0).0 <= del / 512 < self.spec_dir_region(0).0 + self.spec_dir_region(0).1,
        ensures
            fin.absent_in(0, name),
    {
        let (start, num) = self.spec_dir_region(0);
        let d = self.disk();
        let mid = d.update(sector, spec_splice(d[sector], i * 32, bytes));
        let f = fin.disk();
        let ds = del / 512;
        let di = (del % 512) / 32;
        assert(del % 512 == di * 32 && 0 <= di < 16 && del == ds * 512 + di * 32) by (nonlinear_arith)
            requires
                del % 32 == 0,
                di == (del % 512) / 32,
                ds == del / 512,
                del >= 0,
        ;
        assert(sector_ok(d, sector));
        assert(sector_ok(d, ds));
        lemma_splice_subrange(d[sector], i * 32, bytes);
        assert(mid[ds].len() == 512);
        assert(f[ds] == mid[ds].update(di * 32, DELETED_ENTRY_MARKER));
        assert forall|t: int| start <= t < start + num implies #[trigger] sector_ok(f, t) && no_match_before(
            f[t],
            16,
            name,
        ) by {
            assert(sector_ok(d, t));
            assert(mid[t].len() == 512);
            if t != ds {
                assert(f[t] == mid[t]);
            }
            assert forall|j: int| 0 <= j < 16 implies !#[trigger] slot_matches(f[t], j, name) by {
                if t == ds && j == di {
                    assert(f[t][j * 32] == DELETED_ENTRY_MARKER);
                } else {
                    assert(f[t].subrange(j * 32, j * 32 + 8) =~= mid[t].subrange(j * 32, j * 32 + 8));
                    assert(f[t].subrange(j * 32 + 8, j * 32 + 11) =~= mid[t].subrange(j * 32 + 8, j * 32 + 11));
                    if t == sector && j == i {
                        assert(mid[t].subrange(j * 32, j * 32 + 8) =~= bytes.take(8));
                        assert(mid[t].subrange(j * 32 + 8, j * 32 + 11) =~= bytes.subrange(8, 11));
                    } else {
                        if t == sector {
                            assert(mid[t].subrange(j * 32, j * 32 + 8) =~= d[t].subrange(j * 32, j * 32 + 8));
                            assert(mid[t].subrange(j * 32 + 8, j * 32 + 11) =~= d[t].subrange(
                                j * 32 + 8,
                                j * 32 + 11,
                            ));
                        }
                        assert(slot_name(f[t], j) == slot_name(d[t], j));
                        if slot_name(d[t], j) == name {
                            assert(t * 512 + j * 32 == del);
                            assert(t == ds && j == di) by (nonlinear_arith)
                                requires
                                    t * 512 + j * 32 == del,
                                    del == ds * 512 + di * 32,
                                    0 <= j < 16,
                                    0 <= di < 16,
                            ;
                        }
                    }
                }
            }
        }
    }

    /// Whether every cluster of the chain from `c` has its FAT entry inside
    /// the first FAT, `steps` links having been followed already, the FAT
    /// being cleared along the way as `spec_free_chain` does.
    pub open spec fn chain_in_fat(&self, disk: Seq<Seq<u8>>, c: u16, steps: nat) -> bool
        decreases 0x1_0000 - steps,
    {
        if steps >= 0x1_0000 {
            true
        } else {
            let next = spec_fat_entry(disk, self.spec_fat_start() as int, c);
            &&& c as int * 2 < self.spec_boot_sector().sectors_per_fat * 512
            &&& next < 0xFFF8 ==> self.chain_in_fat(self.spec_fat_write(disk, c, 0), next, steps + 1)
        }
    }

    /// Writing the FAT entry of a cluster that the first FAT holds changes
    /// no sector from the root directory on.
    pub proof fn lemma_fat_write_keeps_rest(&self, disk: Seq<Seq<u8>>, c: u16, v: u16)
        requires
            self.wf(),
            self.spec_boot_sector().fat_count >= 1,
            c as int * 2 < self.spec_boot_sector().sectors_per_fat * 512,
            crate::filesys::fat16::file::fat_readable(disk, self.spec_fat_start() as int, c as int, c + 1),
            self.spec_boot_sector().fat_count > 1 ==> crate::filesys::fat16::file::fat_readable(
                disk,
                self.spec_fat_start() + self.spec_boot_sector().sectors_per_fat,
                c as int,
                c + 1,
            ),
        ensures
            self.spec_fat_write(disk, c, v).len() == disk.len(),
            forall|s: int|
                self.spec_root_dir_start() <= s < disk.len() ==> #[trigger] self.spec_fat_write(disk, c, v)[s]
                    == disk[s],
    {
        let j = c as int;
        assert(crate::filesys::fat16::file::fat_sector_readable(disk, self.spec_fat_start() as int, j as u16));
        assert(j as u16 == c);
        let spf = self.spec_boot_sector().sectors_per_fat as int;
        let fc = self.spec_boot_sector().fat_count as int;
        assert(spec_fat_sector(c) < spf) by (nonlinear_arith)
            requires
                spec_fat_sector(c) == (c as int * 2) / 512,
                c as int * 2 < spf * 512,
        ;
        assert(spf * fc >= spf) by (nonlinear_arith)
            requires
                fc >= 1,
                spf >= 0,
        ;
        if fc > 1 {
            assert(crate::filesys::fat16::file::fat_sector_readable(disk, self.spec_fat_start() + spf, j as u16));
            assert(spf * fc >= 2 * spf) by (nonlinear_arith)
                requires
                    fc >= 2,
                    spf >= 0,
            ;
        }
    }

    /// Freeing a chain whose clusters the first FAT holds changes no sector
    /// from the root directory on.
    pub proof fn lemma_free_chain_keeps_rest(&self, disk: Seq<Seq<u8>>, c: u16, steps: nat)
        requires
            self.wf(),
            self.spec_boot_sector().fat_count >= 1,
            self.spec_free_chain_ok(disk, c, steps),
            self.chain_in_fat(disk, c, steps),
        ensures
            self.spec_free_chain(disk, c, steps).len() == disk.len(),
            forall|s: int|
                self.spec_root_dir_start() <= s < disk.len() ==> #[trigger] self.spec_free_chain(disk, c, steps)[s]
                    == disk[s],
        decreases 0x1_0000 - steps,
    {
        if steps < 0x1_0000 {
            self.lemma_fat_write_keeps_rest(disk, c, 0);
            let next = spec_fat_entry(disk, self.spec_fat_start() as int, c);
            if next < 0xFFF8 {
                let d1 = self.spec_fat_write(disk, c, 0);
                self.lemma_free_chain_keeps_rest(d1, next, steps + 1);
            }
        }
    }

    /// Once the entry at byte `pos`, the only slot of the root directory
    /// spelling `name`, is marked deleted and the chain from `cluster` freed,
    /// a scan of the root directory finds no `name`: `fin` is this file
    /// system after both.
    pub proof fn lemma_removed_absent(&self, fin: Self, pos: int, cluster: u16, name: Seq<u8>)
        requires
            self.wf(),
            self.spec_boot_sector().fat_count >= 1,
            self.dir_readable(0),
            self.name_only_at(0, name, pos),
            pos >= 0,
            pos % 32 == 0,
            self.spec_dir_region(0).0 <= pos / 512 < self.spec_dir_region(0).0 + self.spec_dir_region(0).1,
            self.spec_free_chain_ok(spec_mark_deleted(self.disk(), pos), cluster, 0),
            self.chain_in_fat(spec_mark_deleted(self.disk(), pos), cluster, 0),
            fin.disk() == self.spec_free_chain(spec_mark_deleted(self.disk(), pos), cluster, 0),
            fin.spec_dir_region(0) == self.spec_dir_region(0),
        ensures
            fin.absent_in(0, name),
    {
        let (start, num) = self.spec_dir_region(0);
        let d = self.disk();
        let m = spec_mark_deleted(d, pos);
        let f = fin.disk();
        let ds = pos / 512;
        let di = (pos % 512) / 32;
        assert(pos % 512 == di * 32 && 0 <= di < 16 && pos == ds * 512 + di * 32) by (nonlinear_arith)
            requires
                pos % 32 == 0,
                di == (pos % 512) / 32,
                ds == pos / 512,
                pos >= 0,
        ;
        assert(sector_ok(d, ds));
        self.lemma_free_chain_keeps_rest(m, cluster, 0);
        assert(start == self.spec_root_dir_start());
        assert forall|t: int| start <= t < start + num implies #[trigger] sector_ok(f, t) && no_match_before(
            f[t],
            16,
            name,
        ) by {
            assert(sector_ok(d, t));
            assert(f[t] == m[t]);
            assert forall|j: int| 0 <= j < 16 implies !#[trigger] slot_matches(f[t], j, name) by {
                if t == ds && j == di {
                    assert(m[t][j * 32] == DELETED_ENTRY_MARKER);
                } else {
                    if t == ds {
                        assert(m[t].subrange(j * 32, j * 32 + 8) =~= d[t].subrange(j * 32, j * 32 + 8));
                        assert(m[t].subrange(j * 32 + 8, j * 32 + 11) =~= d[t].subrange(j * 32 + 8, j * 32 + 11));
                    }
                    assert(slot_name(f[t], j) == slot_name(d[t], j));
                    if slot_name(d[t], j) == name {
                        assert(t * 512 + j * 32 == pos);
                        assert(t == ds && j == di) by (nonlinear_arith)
                            requires
                                t * 512 + j * 32 == pos,
                                pos == ds * 512 + di * 32,
                                0 <= j < 16,
                                0 <= di < 16,
                        ;
                    }
                }
            }
        }
    }

    /// A file created under a plain name at the root is then found there:
    /// the name was absent, `before` is the disk with the root directory
    /// as it was, and `fin` has the new entry in the first open slot.
    pub proof fn lemma_created_found(
        &self,
        fin: Self,
        before: Seq<Seq<u8>>,
        sector: int,
        i: int,
        entry: DirEntry83,
        path: Seq<u8>,
    )
        requires
            spec_components(path) == seq![spec_leaf(path)],
            plain_name(spec_leaf(path)),
            spec_base(spec_leaf(path)).len() <= 8,
            spec_ext(spec_leaf(path)).len() <= 3,
            self.absent_in(0, spec_leaf(path)),
            before.len() == self.disk().len(),
            forall|s: int|
                self.spec_dir_region(0).0 <= s < self.spec_dir_region(0).0 + self.spec_dir_region(0).1
                    ==> #[trigger] before[s] == self.disk()[s],
            fin.spec_dir_region(0) == self.spec_dir_region(0),
            self.open_slot_found(before, 0, sector, i),
            fin.disk() == before.update(sector, spec_splice(before[sector], i * 32, entry.spec_bytes())),
            entry.name@ == spec_padded(spec_base(spec_leaf(path)), 8),
            entry.ext@ == spec_padded(spec_ext(spec_leaf(path)), 3),
        ensures
            entry.spec_name() == spec_leaf(path),
            fin.found_at(path, entry, sector * 512 + i * 32),
    {
        let leaf = spec_leaf(path);
        let base = spec_base(leaf);
        lemma_plain_name(entry, leaf);
        lemma_rfind(leaf, EXTENSION_SEPARATOR);
        if base.len() > 0 {
            assert(base[0] == leaf[0]);
        }
        assert(entry.name@[0] != 0 && entry.name@[0] != DELETED_ENTRY_MARKER);
        let (start, num) = self.spec_dir_region(0);
        lemma_clear_kept(self.disk(), before, start, num, leaf);
        self.lemma_new_entry_found(fin, before, sector, i, entry, leaf);
        assert(fin.entry_found(0, spec_components(path).last(), entry, sector * 512 + i * 32));
    }

    /// Reads the boot sector from block 0 and derives the layout from it.
    pub fn new(device: D) -> (r: Result<Self, FsError>)
        ensures
            device.reliable() && device.spec_block_size() == 512 && device.blocks().len() > 0 ==> r is Ok,
            r matches Ok(fs) ==> {
                &&& fs.wf()
                &&& fs.disk() == device.blocks()
                &&& fs.device_reliable() == device.reliable()
                &&& fs.block_size() == device.spec_block_size()
                &&& sector_ok(device.blocks(), 0)
                &&& fs.spec_boot_sector().spec_bytes() == device.blocks()[0].take(62)
                &&& fs.spec_fd_table().len() == 0
                &&& fs.spec_reuse_fds().len() == 0
            },
    {
        let boot_sector_data = read_sector(&device, 0)?;
        let boot_sector = BootSector::read_from(boot_sector_data.as_slice());
        proof {
            assert(boot_sector_data@.subrange(0, 62) =~= boot_sector_data@.take(62));
        }
        let fat_start = boot_sector.reserved_sectors as u64;
        let sectors_per_fat = boot_sector.sectors_per_fat as u64;
        proof {
            assert(sectors_per_fat * (boot_sector.fat_count as u64) <= 65535 * 255) by (nonlinear_arith)
                requires
                    sectors_per_fat <= 65535,
                    boot_sector.fat_count <= 255,
            ;
        }
        let root_dir_start = fat_start + (sectors_per_fat * boot_sector.fat_count as u64);
        let data_start = root_dir_start + ROOT_DIR_SECTORS as u64;
        let cluster_size = boot_sector.sectors_per_cluster as usize * SECTOR_SIZE;
        Ok(Fat16 {
            device,
            boot_sector,
            fat_start,
            root_dir_start,
            data_start,
            cluster_size,
            fd_counter: 0,
            reuse_fds: Vec::new(),
            fd_table: Vec::new(),
        })
    }

    /// The FAT entry of `cluster`.
    pub fn read_fat_entry(&self, cluster: u16) -> (r: Result<FatEntry, FsError>)
        requires
            self.wf(),
        ensures
            self.io_ok() && crate::filesys::fat16::file::fat_sector_readable(
                self.disk(),
                self.spec_fat_start() as int,
                cluster,
            ) ==> r is Ok,
            self.io_ok() && r is Err ==> r->Err_0 == FsError::IOError,
            r matches Ok(e) ==> e.cluster == spec_fat_entry(
                self.disk(),
                self.spec_fat_start() as int,
                cluster,
            ),
    {
        read_fat_entry_at(&self.device, self.fat_start, cluster)
    }

    /// The disk after setting the FAT entry of `cluster` to `v` in the first
    /// FAT and copying its sector to the second FAT when there is one.
    pub open spec fn spec_fat_write(&self, disk: Seq<Seq<u8>>, cluster: u16, v: u16) -> Seq<Seq<u8>> {
        let s1 = spec_set_fat_entry(disk, self.spec_fat_start() as int, cluster, v);
        let sec = self.spec_fat_start() + spec_fat_sector(cluster);
        if self.spec_boot_sector().fat_count > 1 {
            s1.update(sec + self.spec_boot_sector().sectors_per_fat, s1[sec])
        } else {
            s1
        }
    }

    /// `disk` once the cluster chain from `c` is freed, `steps` links having
    /// been followed already: the FAT entry of each cluster, read before it
    /// is cleared, names the next one, until an end-of-chain mark.
    pub open spec fn spec_free_chain(&self, disk: Seq<Seq<u8>>, c: u16, steps: nat) -> Seq<Seq<u8>>
        decreases 0x1_0000 - steps,
    {
        if steps >= 0x1_0000 {
            disk
        } else {
            let next = spec_fat_entry(disk, self.spec_fat_start() as int, c);
            if next >= 0xFFF8 {
                self.spec_fat_write(disk, c, 0)
            } else {
                self.spec_free_chain(self.spec_fat_write(disk, c, 0), next, steps + 1)
            }
        }
    }

    /// Whether the FAT entries of the clusters in `[lo, hi)` lie in whole
    /// sectors of the disk, in the second FAT too when there is one.
    pub open spec fn fats_readable(&self, lo: int, hi: int) -> bool {
        &&& crate::filesys::fat16::file::fat_readable(self.disk(), self.spec_fat_start() as int, lo, hi)
        &&& self.spec_boot_sector().fat_count > 1 ==> crate::filesys::fat16::file::fat_readable(
            self.disk(),
            self.spec_fat_start() + self.spec_boot_sector().sectors_per_fat,
            lo,
            hi,
        )
    }

    /// A FAT write for a cluster that the FATs cover, with at least one
    /// FAT, leaves every sector from the root directory on as it was.
    pub proof fn lemma_fat_write_keeps_root(&self, disk: Seq<Seq<u8>>, c: u16, v: u16)
        requires
            self.wf(),
            self.spec_boot_sector().fat_count >= 1,
            c as int * 2 < self.spec_boot_sector().sectors_per_fat * 512,
            self.fats_readable(c as int, c + 1),
            disk == self.disk(),
        ensures
            self.spec_fat_write(disk, c, v).len() == disk.len(),
            forall|s: int|
                self.spec_root_dir_start() <= s < disk.len() ==> #[trigger] self.spec_fat_write(disk, c, v)[s]
                    == disk[s],
    {
        let j = c as int;
        assert(crate::filesys::fat16::file::fat_sector_readable(disk, self.spec_fat_start() as int, j as u16));
        assert(j as u16 == c);
        let spf = self.spec_boot_sector().sectors_per_fat as int;
        let fc = self.spec_boot_sector().fat_count as int;
        assert(spec_fat_sector(c) < spf) by (nonlinear_arith)
            requires
                spec_fat_sector(c) == (c as int * 2) / 512,
                c as int * 2 < spf * 512,
        ;
        assert(spf * fc >= spf) by (nonlinear_arith)
            requires
                fc >= 1,
                spf >= 0,
        ;
        if fc > 1 {
            assert(crate::filesys::fat16::file::fat_sector_readable(
                disk,
                self.spec_fat_start() + spf,
                j as u16,
            ));
            assert(spf * fc >= 2 * spf) by (nonlinear_arith)
                requires
                    fc >= 2,
                    spf >= 0,
            ;
        }
    }

    /// Whether freeing the cluster chain from `c` on `disk`, `steps` links
    /// having been followed, reads and writes only FAT entries in whole
    /// sectors of the disk (in both FATs when there are two) and reaches the
    /// chain's end before following 65536 links.
    pub open spec fn spec_free_chain_ok(&self, disk: Seq<Seq<u8>>, c: u16, steps: nat) -> bool
        decreases 0x1_0000 - steps,
    {
        let fs = self.spec_fat_start() as int;
        if steps >= 0x1_0000 {
            false
        } else {
            &&& crate::filesys::fat16::file::fat_readable(disk, fs, c as int, c + 1)
            &&& self.spec_boot_sector().fat_count > 1 ==> crate::filesys::fat16::file::fat_readable(
                disk,
                fs + self.spec_boot_sector().sectors_per_fat,
                c as int,
                c + 1,
            )
            &&& spec_fat_entry(disk, fs, c) < 0xFFF8 ==> self.spec_free_chain_ok(
                self.spec_fat_write(disk, c, 0),
                spec_fat_entry(disk, fs, c),
                steps + 1,
            )
        }
    }

    /// Sets the FAT entry of `cluster`, in the second FAT too when there is one.
    pub fn write_fat_entry(&mut self, cluster: u16, entry: FatEntry) -> (r: Result<(), FsError>)
        requires
            old(self).wf(),
        ensures
            old(self).io_ok() && r is Err ==> r->Err_0 == FsError::IOError,
            final(self).wf(),
            final(self).block_size() == old(self).block_size(),
            final(self).same_state(*old(self)),
            r is Ok ==> final(self).disk() == old(self).spec_fat_write(old(self).disk(), cluster, entry.cluster),
            old(self).io_ok() && old(self).fats_readable(cluster as int, cluster + 1) ==> r is Ok,
    {
        proof {
            crate::filesys::fat16::file::lemma_fat_offset(cluster);
            if self.io_ok() && self.fats_readable(cluster as int, cluster + 1) {
                let j = cluster as int;
                assert(crate::filesys::fat16::file::fat_sector_readable(
                    self.disk(),
                    self.spec_fat_start() as int,
                    j as u16,
                ));
                if self.spec_boot_sector().fat_count > 1 {
                    assert(crate::filesys::fat16::file::fat_sector_readable(
                        self.disk(),
                        self.spec_fat_start() + self.spec_boot_sector().sectors_per_fat,
                        j as u16,
                    ));
                }
                assert(j as u16 == cluster);
            }
        }
        let ghost disk0 = self.disk();
        let sector_data = write_fat_entry_at(&mut self.device, self.fat_start, cluster, entry)?;
        if self.boot_sector.fat_count > 1 {
            let offset = cluster as u64 * 2;
            let sector = self.fat_start + (offset / SECTOR_SIZE as u64);
            let second_fat_sector = sector + self.boot_sector.sectors_per_fat as u64;
            proof {
                let fs = self.spec_fat_start() + spec_fat_sector(cluster);
                assert(sector == fs);
                crate::filesys::fat16::file::lemma_put_u16_len(
                    disk0[fs],
                    crate::filesys::fat16::file::spec_fat_offset(cluster),
                    entry.cluster,
                );
                assert(self.disk().len() == disk0.len());
            }
            self.device.write_block(second_fat_sector, sector_data.as_slice())?;
        }
        Ok(())
    }

    /// Whether `other` has the same layout and open files as this file system.
    pub open spec fn same_state(&self, other: Self) -> bool {
        &&& self.spec_boot_sector() == other.spec_boot_sector()
        &&& self.spec_fat_start() == other.spec_fat_start()
        &&& self.spec_root_dir_start() == other.spec_root_dir_start()
        &&& self.spec_data_start() == other.spec_data_start()
        &&& self.spec_cluster_size() == other.spec_cluster_size()
        &&& self.spec_fd_table() == other.spec_fd_table()
        &&& self.spec_reuse_fds() == other.spec_reuse_fds()
        &&& self.device_reliable() == other.device_reliable()
    }

    /// Whether this file system has the layout and open files of `other`,
    /// its table of open files aside.
    pub open spec fn same_layout(&self, other: Self) -> bool {
        &&& self.spec_boot_sector() == other.spec_boot_sector()
        &&& self.spec_fat_start() == other.spec_fat_start()
        &&& self.spec_root_dir_start() == other.spec_root_dir_start()
        &&& self.spec_data_start() == other.spec_data_start()
        &&& self.spec_cluster_size() == other.spec_cluster_size()
        &&& self.device_reliable() == other.device_reliable()
    }

    /// First sector of data cluster `cluster`.
    pub fn cluster_to_sector(&self, cluster: u16) -> (r: u64)
        requires
            self.wf(),
            cluster >= 2,
        ensures
            r == self.spec_data_start() + (cluster - 2) * self.spc(),
    {
        let spc = self.boot_sector.sectors_per_cluster as u64;
        proof {
            assert((cluster - 2) * spc <= 65535 * 255) by (nonlinear_arith)
                requires
                    2 <= cluster <= 65535,
                    spc <= 255,
            ;
        }
        self.data_start + ((cluster as u64 - 2) * spc)
    }

    /// The first sector and the number of sectors of the directory whose
    /// first cluster is `c`; cluster 1 names no directory.
    fn dir_region(&self, c: u16) -> (r: Result<(u64, u64), FsError>)
        requires
            self.wf(),
        ensures
            c == 1 <==> r is Err,
            r is Err ==> r == Err::<(u64, u64), FsError>(FsError::IOError),
            r matches Ok((s, n)) ==> (s as int, n as int) == self.spec_dir_region(c) && n <= 255 && s
                + n <= 0x200_0000,
    {
        if c == 0 {
            Ok((self.root_dir_start, ROOT_DIR_SECTORS as u64))
        } else if c == 1 {
            Err(FsError::IOError)
        } else {
            let start = self.cluster_to_sector(c);
            proof {
                let spc = self.spc();
                assert((c - 2) * spc + spc <= 65535 * 255) by (nonlinear_arith)
                    requires
                        2 <= c <= 65535,
                        spc <= 255,
                ;
            }
            Ok((start, self.boot_sector.sectors_per_cluster as u64))
        }
    }

    /// Looks through the directory whose first cluster is `dir_cluster` for an
    /// entry called `name`, sector by sector; a sector's scan stops at its
    /// first unused slot and deleted entries are skipped. Returns the entry
    /// and its byte position on the device.
    pub fn find_entry_in_dir(&self, dir_cluster: u64, name: &[u8]) -> (r: Result<
        (DirEntry83, u64),
        FsError,
    >)
        requires
            self.wf(),
        ensures
            self.io_ok() && r is Err ==> r->Err_0 == FsError::IOError || r->Err_0 == FsError::NotFound,
            r matches Ok((e, pos)) ==> self.entry_found(dir_cluster as u16, name@, e, pos as int),
            self.io_ok() && r == Err::<(DirEntry83, u64), FsError>(FsError::NotFound) ==> self.absent_in(
                dir_cluster as u16,
                name@,
            ),
            self.io_ok() && self.dir_readable(dir_cluster as u16) ==> r is Ok || r == Err::<
                (DirEntry83, u64),
                FsError,
            >(FsError::NotFound),
    {
        #[verifier::truncate]
        let c = dir_cluster as u16;
        let (start_sector, num_sectors) = match self.dir_region(c) {
            Ok(region) => region,
            Err(e) => {
                return Err(e);
            },
        };
        let mut sector_offset: u64 = 0;
        while sector_offset < num_sectors
            invariant
                self.wf(),
                (start_sector as int, num_sectors as int) == self.spec_dir_region(c),
                c != 1,
                c == dir_cluster as u16,
                num_sectors <= 255,
                start_sector + num_sectors <= 0x200_0000,
                sector_offset <= num_sectors,
                scanned_clear(self.disk(), start_sector as int, sector_offset as int, name@),
            decreases num_sectors - sector_offset,
        {
            let sector = start_sector + sector_offset;
            let sector_buffer = match read_sector(&self.device, sector) {
                Ok(b) => b,
                Err(e) => {
                    proof {
                        if self.io_ok() && self.dir_readable(c) {
                            assert(sector_ok(self.disk(), sector as int));
                        }
                    }
                    return Err(e);
                },
            };
            let ghost sec = sector_buffer@;
            let mut i: usize = 0;
            let mut stop = false;
            while i < ENTRIES_PER_SECTOR && !stop
                invariant
                    self.wf(),
                    (start_sector as int, num_sectors as int) == self.spec_dir_region(c),
                    c != 1,
                    c == dir_cluster as u16,
                    start_sector + num_sectors <= 0x200_0000,
                    sector == start_sector + sector_offset,
                    sector_offset < num_sectors,
                    scanned_clear(self.disk(), start_sector as int, sector_offset as int, name@),
                    sector_ok(self.disk(), sector as int),
                    sec == self.disk()[sector as int],
                    sec.len() == 512,
                    sector_buffer@ == sec,
                    i <= 16,
                    no_match_before(sec, i as int, name@),
                    forall|j: int| 0 <= j < i ==> !#[trigger] slot_free(sec, j),
                    stop ==> i < 16 && slot_free(sec, i as int),
                decreases 16 - i + (if stop { 0int } else { 1int }),
            {
                let entry = DirEntry83::read_from(sector_buffer.as_slice(), i * DIR_ENTRY_SIZE);
                proof {
                    lemma_entry_bytes_len(entry);
                    assert(entry.name@ =~= sec.subrange(i * 32, i * 32 + 8));
                    assert(entry.ext@ =~= sec.subrange(i * 32 + 8, i * 32 + 11));
                    assert(entry.name@[0] == sec[i * 32]);
                }
                if entry.is_free() {
                    stop = true;
                } else {
                    let found_name = entry.name_bytes();
                    if !entry.is_deleted() && bytes_eq(found_name.as_slice(), name) {
                        let pos = sector * SECTOR_SIZE as u64 + (i * DIR_ENTRY_SIZE) as u64;
                        proof {
                            assert(pos / 512 == sector && (pos % 512) / 32 == i) by (nonlinear_arith)
                                requires
                                    pos == sector * 512 + i * 32,
                                    i < 16,
                            ;
                            assert(slot_live(sec, i as int));
                        }
                        return Ok((entry, pos));
                    }
                    proof {
                        assert(!slot_matches(sec, i as int, name@));
                    }
                    i = i + 1;
                }
            }
            proof {
                assert forall|j: int| 0 <= j < 16 implies !#[trigger] slot_matches(sec, j, name@) by {
                    if j >= i {
                        assert(stop);
                        assert(slot_free(sec, i as int));
                        assert(!slot_live(sec, j));
                    }
                }
            }
            proof {
                assert forall|s: int| start_sector <= s < start_sector + sector_offset + 1 implies sector_ok(
                    self.disk(),
                    s,
                ) && no_match_before(#[trigger] self.disk()[s], 16, name@) by {
                    if s < start_sector + sector_offset {
                        assert(sector_ok(self.disk(), s) && no_match_before(self.disk()[s], 16, name@));
                    }
                }
            }
            sector_offset = sector_offset + 1;
        }
        Err(FsError::NotFound)
    }

    /// Whether slot `i` of sector `sector` is where a new entry goes in
    /// directory `c`: the first slot, in order, that is unused or deleted.
    pub open spec fn open_slot_found(&self, disk: Seq<Seq<u8>>, c: u16, sector: int, i: int) -> bool {
        let (start, num) = self.spec_dir_region(c);
        &&& c != 1
        &&& start <= sector < start + num
        &&& 0 <= i < 16
        &&& sector_ok(disk, sector)
        &&& slot_open(disk[sector], i)
        &&& none_open_before(disk[sector], i)
        &&& forall|s: int| start <= s < sector ==> sector_ok(disk, s) && none_open_before(#[trigger] disk[s], 16)
    }

    /// Writes `entry` into the first slot of directory `dir_cluster` that is
    /// unused or deleted; `NotSupported` when the directory is full.
    pub fn write_dir_entry(&mut self, dir_cluster: u16, entry: &DirEntry83) -> (r: Result<(), FsError>)
        requires
            old(self).wf(),
        ensures
            old(self).io_ok() && old(self).dir_readable(dir_cluster) && (exists|sector: int, i: int|
                #[trigger] old(self).open_slot_found(old(self).disk(), dir_cluster, sector, i)) ==> r is Ok,
            old(self).io_ok() && r is Err ==> r->Err_0 == FsError::IOError || r->Err_0 == FsError::NotSupported,
            final(self).wf(),
            final(self).same_state(*old(self)),
            final(self).block_size() == old(self).block_size(),
            r is Ok ==> exists|sector: int, i: int|
                #![trigger old(self).open_slot_found(old(self).disk(), dir_cluster, sector, i)]
                old(self).open_slot_found(old(self).disk(), dir_cluster, sector, i) && final(self).disk()
                    == old(self).disk().update(
                    sector,
                    spec_splice(old(self).disk()[sector], i * 32, entry.spec_bytes()),
                ),
            r is Err ==> final(self).disk() == old(self).disk(),
    {
        let (start_sector, num_sectors) = self.dir_region(dir_cluster)?;
        let ghost disk = self.disk();
        let mut sector_offset: u64 = 0;
        while sector_offset < num_sectors
            invariant
                self.wf(),
                *self == *old(self),
                disk == self.disk(),
                (start_sector as int, num_sectors as int) == self.spec_dir_region(dir_cluster),
                dir_cluster != 1,
                num_sectors <= 255,
                start_sector + num_sectors <= 0x200_0000,
                sector_offset <= num_sectors,
                forall|s: int|
                    start_sector <= s < start_sector + sector_offset ==> sector_ok(disk, s)
                        && none_open_before(#[trigger] disk[s], 16),
            decreases num_sectors - sector_offset,
        {
            let sector = start_sector + sector_offset;
            proof {
                if self.io_ok() && self.dir_readable(dir_cluster) {
                    assert(sector_ok(self.disk(), sector as int));
                }
            }
            let mut sector_buffer = read_sector(&self.device, sector)?;
            let ghost sec = sector_buffer@;
            let mut i: usize = 0;
            while i < ENTRIES_PER_SECTOR
                invariant
                    self.wf(),
                    *self == *old(self),
                    disk == self.disk(),
                    (start_sector as int, num_sectors as int) == self.spec_dir_region(dir_cluster),
                    dir_cluster != 1,
                    start_sector + num_sectors <= 0x200_0000,
                    sector == start_sector + sector_offset,
                    sector_offset < num_sectors,
                    forall|s: int|
                        start_sector <= s < start_sector + sector_offset ==> sector_ok(disk, s)
                            && none_open_before(#[trigger] disk[s], 16),
                    sector_ok(disk, sector as int),
                    sec == disk[sector as int],
                    sector_buffer@ == sec,
                    i <= 16,
                    none_open_before(sec, i as int),
                decreases 16 - i,
            {
                let found = DirEntry83::read_from(sector_buffer.as_slice(), i * DIR_ENTRY_SIZE);
                proof {
                    lemma_entry_bytes_len(found);
                    assert(found.name@[0] == sec[i * 32]);
                }
                if found.is_free() || found.is_deleted() {
                    entry.write_to(sector_buffer.as_mut_slice(), i * DIR_ENTRY_SIZE);
                    proof {
                        lemma_entry_bytes_len(*entry);
                        assert(sector_buffer@ =~= spec_splice(sec, i * 32, entry.spec_bytes()));
                        assert(self.open_slot_found(disk, dir_cluster, sector as int, i as int));
                        assert(sector_buffer@.len() == 512);
                    }
                    self.device.write_block(sector, sector_buffer.as_slice())?;
                    return Ok(());
                }
                i = i + 1;
            }
            sector_offset = sector_offset + 1;
        }
        proof {
            if exists|sector: int, i: int| #[trigger] old(self).open_slot_found(old(self).disk(), dir_cluster, sector, i) {
                let (sec, j) = choose|sector: int, i: int|
                    #[trigger] old(self).open_slot_found(old(self).disk(), dir_cluster, sector, i);
                assert(sector_ok(disk, sec) && none_open_before(disk[sec], 16));
                assert(!slot_open(disk[sec], j));
            }
        }
        Err(FsError::NotSupported)
    }

    /// How many clusters `allocate_cluster` looks through, counting from 0:
    /// the sectors after the data area's start, per cluster, truncated to
    /// 16 bits (none when that cannot be computed).
    pub open spec fn alloc_limit(&self) -> u16 {
        let bs = self.spec_boot_sector();
        if bs.sectors_per_cluster == 0 || (bs.total_sectors_16 as int) < self.spec_data_start() {
            0
        } else {
            ((bs.total_sectors_16 - self.spec_data_start()) / (bs.sectors_per_cluster as int)) as u16
        }
    }

    /// The number of data clusters, as `alloc_limit` says.
    pub fn cluster_limit(&self) -> (r: u16)
        requires
            self.wf(),
        ensures
            r == self.alloc_limit(),
    {
        let spc = self.boot_sector.sectors_per_cluster as u64;
        let total16 = self.boot_sector.total_sectors_16 as u64;
        if spc == 0 || total16 < self.data_start {
            0
        } else {
            #[verifier::truncate]
            let l = ((total16 - self.data_start) / spc) as u16;
            l
        }
    }

    /// Finds the first free cluster from 2 on, marks it as the end of a chain
    /// and returns it; `NotSupported` when none is free.
    pub fn allocate_cluster(&mut self) -> (r: Result<u16, FsError>)
        requires
            old(self).wf(),
        ensures
            old(self).io_ok() && r is Err ==> r->Err_0 == FsError::IOError || r->Err_0 == FsError::NotSupported,
            final(self).wf(),
            final(self).same_state(*old(self)),
            final(self).block_size() == old(self).block_size(),
            r matches Ok(c) ==> {
                &&& 2 <= c < old(self).alloc_limit()
                &&& spec_fat_entry(old(self).disk(), old(self).spec_fat_start() as int, c) == 0
                &&& all_in_use(old(self).disk(), old(self).spec_fat_start() as int, 2, c as int)
                &&& final(self).disk() == old(self).spec_fat_write(old(self).disk(), c, 0xFFFF)
            },
            all_in_use(old(self).disk(), old(self).spec_fat_start() as int, 2, old(self).alloc_limit() as int)
                ==> r is Err,
            old(self).io_ok() && old(self).fats_readable(2, old(self).alloc_limit() as int) ==> (r is Ok
                <==> !all_in_use(old(self).disk(), old(self).spec_fat_start() as int, 2, old(self).alloc_limit() as int))
                && (r is Err ==> r == Err::<u16, FsError>(FsError::NotSupported)),
    {
        let limit = self.cluster_limit();
        match find_free_cluster(&self.device, self.fat_start, limit) {
            Ok(Some(cluster)) => {
                match self.write_fat_entry(cluster, FatEntry { cluster: 0xFFFF }) {
                    Ok(()) => Ok(cluster),
                    Err(e) => Err(e),
                }
            },
            Ok(None) => Err(FsError::NotSupported),
            Err(e) => Err(e),
        }
    }

    /// Whether `e`, at byte `pos`, is what looking up `path` finds: the
    /// entry named by the path's last component, found in some directory,
    /// in the root directory when the path has one component.
    pub open spec fn found_at(&self, path: Seq<u8>, e: DirEntry83, pos: int) -> bool {
        let comps = spec_components(path);
        &&& comps.len() > 0
        &&& e.spec_name() == comps.last()
        &&& exists|c: u16| #[trigger] self.entry_found(c, comps.last(), e, pos)
        &&& comps.len() == 1 ==> self.entry_found(0, comps[0], e, pos)
    }

    /// Looks up `path`: each component but the last must name a directory,
    /// in which the next is looked up, starting from the root directory.
    pub fn find_entry(&self, path: &str) -> (r: Result<(DirEntry83, u64), FsError>)
        requires
            self.wf(),
        ensures
            self.io_ok() && r is Err ==> r->Err_0 == FsError::IOError || r->Err_0 == FsError::NotFound || r->Err_0
                == FsError::InvalidName,
            spec_components(path.spec_bytes()).len() == 0 ==> r == Err::<(DirEntry83, u64), FsError>(
                FsError::InvalidName,
            ),
            r matches Ok((e, pos)) ==> self.found_at(path.spec_bytes(), e, pos as int),
            spec_components(path.spec_bytes()).len() == 1 && self.io_ok() && r == Err::<(DirEntry83, u64), FsError>(
                FsError::NotFound,
            ) ==> self.absent_in(0, spec_components(path.spec_bytes())[0]),
            spec_components(path.spec_bytes()).len() == 1 && self.io_ok() && self.dir_readable(0) ==> r is Ok
                || r == Err::<(DirEntry83, u64), FsError>(FsError::NotFound),
    {
        self.find_entry_bytes(path.as_bytes())
    }

    /// `find_entry` on the bytes of a path.
    pub fn find_entry_bytes(&self, path: &[u8]) -> (r: Result<(DirEntry83, u64), FsError>)
        requires
            self.wf(),
        ensures
            self.io_ok() && r is Err ==> r->Err_0 == FsError::IOError || r->Err_0 == FsError::NotFound || r->Err_0
                == FsError::InvalidName,
            spec_components(path@).len() == 0 ==> r == Err::<(DirEntry83, u64), FsError>(
                FsError::InvalidName,
            ),
            r matches Ok((e, pos)) ==> self.found_at(path@, e, pos as int),
            spec_components(path@).len() == 1 && self.io_ok() && r == Err::<(DirEntry83, u64), FsError>(
                FsError::NotFound,
            ) ==> self.absent_in(0, spec_components(path@)[0]),
            spec_components(path@).len() == 1 && self.io_ok() && self.dir_readable(0) ==> r is Ok || r == Err::<
                (DirEntry83, u64),
                FsError,
            >(FsError::NotFound),
    {
        let comps = components(path);
        let n = comps.len();
        if n == 0 {
            return Err(FsError::InvalidName);
        }
        let mut current_dir_cluster: u64 = 0;
        let mut i: usize = 0;
        while i < n - 1
            invariant
                self.wf(),
                n == comps@.len(),
                n == spec_components(path@).len(),
                forall|k: int| 0 <= k < comps@.len() ==> (#[trigger] comps@[k])@ == spec_components(path@)[k],
                0 < n,
                i <= n - 1,
                i == 0 ==> current_dir_cluster == 0,
            decreases n - 1 - i,
        {
            let (entry, _) = self.find_entry_in_dir(current_dir_cluster, comps[i].as_slice())?;
            if !entry.is_directory() {
                return Err(FsError::NotFound);
            }
            current_dir_cluster = entry.start_cluster as u64;
            i = i + 1;
        }
        let last = comps[n - 1].as_slice();
        let r = self.find_entry_in_dir(current_dir_cluster, last);
        proof {
            if r is Ok {
                let (e, pos) = r->Ok_0;
                let c = current_dir_cluster as u16;
                assert(self.entry_found(c, spec_components(path@).last(), e, pos as int));
                let sector = (pos / 512) as int;
                let k = ((pos % 512) / 32) as int;
                lemma_decoded_slot(e, self.disk()[sector], k);
                if n == 1 {
                    assert(c == 0);
                }
            }
        }
        r
    }

    /// Writes the cluster of a new directory: "." for itself and ".." for
    /// its parent in the first sector, zeros in the rest of it.
    pub fn init_directory(&mut self, cluster: u16, parent_cluster: u16) -> (r: Result<(), FsError>)
        requires
            old(self).wf(),
            cluster >= 2,
        ensures
            final(self).wf(),
            final(self).same_state(*old(self)),
            final(self).block_size() == old(self).block_size(),
            r is Ok ==> final(self).disk() == spec_init_dir(
                old(self).disk(),
                old(self).spec_data_start() + (cluster - 2) * old(self).spc(),
                old(self).spc(),
                spec_dir_first_sector(cluster, parent_cluster),
            ) && old(self).spec_data_start() + (cluster - 2) * old(self).spc() < old(self).disk().len(),
    {
        let dot: [u8; 1] = [0x2E];
        let dotdot: [u8; 2] = [0x2E, 0x2E];
        let dot_entry = DirEntry83::directory_from_parts(vstd::array::array_as_slice(&dot), cluster);
        let dotdot_entry = DirEntry83::directory_from_parts(vstd::array::array_as_slice(&dotdot), parent_cluster);
        let sector = self.cluster_to_sector(cluster);
        let mut sector_data = vec![0u8; SECTOR_SIZE];
        dot_entry.write_to(sector_data.as_mut_slice(), 0);
        dotdot_entry.write_to(sector_data.as_mut_slice(), DIR_ENTRY_SIZE);
        proof {
            lemma_entry_bytes_len(dot_entry);
            lemma_entry_bytes_len(dotdot_entry);
            assert(dot@ =~= seq![0x2Eu8]);
            assert(dotdot@ =~= seq![0x2Eu8, 0x2Eu8]);
            assert(sector_data@ =~= spec_dir_first_sector(cluster, parent_cluster));
        }
        let ghost disk = self.disk();
        self.device.write_block(sector, sector_data.as_slice())?;
        let zero_block = vec![0u8; SECTOR_SIZE];
        let spc = self.boot_sector.sectors_per_cluster as u64;
        let mut i: u64 = 1;
        proof {
            assert(self.disk() =~= spec_init_dir(disk, sector as int, 1, spec_dir_first_sector(cluster, parent_cluster)));
            assert(sector + spc <= 0x200_0000) by (nonlinear_arith)
                requires
                    sector == self.spec_data_start() + (cluster - 2) * spc,
                    self.spec_data_start() <= 0x100_0000,
                    2 <= cluster <= 65535,
                    spc <= 255,
            ;
        }
        while i < spc
            invariant
                self.wf(),
                self.same_state(*old(self)),
                self.block_size() == old(self).block_size(),
                disk == old(self).disk(),
                sector < disk.len(),
                sector == old(self).spec_data_start() + (cluster - 2) * old(self).spc(),
                spc == old(self).spc(),
                sector + spc <= 0x200_0000,
                1 <= i,
                i <= spc || i == 1,
                zero_block@ == Seq::new(512, |j: int| 0u8),
                self.disk() == spec_init_dir(disk, sector as int, i as nat, spec_dir_first_sector(cluster, parent_cluster)),
            decreases spc - i,
        {
            self.device.write_block(sector + i, zero_block.as_slice())?;
            proof {
                assert(self.disk() =~= spec_init_dir(
                    disk,
                    sector as int,
                    (i + 1) as nat,
                    spec_dir_first_sector(cluster, parent_cluster),
                ));
            }
            i = i + 1;
        }
        proof {
            if spc == 0 {
                assert(spec_init_dir(disk, sector as int, 1, spec_dir_first_sector(cluster, parent_cluster))
                    =~= spec_init_dir(disk, sector as int, 0, spec_dir_first_sector(cluster, parent_cluster)));
            }
        }
        Ok(())
    }

    /// Whether the directory whose first cluster is `dir_cluster` holds
    /// nothing but "." and "..", looking at its first sector.
    pub fn is_directory_empty(&self, dir_cluster: u16) -> (r: Result<bool, FsError>)
        requires
            self.wf(),
        ensures
            self.io_ok() && r is Err ==> r->Err_0 == FsError::IOError,
            dir_cluster < 2 ==> r is Err,
            r matches Ok(b) ==> {
                let sector = self.spec_data_start() + (dir_cluster - 2) * self.spc();
                &&& sector_ok(self.disk(), sector)
                &&& b == dir_sector_empty(self.disk()[sector])
            },
    {
        if dir_cluster < 2 {
            return Err(FsError::IOError);
        }
        let sector = self.cluster_to_sector(dir_cluster);
        let sector_buffer = read_sector(&self.device, sector)?;
        let ghost sec = sector_buffer@;
        let mut i: usize = 0;
        let mut stop = false;
        while i < ENTRIES_PER_SECTOR && !stop
            invariant
                dir_cluster >= 2,
                sector == self.spec_data_start() + (dir_cluster - 2) * self.spc(),
                sector_ok(self.disk(), sector as int),
                sec == self.disk()[sector as int],
                sec.len() == 512,
                sector_buffer@ == sec,
                i <= 16,
                forall|j: int| 0 <= j < i ==> !#[trigger] slot_free(sec, j),
                forall|j: int|
                    0 <= j < i && #[trigger] slot_live(sec, j) ==> slot_name(sec, j) == seq![0x2Eu8]
                        || slot_name(sec, j) == seq![0x2Eu8, 0x2Eu8],
                stop ==> i < 16 && slot_free(sec, i as int),
            decreases 16 - i + (if stop { 0int } else { 1int }),
        {
            let entry = DirEntry83::read_from(sector_buffer.as_slice(), i * DIR_ENTRY_SIZE);
            proof {
                lemma_decoded_slot(entry, sec, i as int);
            }
            if entry.is_free() {
                stop = true;
            } else {
                if !entry.is_deleted() {
                    let name = entry.name_bytes();
                    let dot: [u8; 1] = [0x2E];
                    let dotdot: [u8; 2] = [0x2E, 0x2E];
                    let is_dot = bytes_eq(name.as_slice(), vstd::array::array_as_slice(&dot));
                    let is_dotdot = bytes_eq(name.as_slice(), vstd::array::array_as_slice(&dotdot));
                    proof {
                        assert(dot@ =~= seq![0x2Eu8]);
                        assert(dotdot@ =~= seq![0x2Eu8, 0x2Eu8]);
                    }
                    if !is_dot && !is_dotdot {
                        proof {
                            assert(slot_live(sec, i as int));
                        }
                        return Ok(false);
                    }
                }
                i = i + 1;
            }
        }
        proof {
            assert forall|j: int| 0 <= j < 16 && #[trigger] slot_live(sec, j) implies slot_name(sec, j)
                == seq![0x2Eu8] || slot_name(sec, j) == seq![0x2Eu8, 0x2Eu8] by {
                if j >= i {
                    assert(slot_free(sec, i as int));
                }
            }
        }
        Ok(true)
    }

    /// Removes the entry at `path` when it is a directory exactly when
    /// `is_dir` says so: marks its slot deleted, then frees its cluster chain.
    pub fn remove_entry(&mut self, path: &str, is_dir: bool) -> (r: Result<(), FsError>)
        requires
            old(self).wf(),
        ensures
            spec_components(path.spec_bytes()).len() == 1 && old(self).io_ok() && old(self).dir_readable(0) && (exists|
                e: DirEntry83,
                pos: int,
            | #[trigger] old(self).found_at(path.spec_bytes(), e, pos) && e.spec_is_directory() == is_dir
                && old(self).spec_free_chain_ok(spec_mark_deleted(old(self).disk(), pos), e.start_cluster, 0))
                ==> r is Ok,
            old(self).io_ok() && r == Err::<(), FsError>(FsError::NotSupported) ==> exists|e: DirEntry83, pos: int|
                #[trigger] old(self).found_at(path.spec_bytes(), e, pos) && e.spec_is_directory() != is_dir,
            final(self).wf(),
            final(self).same_state(*old(self)),
            final(self).block_size() == old(self).block_size(),
            r is Ok ==> exists|e: DirEntry83, pos: int|
                #![trigger old(self).found_at(path.spec_bytes(), e, pos)]
                {
                    &&& old(self).found_at(path.spec_bytes(), e, pos)
                    &&& e.spec_is_directory() == is_dir
                    &&& final(self).disk() == old(self).spec_free_chain(
                        spec_mark_deleted(old(self).disk(), pos),
                        e.start_cluster,
                        0,
                    )
                },
            spec_components(path.spec_bytes()).len() == 1 && old(self).io_ok() && old(self).dir_readable(0) && (exists|
                e: DirEntry83,
                pos: int,
            | #[trigger] old(self).found_at(path.spec_bytes(), e, pos) && e.spec_is_directory() != is_dir) ==> r == Err::<(), FsError>(
                FsError::NotSupported,
            ) && final(self).disk() == old(self).disk(),
    {
        let lookup = self.find_entry(path);
        proof {
            if spec_components(path.spec_bytes()).len() == 1 && self.io_ok() && self.dir_readable(0) && (exists|
                e: DirEntry83,
                pos: int,
            | #[trigger] self.found_at(path.spec_bytes(), e, pos)) {
                let (e, pos) = choose|e: DirEntry83, pos: int| #[trigger] self.found_at(path.spec_bytes(), e, pos);
                self.lemma_root_lookup(path.spec_bytes(), lookup, e, pos);
                assert forall|e2: DirEntry83, pos2: int| #[trigger] self.found_at(path.spec_bytes(), e2, pos2) implies e2
                    == e && pos2 == pos by {
                    self.lemma_found_unique(0, spec_components(path.spec_bytes())[0], e, pos, e2, pos2);
                }
            }
        }
        let (entry, entry_pos) = lookup?;
        if entry.is_directory() != is_dir {
            return Err(FsError::NotSupported);
        }
        let ghost found_pos = entry_pos as int;
        let sector = entry_pos / SECTOR_SIZE as u64;
        let offset = (entry_pos % SECTOR_SIZE as u64) as usize;
        let mut sector_buffer = read_sector(&self.device, sector)?;
        sector_buffer.set(offset, DELETED_ENTRY_MARKER);
        self.device.write_block(sector, sector_buffer.as_slice())?;
        let ghost marked = spec_mark_deleted(old(self).disk(), found_pos);
        proof {
            assert(self.disk() =~= marked);
            if spec_components(path.spec_bytes()).len() == 1 && old(self).io_ok() && old(self).dir_readable(0) && (exists|
                    e: DirEntry83,
                    pos: int,
                | #[trigger] old(self).found_at(path.spec_bytes(), e, pos) && e.spec_is_directory() == is_dir
                    && old(self).spec_free_chain_ok(spec_mark_deleted(old(self).disk(), pos), e.start_cluster, 0)) {
                let (e, pos) = choose|e: DirEntry83, pos: int|
                    #[trigger] old(self).found_at(path.spec_bytes(), e, pos) && e.spec_is_directory() == is_dir
                        && old(self).spec_free_chain_ok(spec_mark_deleted(old(self).disk(), pos), e.start_cluster, 0);
                assert(e == entry && pos == found_pos);
            }
        }
        let mut cluster = entry.start_cluster;
        let mut steps: u32 = 0;
        loop
            invariant
                self.wf(),
                self.same_state(*old(self)),
                self.block_size() == old(self).block_size(),
                !(spec_components(path.spec_bytes()).len() == 1 && old(self).io_ok() && old(self).dir_readable(0)
                    && (exists|e: DirEntry83, pos: int|
                    #[trigger] old(self).found_at(path.spec_bytes(), e, pos) && e.spec_is_directory() != is_dir)),
                steps <= 0x1_0000,
                (spec_components(path.spec_bytes()).len() == 1 && old(self).io_ok() && old(self).dir_readable(0) && (exists|
                    e: DirEntry83,
                    pos: int,
                | #[trigger] old(self).found_at(path.spec_bytes(), e, pos) && e.spec_is_directory() == is_dir
                    && old(self).spec_free_chain_ok(spec_mark_deleted(old(self).disk(), pos), e.start_cluster, 0))) ==> spec_components(path.spec_bytes()).len() == 1 && old(self).io_ok() && old(self).dir_readable(0)
                    && old(self).found_at(path.spec_bytes(), entry, found_pos) && old(self).spec_free_chain_ok(
                    marked,
                    entry.start_cluster,
                    0,
                ),
                spec_components(path.spec_bytes()).len() == 1 && old(self).io_ok() && old(self).dir_readable(0)
                    && old(self).found_at(path.spec_bytes(), entry, found_pos) && old(self).spec_free_chain_ok(
                    marked,
                    entry.start_cluster,
                    0,
                ) ==> old(self).spec_free_chain_ok(self.disk(), cluster, steps as nat),
                old(self).spec_free_chain(self.disk(), cluster, steps as nat) == old(self).spec_free_chain(
                    marked,
                    entry.start_cluster,
                    0,
                ),
            ensures
                steps < 0x1_0000,
                spec_fat_entry(self.disk(), old(self).spec_fat_start() as int, cluster) >= 0xFFF8,
            decreases 0x1_0000u32 - steps,
        {
            if steps >= 0x1_0000 {
                return Err(FsError::IOError);
            }
            proof {
                if old(self).io_ok() && old(self).spec_free_chain_ok(self.disk(), cluster, steps as nat) {
                    let j = cluster as int;
                    assert(crate::filesys::fat16::file::fat_sector_readable(
                        self.disk(),
                        self.spec_fat_start() as int,
                        j as u16,
                    ));
                    assert(j as u16 == cluster);
                    assert(self.fats_readable(cluster as int, cluster + 1));
                }
            }
            let fat = self.read_fat_entry(cluster)?;
            if fat.is_end_of_chain() {
                break;
            }
            let ghost before = self.disk();
            self.write_fat_entry(cluster, FatEntry { cluster: 0 })?;
            proof {
                assert(self.disk() == old(self).spec_fat_write(before, cluster, 0));
                assert(old(self).spec_free_chain(before, cluster, steps as nat) == old(self).spec_free_chain(
                    self.disk(),
                    fat.cluster,
                    (steps + 1) as nat,
                ));
            }
            cluster = fat.cluster;
            steps = steps + 1;
        }
        let ghost before = self.disk();
        self.write_fat_entry(cluster, FatEntry { cluster: 0 })?;
        proof {
            assert(self.disk() == old(self).spec_fat_write(before, cluster, 0));
            assert(old(self).spec_free_chain(before, cluster, steps as nat) == self.disk());
            assert(old(self).found_at(path.spec_bytes(), entry, found_pos));
        }
        Ok(())
    }

    /// The first cluster of the directory named by `parent`: the root
    /// directory for an empty path or "/", else what looking it up finds.
    fn parent_cluster(&self, parent: &[u8]) -> (r: Result<u16, FsError>)
        requires
            self.wf(),
        ensures
            self.io_ok() && r is Err ==> r->Err_0 == FsError::IOError || r->Err_0 == FsError::NotFound || r->Err_0
                == FsError::InvalidName,
            parent@.len() == 0 || parent@ == seq![PATH_SEPARATOR] ==> r == Ok::<u16, FsError>(0),
            !(parent@.len() == 0 || parent@ == seq![PATH_SEPARATOR]) ==> (r matches Ok(c) ==> exists|
                e: DirEntry83,
                pos: int,
            |
                #![trigger self.found_at(parent@, e, pos)]
                self.found_at(parent@, e, pos) && c == e.start_cluster),
    {
        let slash: [u8; 1] = [PATH_SEPARATOR];
        proof {
            assert(slash@ =~= seq![PATH_SEPARATOR]);
        }
        if parent.len() == 0 || bytes_eq(parent, vstd::array::array_as_slice(&slash)) {
            Ok(0)
        } else {
            let (entry, pos) = self.find_entry_bytes(parent)?;
            proof {
                assert(self.found_at(parent@, entry, pos as int));
            }
            Ok(entry.start_cluster)
        }
    }

    /// Creates an empty file at `path`: checks the name's length, that
    /// nothing is there yet, allocates its first cluster and writes its entry
    /// into the parent directory.
    #[verifier::rlimit(40)]
    pub fn create_file(&mut self, path: &str) -> (r: Result<(), FsError>)
        requires
            old(self).wf(),
        ensures
            ({
                let leaf = spec_leaf(path.spec_bytes());
                let parent = spec_split_last(path.spec_bytes(), PATH_SEPARATOR, false).0;
                &&& spec_components(path.spec_bytes()).len() == 1
                &&& (parent.len() == 0 || parent == seq![PATH_SEPARATOR])
                &&& leaf.len() <= MAX_FILENAME_LENGTH + MAX_EXTENSION_LENGTH + 1
                &&& spec_base(leaf).len() <= MAX_FILENAME_LENGTH
                &&& spec_ext(leaf).len() <= MAX_EXTENSION_LENGTH
                &&& old(self).io_ok()
                &&& old(self).dir_readable(0)
                &&& !(exists|e: DirEntry83, pos: int| #[trigger] old(self).found_at(path.spec_bytes(), e, pos))
                &&& old(self).spec_boot_sector().fat_count >= 1
                &&& old(self).alloc_limit() as int * 2 <= old(self).spec_boot_sector().sectors_per_fat * 512
                &&& old(self).fats_readable(2, old(self).alloc_limit() as int)
                &&& !all_in_use(old(self).disk(), old(self).spec_fat_start() as int, 2, old(self).alloc_limit() as int)
                &&& exists|sector: int, i: int| #[trigger] old(self).open_slot_found(old(self).disk(), 0, sector, i)
            }) ==> r is Ok,
            ({
                let leaf = spec_leaf(path.spec_bytes());
                let parent = spec_split_last(path.spec_bytes(), PATH_SEPARATOR, false).0;
                &&& r is Ok
                &&& spec_components(path.spec_bytes()).len() == 1
                &&& (parent.len() == 0 || parent == seq![PATH_SEPARATOR])
                &&& plain_name(leaf)
                &&& old(self).io_ok()
                &&& old(self).dir_readable(0)
                &&& old(self).spec_boot_sector().fat_count >= 1
                &&& old(self).alloc_limit() as int * 2 <= old(self).spec_boot_sector().sectors_per_fat * 512
                &&& old(self).fats_readable(2, old(self).alloc_limit() as int)
            }) ==> exists|e: DirEntry83, pos: int|
                #[trigger] final(self).found_at(path.spec_bytes(), e, pos) && e.file_size == 0 && e.attributes
                    == ATTR_ARCHIVE && e.spec_name() == spec_leaf(path.spec_bytes()),
            old(self).io_ok() && r == Err::<(), FsError>(FsError::AlreadyExists) ==> exists|e: DirEntry83, pos: int|
                #[trigger] old(self).found_at(path.spec_bytes(), e, pos),
            final(self).wf(),
            final(self).same_state(*old(self)),
            final(self).block_size() == old(self).block_size(),
            spec_leaf(path.spec_bytes()).len() > MAX_FILENAME_LENGTH + MAX_EXTENSION_LENGTH + 1 ==> r
                == Err::<(), FsError>(FsError::InvalidName) && final(self).disk() == old(self).disk(),
            spec_base(spec_leaf(path.spec_bytes())).len() > MAX_FILENAME_LENGTH || spec_ext(
                spec_leaf(path.spec_bytes()),
            ).len() > MAX_EXTENSION_LENGTH ==> r == Err::<(), FsError>(FsError::InvalidName) && final(self).disk()
                == old(self).disk(),
            ({
                let leaf = spec_leaf(path.spec_bytes());
                spec_components(path.spec_bytes()).len() == 1 && old(self).io_ok() && old(self).dir_readable(0)
                    && leaf.len() <= MAX_FILENAME_LENGTH + MAX_EXTENSION_LENGTH + 1 && spec_base(leaf).len()
                    <= MAX_FILENAME_LENGTH && spec_ext(leaf).len() <= MAX_EXTENSION_LENGTH && (exists|
                    e: DirEntry83,
                    pos: int,
                | #[trigger] old(self).found_at(path.spec_bytes(), e, pos)) ==> r == Err::<(), FsError>(
                    FsError::AlreadyExists,
                ) && final(self).disk() == old(self).disk()
            }),
            r is Ok ==> spec_base(spec_leaf(path.spec_bytes())).len() <= MAX_FILENAME_LENGTH && spec_ext(
                spec_leaf(path.spec_bytes()),
            ).len() <= MAX_EXTENSION_LENGTH,
            r is Ok ==> exists|c: u16, sector: int, i: int|
                #![trigger holds_entry(
                    final(self).disk(),
                    sector,
                    i,
                    spec_new_entry_bytes(
                        spec_base(spec_leaf(path.spec_bytes())),
                        spec_ext(spec_leaf(path.spec_bytes())),
                        ATTR_ARCHIVE,
                        c,
                    ),
                )]
                c >= 2 && holds_entry(
                    final(self).disk(),
                    sector,
                    i,
                    spec_new_entry_bytes(
                        spec_base(spec_leaf(path.spec_bytes())),
                        spec_ext(spec_leaf(path.spec_bytes())),
                        ATTR_ARCHIVE,
                        c,
                    ),
                ),
    {
        let p = path.as_bytes();
        let (parent_path, name) = split_last(p, PATH_SEPARATOR, false);
        if name.len() > MAX_FILENAME_LENGTH + MAX_EXTENSION_LENGTH + 1 {
            return Err(FsError::InvalidName);
        }
        let (base_name, extension) = split_last(name.as_slice(), EXTENSION_SEPARATOR, true);
        if base_name.len() > MAX_FILENAME_LENGTH || extension.len() > MAX_EXTENSION_LENGTH {
            return Err(FsError::InvalidName);
        }
        match self.find_entry(path) {
            Ok((e, pos)) => {
                proof {
                    assert(self.found_at(path.spec_bytes(), e, pos as int));
                }
                return Err(FsError::AlreadyExists);
            },
            Err(err) => {
                proof {
                    if spec_components(path.spec_bytes()).len() == 1 && self.io_ok() && self.dir_readable(0) {
                        assert(old(self).absent_in(0, spec_components(path.spec_bytes())[0]));
                        assert forall|e: DirEntry83, pos: int| !#[trigger] old(self).found_at(
                            path.spec_bytes(),
                            e,
                            pos,
                        ) by {
                            self.lemma_root_absent(path.spec_bytes(), e, pos);
                        }
                    }
                }
            },
        }
        let ghost disk0 = self.disk();
        let ghost pre0 = *self;
        let cluster = self.allocate_cluster()?;
        let entry = DirEntry83::from_parts(base_name.as_slice(), extension.as_slice(), cluster);
        let parent_cluster = self.parent_cluster(parent_path.as_slice())?;
        let ghost before = self.disk();
        let ghost pre = *self;
        proof {
            if pre0.spec_boot_sector().fat_count >= 1 && pre0.alloc_limit() as int * 2
                <= pre0.spec_boot_sector().sectors_per_fat * 512 && pre0.fats_readable(2, pre0.alloc_limit() as int)
                && before == pre0.spec_fat_write(disk0, cluster, 0xFFFF) && 2 <= cluster < pre0.alloc_limit() {
                assert forall|j: int| cluster as int <= j < cluster + 1 implies #[trigger] crate::filesys::fat16::file::fat_sector_readable(
                    disk0,
                    pre0.spec_fat_start() as int,
                    j as u16,
                ) by {}
                assert(pre0.fats_readable(cluster as int, cluster + 1));
                pre0.lemma_fat_write_keeps_root(disk0, cluster, 0xFFFF);
                let (start, num) = pre0.spec_dir_region(0);
                assert(start == pre0.spec_root_dir_start());
                if pre0.dir_readable(0) {
                    assert forall|s: int| start <= s < start + num implies #[trigger] sector_ok(before, s)
                        && before[s] == disk0[s] by {
                        assert(sector_ok(disk0, s));
                        assert(before[s] == disk0[s]);
                    }
                    assert(pre.dir_readable(0));
                }
                if exists|sector: int, i: int| #[trigger] pre0.open_slot_found(disk0, 0, sector, i) {
                    let (sec, i) = choose|sector: int, i: int| #[trigger] pre0.open_slot_found(disk0, 0, sector, i);
                    assert(before[sec] == disk0[sec]);
                    assert forall|s: int| start <= s < sec implies sector_ok(before, s) && none_open_before(
                        #[trigger] before[s],
                        16,
                    ) by {
                        assert(before[s] == disk0[s]);
                    }
                    assert(pre.open_slot_found(before, 0, sec, i));
                }
            }
        }
        self.write_dir_entry(parent_cluster, &entry)?;
        proof {
            let (sector, i) = choose|sector: int, i: int|
                #![trigger pre.open_slot_found(before, parent_cluster, sector, i)]
                pre.open_slot_found(before, parent_cluster, sector, i) && self.disk() == before.update(
                    sector,
                    spec_splice(before[sector], i * 32, entry.spec_bytes()),
                );
            lemma_entry_bytes_len(entry);
            lemma_splice_subrange(before[sector], i * 32, entry.spec_bytes());
            assert(name@ == spec_leaf(path.spec_bytes()));
            assert(base_name@ == spec_base(spec_leaf(path.spec_bytes())));
            assert(extension@ == spec_ext(spec_leaf(path.spec_bytes())));
            assert(holds_entry(
                self.disk(),
                sector,
                i,
                spec_new_entry_bytes(
                    spec_base(spec_leaf(path.spec_bytes())),
                    spec_ext(spec_leaf(path.spec_bytes())),
                    ATTR_ARCHIVE,
                    cluster,
                ),
            ));
            let leaf = spec_leaf(path.spec_bytes());
            let parent = spec_split_last(path.spec_bytes(), PATH_SEPARATOR, false).0;
            if spec_components(path.spec_bytes()).len() == 1 && (parent.len() == 0 || parent == seq![PATH_SEPARATOR])
                && plain_name(leaf) && pre0.io_ok() && pre0.dir_readable(0) && pre0.spec_boot_sector().fat_count >= 1
                && pre0.alloc_limit() as int * 2 <= pre0.spec_boot_sector().sectors_per_fat * 512
                && pre0.fats_readable(2, pre0.alloc_limit() as int) {
                crate::filesys::fat16::path::lemma_root_component(path.spec_bytes());
                assert(parent_cluster == 0);
                pre0.lemma_created_found(*self, before, sector, i, entry, path.spec_bytes());
            }
        }
        Ok(())
    }

    /// Creates an empty directory at `path`: checks the name's length, that
    /// nothing is there yet, allocates its cluster, writes "." and ".." into
    /// it and its entry into the parent directory.
    pub fn create_dir(&mut self, path: &str) -> (r: Result<(), FsError>)
        requires
            old(self).wf(),
        ensures
            final(self).wf(),
            final(self).same_state(*old(self)),
            final(self).block_size() == old(self).block_size(),
            spec_leaf(path.spec_bytes()).len() > MAX_FILENAME_LENGTH ==> r == Err::<(), FsError>(
                FsError::InvalidName,
            ),
            r is Ok ==> exists|c: u16, sector: int, i: int|
                #![trigger holds_entry(
                    final(self).disk(),
                    sector,
                    i,
                    spec_new_entry_bytes(spec_leaf(path.spec_bytes()), Seq::empty(), ATTR_DIRECTORY, c),
                )]
                c >= 2 && holds_entry(
                    final(self).disk(),
                    sector,
                    i,
                    spec_new_entry_bytes(spec_leaf(path.spec_bytes()), Seq::empty(), ATTR_DIRECTORY, c),
                ),
    {
        let p = path.as_bytes();
        let (parent_path, name) = split_last(p, PATH_SEPARATOR, false);
        if name.len() > MAX_FILENAME_LENGTH {
            return Err(FsError::InvalidName);
        }
        if self.find_entry(path).is_ok() {
            return Err(FsError::AlreadyExists);
        }
        let cluster = self.allocate_cluster()?;
        let entry = DirEntry83::directory_from_parts(name.as_slice(), cluster);
        let parent_cluster = self.parent_cluster(parent_path.as_slice())?;
        self.init_directory(cluster, parent_cluster)?;
        let ghost before = self.disk();
        let ghost pre = *self;
        self.write_dir_entry(parent_cluster, &entry)?;
        proof {
            let (sector, i) = choose|sector: int, i: int|
                #![trigger pre.open_slot_found(before, parent_cluster, sector, i)]
                pre.open_slot_found(before, parent_cluster, sector, i) && self.disk() == before.update(
                    sector,
                    spec_splice(before[sector], i * 32, entry.spec_bytes()),
                );
            lemma_entry_bytes_len(entry);
            lemma_splice_subrange(before[sector], i * 32, entry.spec_bytes());
            assert(name@ == spec_leaf(path.spec_bytes()));
            assert(holds_entry(
                self.disk(),
                sector,
                i,
                spec_new_entry_bytes(spec_leaf(path.spec_bytes()), Seq::empty(), ATTR_DIRECTORY, cluster),
            ));
        }
        Ok(())
    }

    /// Removes the file at `path`; `NotSupported` when it is a directory.
    pub fn remove_file(&mut self, path: &str) -> (r: Result<(), FsError>)
        requires
            old(self).wf(),
        ensures
            spec_components(path.spec_bytes()).len() == 1 && old(self).io_ok() && old(self).dir_readable(0) && (exists|
                e: DirEntry83,
                pos: int,
            | #[trigger] old(self).found_at(path.spec_bytes(), e, pos) && !e.spec_is_directory()
                && old(self).spec_free_chain_ok(spec_mark_deleted(old(self).disk(), pos), e.start_cluster, 0))
                ==> r is Ok,
            old(self).io_ok() && r == Err::<(), FsError>(FsError::NotSupported) ==> exists|e: DirEntry83, pos: int|
                #[trigger] old(self).found_at(path.spec_bytes(), e, pos) && e.spec_is_directory(),
            final(self).wf(),
            final(self).same_state(*old(self)),
            final(self).block_size() == old(self).block_size(),
            r is Ok ==> exists|e: DirEntry83, pos: int|
                #![trigger old(self).found_at(path.spec_bytes(), e, pos)]
                {
                    &&& old(self).found_at(path.spec_bytes(), e, pos)
                    &&& !e.spec_is_directory()
                    &&& final(self).disk() == old(self).spec_free_chain(
                        spec_mark_deleted(old(self).disk(), pos),
                        e.start_cluster,
                        0,
                    )
                },
            spec_components(path.spec_bytes()).len() == 1 && old(self).io_ok() && old(self).dir_readable(0) && (exists|
                e: DirEntry83,
                pos: int,
            | #[trigger] old(self).found_at(path.spec_bytes(), e, pos) && e.spec_is_directory()) ==> r == Err::<(), FsError>(
                FsError::NotSupported,
            ) && final(self).disk() == old(self).disk(),
            r is Ok && spec_components(path.spec_bytes()).len() == 1 && old(self).io_ok() && old(self).dir_readable(0)
                ==> exists|e: DirEntry83, pos: int|
                #![trigger old(self).found_at(path.spec_bytes(), e, pos)]
                {
                    &&& old(self).found_at(path.spec_bytes(), e, pos)
                    &&& (old(self).name_only_at(0, spec_components(path.spec_bytes())[0], pos)
                        && old(self).spec_boot_sector().fat_count >= 1 && old(self).spec_free_chain_ok(
                        spec_mark_deleted(old(self).disk(), pos),
                        e.start_cluster,
                        0,
                    ) && old(self).chain_in_fat(spec_mark_deleted(old(self).disk(), pos), e.start_cluster, 0))
                        ==> final(self).absent_in(0, spec_components(path.spec_bytes())[0])
                },
    {
        let ghost pre = *self;
        let r = self.remove_entry(path, false);
        proof {
            if r is Ok && spec_components(path.spec_bytes()).len() == 1 && pre.io_ok() && pre.dir_readable(0) {
                let (e, pos) = choose|e: DirEntry83, pos: int|
                    #![trigger pre.found_at(path.spec_bytes(), e, pos)]
                    {
                        &&& pre.found_at(path.spec_bytes(), e, pos)
                        &&& !e.spec_is_directory()
                        &&& self.disk() == pre.spec_free_chain(spec_mark_deleted(pre.disk(), pos), e.start_cluster, 0)
                    };
                let name = spec_components(path.spec_bytes())[0];
                assert(pre.entry_found(0, name, e, pos));
                if pre.name_only_at(0, name, pos) && pre.spec_boot_sector().fat_count >= 1 && pre.spec_free_chain_ok(
                    spec_mark_deleted(pre.disk(), pos),
                    e.start_cluster,
                    0,
                ) && pre.chain_in_fat(spec_mark_deleted(pre.disk(), pos), e.start_cluster, 0) {
                    pre.lemma_removed_absent(*self, pos, e.start_cluster, name);
                }
                assert(pre.found_at(path.spec_bytes(), e, pos));
            }
        }
        r
    }

    /// Removes the directory at `path`; `NotSupported` when it is not a
    /// directory, `DirectoryNotEmpty` when it holds more than "." and "..".
    pub fn remove_dir(&mut self, path: &str) -> (r: Result<(), FsError>)
        requires
            old(self).wf(),
        ensures
            old(self).io_ok() && r == Err::<(), FsError>(FsError::NotSupported) ==> exists|e: DirEntry83, pos: int|
                #[trigger] old(self).found_at(path.spec_bytes(), e, pos) && !e.spec_is_directory(),
            final(self).wf(),
            final(self).same_state(*old(self)),
            final(self).block_size() == old(self).block_size(),
            r is Ok ==> exists|e: DirEntry83, pos: int|
                #![trigger old(self).found_at(path.spec_bytes(), e, pos)]
                old(self).found_at(path.spec_bytes(), e, pos) && e.spec_is_directory() && e.start_cluster
                    >= 2 && dir_sector_empty(
                    old(self).disk()[old(self).spec_data_start() + (e.start_cluster - 2) * old(self).spc()],
                ),
            r is Ok ==> exists|e: DirEntry83, pos: int|
                #![trigger old(self).found_at(path.spec_bytes(), e, pos)]
                {
                    &&& old(self).found_at(path.spec_bytes(), e, pos)
                    &&& e.spec_is_directory()
                    &&& final(self).disk() == old(self).spec_free_chain(
                        spec_mark_deleted(old(self).disk(), pos),
                        e.start_cluster,
                        0,
                    )
                },
            spec_components(path.spec_bytes()).len() == 1 && old(self).io_ok() && old(self).dir_readable(0) && (exists|
                e: DirEntry83,
                pos: int,
            | #[trigger] old(self).found_at(path.spec_bytes(), e, pos) && !e.spec_is_directory()) ==> r == Err::<(), FsError>(
                FsError::NotSupported,
            ) && final(self).disk() == old(self).disk(),
    {
        let lookup = self.find_entry(path);
        proof {
            if spec_components(path.spec_bytes()).len() == 1 && self.io_ok() && self.dir_readable(0) && (exists|
                e: DirEntry83,
                pos: int,
            | #[trigger] self.found_at(path.spec_bytes(), e, pos) && !e.spec_is_directory()) {
                let (e, pos) = choose|e: DirEntry83, pos: int| #[trigger] self.found_at(path.spec_bytes(), e, pos) && !e.spec_is_directory();
                self.lemma_root_lookup(path.spec_bytes(), lookup, e, pos);
            }
        }
        let (entry, pos) = lookup?;
        if !entry.is_directory() {
            return Err(FsError::NotSupported);
        }
        if !self.is_directory_empty(entry.start_cluster)? {
            return Err(FsError::DirectoryNotEmpty);
        }
        proof {
            assert(self.found_at(path.spec_bytes(), entry, pos as int));
        }
        self.remove_entry(path, true)
    }

    /// The open file that `open_file` makes of entry `e` found at `pos`.
    pub open spec fn opened(&self, e: DirEntry83, pos: int) -> Fat16File {
        Fat16File {
            valid: true,
            current_cluster: e.start_cluster,
            position: 0,
            size: e.file_size as u64,
            cluster_size: self.spec_cluster_size(),
            fat_start: self.spec_fat_start(),
            data_start: self.spec_data_start(),
            entry_position: pos as u64,
            cluster_limit: self.alloc_limit(),
        }
    }

    /// Opens the file at `path` and returns its descriptor: the largest
    /// closed descriptor when there is one, else a new one; `NotSupported`
    /// for a directory.
    #[verifier::rlimit(40)]
    pub fn open_file(&mut self, path: &str) -> (r: Result<usize, FsError>)
        requires
            old(self).wf(),
        ensures
            old(self).io_ok() && r == Err::<usize, FsError>(FsError::NotSupported) ==> exists|e: DirEntry83, pos: int|
                #[trigger] old(self).found_at(path.spec_bytes(), e, pos) && e.spec_is_directory(),
            final(self).wf(),
            final(self).same_layout(*old(self)),
            final(self).disk() == old(self).disk(),
            final(self).block_size() == old(self).block_size(),
            r is Err ==> final(self).spec_fd_table() == old(self).spec_fd_table()
                && final(self).spec_reuse_fds() == old(self).spec_reuse_fds(),
            final(self).spec_fd_table().len() >= old(self).spec_fd_table().len(),
            r matches Ok(fd) ==> fd < final(self).spec_fd_table().len() && final(self).spec_fd_table()[fd as int].valid,
            r matches Ok(fd) ==> exists|e: DirEntry83, pos: int|
                #![trigger old(self).found_at(path.spec_bytes(), e, pos)]
                {
                    &&& old(self).found_at(path.spec_bytes(), e, pos)
                    &&& !e.spec_is_directory()
                    &&& old(self).spec_reuse_fds().len() == 0 ==> fd == old(self).spec_fd_table().len()
                        && final(self).spec_fd_table() == old(self).spec_fd_table().push(
                        old(self).opened(e, pos),
                    ) && final(self).spec_reuse_fds() == old(self).spec_reuse_fds()
                    &&& old(self).spec_reuse_fds().len() > 0 ==> fd == seq_max(old(self).spec_reuse_fds())
                        && final(self).spec_fd_table() == old(self).spec_fd_table().update(
                        fd as int,
                        old(self).opened(e, pos),
                    )
                },
            spec_components(path.spec_bytes()).len() == 1 && old(self).io_ok() && old(self).dir_readable(0) && (exists|
                e: DirEntry83,
                pos: int,
            | #[trigger] old(self).found_at(path.spec_bytes(), e, pos) && e.spec_is_directory()) ==> r == Err::<usize, FsError>(
                FsError::NotSupported,
            ),
            spec_components(path.spec_bytes()).len() == 1 && old(self).io_ok() && old(self).dir_readable(0) && (exists|
                e: DirEntry83,
                pos: int,
            | #[trigger] old(self).found_at(path.spec_bytes(), e, pos) && !e.spec_is_directory()) ==> r is Ok,
    {
        let lookup = self.find_entry(path);
        proof {
            if spec_components(path.spec_bytes()).len() == 1 && self.io_ok() && self.dir_readable(0) && (exists|
                e: DirEntry83,
                pos: int,
            | #[trigger] self.found_at(path.spec_bytes(), e, pos)) {
                let (e, pos) = choose|e: DirEntry83, pos: int| #[trigger] self.found_at(path.spec_bytes(), e, pos);
                self.lemma_root_lookup(path.spec_bytes(), lookup, e, pos);
                assert forall|e2: DirEntry83, pos2: int| #[trigger] self.found_at(path.spec_bytes(), e2, pos2) implies e2
                    == e && pos2 == pos by {
                    self.lemma_found_unique(
                        0,
                        spec_components(path.spec_bytes())[0],
                        e,
                        pos,
                        e2,
                        pos2,
                    );
                }
            }
        }
        let (entry, entry_pos) = lookup?;
        if entry.is_directory() {
            return Err(FsError::NotSupported);
        }
        let limit = self.cluster_limit();
        let file = Fat16File {
            valid: true,
            current_cluster: entry.start_cluster,
            position: 0,
            size: entry.file_size as u64,
            cluster_size: self.cluster_size,
            fat_start: self.fat_start,
            data_start: self.data_start,
            entry_position: entry_pos,
            cluster_limit: limit,
        };
        proof {
            assert(entry_pos % 512 + 32 <= 512);
            assert(Self::file_ok(file));
        }
        let ghost old_reuse = self.reuse_fds@;
        match pop_max(&mut self.reuse_fds) {
            Some(reused_fd) => {
                proof {
                    let k = choose|k: int|
                        0 <= k < old_reuse.len() && old_reuse[k] == seq_max(old_reuse) && self.reuse_fds@
                            == old_reuse.remove(k);
                    assert(old_reuse[k] == reused_fd);
                    assert forall|a: int| 0 <= a < self.reuse_fds@.len() implies (#[trigger] self.reuse_fds@[a])
                        != reused_fd by {
                        if a < k {
                            assert(self.reuse_fds@[a] == old_reuse[a]);
                        } else {
                            assert(self.reuse_fds@[a] == old_reuse[a + 1]);
                        }
                    }
                    assert forall|a: int| 0 <= a < self.reuse_fds@.len() implies (#[trigger] self.reuse_fds@[a])
                        < self.fd_table@.len() && !self.fd_table@[self.reuse_fds@[a] as int].valid by {
                        if a < k {
                            assert(self.reuse_fds@[a] == old_reuse[a]);
                        } else {
                            assert(self.reuse_fds@[a] == old_reuse[a + 1]);
                        }
                    }
                    assert forall|a: int, b: int| 0 <= a < b < self.reuse_fds@.len() implies self.reuse_fds@[a]
                        != self.reuse_fds@[b] by {
                        let oa = if a < k { a } else { a + 1 };
                        let ob = if b < k { b } else { b + 1 };
                        assert(self.reuse_fds@[a] == old_reuse[oa]);
                        assert(self.reuse_fds@[b] == old_reuse[ob]);
                    }
                }
                self.fd_table.set(reused_fd, file);
                proof {
                    assert forall|a: int| 0 <= a < self.reuse_fds@.len() implies !self.fd_table@[(
                    #[trigger] self.reuse_fds@[a]) as int].valid by {}
                }
                Ok(reused_fd)
            },
            None => {
                let new_fd = self.fd_counter;
                self.fd_table.push(file);
                let len = self.fd_table.len();
                self.fd_counter = len;
                proof {
                    assert forall|a: int| 0 <= a < self.reuse_fds@.len() implies (#[trigger] self.reuse_fds@[a])
                        < self.fd_table@.len() && !self.fd_table@[self.reuse_fds@[a] as int].valid by {}
                }
                Ok(new_fd)
            },
        }
    }

    /// Closes descriptor `fd`, which must be open, and keeps it for reuse.
    pub fn close_file(&mut self, fd: usize)
        requires
            old(self).wf(),
            fd < old(self).spec_fd_table().len(),
            old(self).spec_fd_table()[fd as int].valid,
        ensures
            final(self).wf(),
            final(self).same_layout(*old(self)),
            final(self).disk() == old(self).disk(),
            final(self).block_size() == old(self).block_size(),
            final(self).spec_fd_table() == old(self).spec_fd_table().update(fd as int, closed_file()),
            final(self).spec_reuse_fds() == old(self).spec_reuse_fds().push(fd),
    {
        self.fd_table.set(
            fd,
            Fat16File {
                valid: false,
                current_cluster: 0,
                position: 0,
                size: 0,
                cluster_size: 0,
                fat_start: 0,
                data_start: 0,
                entry_position: 0,
                cluster_limit: 0,
            },
        );
        proof {
            assert forall|a: int| 0 <= a < self.reuse_fds@.len() implies (#[trigger] self.reuse_fds@[a]) != fd by {
                assert(!old(self).spec_fd_table()[self.reuse_fds@[a] as int].valid);
            }
        }
        self.reuse_fds.push(fd);
        proof {
            assert forall|a: int| 0 <= a < self.reuse_fds@.len() implies (#[trigger] self.reuse_fds@[a])
                < self.fd_table@.len() && !self.fd_table@[self.reuse_fds@[a] as int].valid by {
                if a < self.reuse_fds@.len() - 1 {
                    assert(self.reuse_fds@[a] == old(self).spec_reuse_fds()[a]);
                }
            }
            assert forall|a: int, b: int| 0 <= a < b < self.reuse_fds@.len() implies self.reuse_fds@[a]
                != self.reuse_fds@[b] by {
                if b == self.reuse_fds@.len() - 1 {
                    assert(self.reuse_fds@[a] == old(self).spec_reuse_fds()[a]);
                    assert(!old(self).spec_fd_table()[self.reuse_fds@[a] as int].valid);
                } else {
                    assert(self.reuse_fds@[a] == old(self).spec_reuse_fds()[a]);
                    assert(self.reuse_fds@[b] == old(self).spec_reuse_fds()[b]);
                }
            }
        }
    }

    /// Writes `buf` at the position of open file `fd`, as
    /// `Fat16File::write_with_device` does; `IOError` when the descriptor has
    /// no cluster size (a closed one), `InvalidOffset` when the position
    /// would pass the range of `u64`.
    pub fn write_file(&mut self, fd: usize, buf: &[u8]) -> (r: Result<usize, FsError>)
        requires
            old(self).wf(),
            fd < old(self).spec_fd_table().len(),
        ensures
            final(self).wf(),
            final(self).same_layout(*old(self)),
            final(self).block_size() == old(self).block_size(),
            final(self).spec_reuse_fds() == old(self).spec_reuse_fds(),
            final(self).spec_fd_table().len() == old(self).spec_fd_table().len(),
            forall|k: int| 0 <= k < old(self).spec_fd_table().len() && k != fd ==> #[trigger] final(self).spec_fd_table()[k]
                == old(self).spec_fd_table()[k],
            ({
                let f = old(self).spec_fd_table()[fd as int];
                let g = final(self).spec_fd_table()[fd as int];
                &&& f.cluster_size < 512 ==> r == Err::<usize, FsError>(FsError::IOError)
                    && final(self).disk() == old(self).disk() && g == f
                &&& f.cluster_size >= 512 && f.position + buf@.len() > u64::MAX ==> r == Err::<usize, FsError>(
                    FsError::InvalidOffset,
                ) && final(self).disk() == old(self).disk() && g == f
                &&& g.same_file(f)
                &&& r matches Ok(n) ==> n == buf@.len() && g.position == f.position + n && g.size
                    == f.size_after_write(n as nat)
                &&& f.cluster_size >= 512 && buf@.len() == 0 ==> (r is Ok ==> final(self).disk()
                    == crate::filesys::fat16::file::spec_set_entry_size(
                    old(self).disk(),
                    f.entry_position as int,
                    f.size as u32,
                ))
                &&& f.cluster_size >= 512 && buf@.len() > 0 && f.within_cluster(buf@.len()) ==> (r is Ok
                    ==> final(self).disk() == crate::filesys::fat16::file::spec_set_entry_size(
                    f.spec_write_in_cluster(old(self).disk(), buf@),
                    f.entry_position as int,
                    f.size_after_write(buf@.len()) as u32,
                ))
                &&& old(self).io_ok() && f.cluster_size >= 512 && f.position + buf@.len() <= u64::MAX
                    && f.spec_chain_write_ok(
                    old(self).disk(),
                    f.current_cluster,
                    (f.position % (f.cluster_size as u64)) as int,
                    buf@,
                ) && f.entry_position / 512 < f.spec_chain_write(
                    old(self).disk(),
                    f.current_cluster,
                    (f.position % (f.cluster_size as u64)) as int,
                    buf@,
                ).len() && f.spec_chain_write(
                    old(self).disk(),
                    f.current_cluster,
                    (f.position % (f.cluster_size as u64)) as int,
                    buf@,
                )[(f.entry_position / 512) as int].len() == 512 ==> r is Ok
                &&& old(self).io_ok() && f.cluster_size >= 512 && f.position + buf@.len() <= u64::MAX
                    && buf@.len() > 0 && f.within_cluster(buf@.len()) && crate::filesys::fat16::file::cluster_readable(
                    old(self).disk(),
                    f.spec_cluster_sector(f.current_cluster),
                    f.spc(),
                ) && f.entry_position / 512 < old(self).disk().len() && old(self).disk()[(f.entry_position
                    / 512) as int].len() == 512 ==> r is Ok
                &&& f.cluster_size >= 512 && buf@.len() > 0 ==> (r is Ok ==> final(self).disk()
                    == crate::filesys::fat16::file::spec_set_entry_size(
                    f.spec_chain_write(
                        old(self).disk(),
                        f.current_cluster,
                        (f.position % (f.cluster_size as u64)) as int,
                        buf@,
                    ),
                    f.entry_position as int,
                    f.size_after_write(buf@.len()) as u32,
                ))
            }),
    {
        let mut file = self.fd_table[fd];
        proof {
            assert(Self::file_ok(file));
        }
        if file.cluster_size < SECTOR_SIZE {
            return Err(FsError::IOError);
        }
        if file.position > u64::MAX - buf.len() as u64 {
            return Err(FsError::InvalidOffset);
        }
        let r = file.write_with_device(&mut self.device, buf);
        self.fd_table.set(fd, file);
        proof {
            Self::lemma_set_file_keeps(old(self).spec_fd_table(), self.reuse_fds@, fd as int, file);
        }
        r
    }

    /// Reads from the position of open file `fd` into `buf`, as
    /// `Fat16File::read_with_device` does; `IOError` when there is something
    /// to read but the descriptor has no cluster size (a closed one).
    pub fn read_file(&mut self, fd: usize, buf: &mut [u8]) -> (r: Result<usize, FsError>)
        requires
            old(self).wf(),
            fd < old(self).spec_fd_table().len(),
        ensures
            final(self).wf(),
            final(self).same_layout(*old(self)),
            final(self).disk() == old(self).disk(),
            final(self).block_size() == old(self).block_size(),
            final(self).spec_reuse_fds() == old(self).spec_reuse_fds(),
            final(self).spec_fd_table().len() == old(self).spec_fd_table().len(),
            forall|k: int| 0 <= k < old(self).spec_fd_table().len() && k != fd ==> #[trigger] final(self).spec_fd_table()[k]
                == old(self).spec_fd_table()[k],
            final(buf)@.len() == old(buf)@.len(),
            ({
                let f = old(self).spec_fd_table()[fd as int];
                let g = final(self).spec_fd_table()[fd as int];
                &&& f.position >= f.size ==> r == Ok::<usize, FsError>(0) && g == f && final(buf)@ == old(buf)@
                &&& f.position < f.size && f.cluster_size < 512 ==> r == Err::<usize, FsError>(FsError::IOError)
                    && g == f
                &&& g.same_file(f) && g.size == f.size
                &&& r matches Ok(n) ==> n <= f.spec_want(old(buf)@.len()) && g.position == f.position + n
                    && final(buf)@.skip(n as int) == old(buf)@.skip(n as int)
                &&& f.position < f.size && f.cluster_size >= 512 && f.within_cluster(f.spec_want(old(buf)@.len()))
                    ==> (r matches Ok(n) ==> {
                    let off = f.position % (f.cluster_size as u64);
                    &&& n == f.spec_want(old(buf)@.len())
                    &&& final(buf)@.take(n as int) == crate::filesys::fat16::file::spec_cluster_bytes(
                        old(self).disk(),
                        f.spec_cluster_sector(f.current_cluster),
                        f.spc(),
                    ).subrange(off as int, off + n)
                })
                &&& old(self).io_ok() && f.position < f.size && f.cluster_size >= 512 && f.spec_chain_read_ok(
                    old(self).disk(),
                    f.current_cluster,
                    (f.position % (f.cluster_size as u64)) as int,
                    f.spec_want(old(buf)@.len()),
                ) ==> r is Ok
                &&& f.position < f.size && f.cluster_size >= 512 ==> (r matches Ok(n) ==> final(buf)@.take(n as int)
                    == f.spec_chain_read(
                    old(self).disk(),
                    f.current_cluster,
                    (f.position % (f.cluster_size as u64)) as int,
                    f.spec_want(old(buf)@.len()),
                ))
            }),
    {
        let mut file = self.fd_table[fd];
        proof {
            assert(Self::file_ok(file));
        }
        if file.position >= file.size {
            return Ok(0);
        }
        if file.cluster_size < SECTOR_SIZE {
            return Err(FsError::IOError);
        }
        let r = file.read_with_device(&mut self.device, buf);
        self.fd_table.set(fd, file);
        proof {
            Self::lemma_set_file_keeps(old(self).spec_fd_table(), self.reuse_fds@, fd as int, file);
        }
        r
    }

    /// Moves the position of open file `fd`, as `Fat16File::seek` does.
    pub fn seek_file(&mut self, fd: usize, pos: SeekFrom) -> (r: Result<u64, FsError>)
        requires
            old(self).wf(),
            fd < old(self).spec_fd_table().len(),
        ensures
            final(self).wf(),
            final(self).same_layout(*old(self)),
            final(self).disk() == old(self).disk(),
            final(self).block_size() == old(self).block_size(),
            final(self).spec_reuse_fds() == old(self).spec_reuse_fds(),
            ({
                let f = old(self).spec_fd_table()[fd as int];
                match crate::filesys::fat16::file::spec_seek_target(pos, f.size, f.position) {
                    Some(t) if t <= f.size => r == Ok::<u64, FsError>(t) && final(self).spec_fd_table()
                        == old(self).spec_fd_table().update(fd as int, Fat16File { position: t, ..f }),
                    _ => r == Err::<u64, FsError>(FsError::InvalidOffset) && final(self).spec_fd_table()
                        == old(self).spec_fd_table(),
                }
            }),
    {
        let mut file = self.fd_table[fd];
        let r = file.seek(pos);
        self.fd_table.set(fd, file);
        proof {
            Self::lemma_set_file_keeps(old(self).spec_fd_table(), self.reuse_fds@, fd as int, file);
            if r is Err {
                assert(self.fd_table@ =~= old(self).spec_fd_table());
            }
        }
        r
    }

    /// The metadata of the entry at `path`.
    pub fn metadata(&self, path: &str) -> (r: Result<FileMetadata, FsError>)
        requires
            self.wf(),
        ensures
            r matches Ok(m) ==> exists|e: DirEntry83, pos: int|
                #![trigger self.found_at(path.spec_bytes(), e, pos)]
                self.found_at(path.spec_bytes(), e, pos) && m == spec_metadata(e),
    {
        let (entry, pos) = self.find_entry(path)?;
        proof {
            assert(self.found_at(path.spec_bytes(), entry, pos as int));
        }
        Ok(metadata_of(&entry))
    }

    /// The listing of the directory whose first cluster is `c`, entries
    /// stamped `modified`.
    pub open spec fn spec_listing(&self, c: u16, modified: u64) -> Seq<(Seq<u8>, FileMetadata)> {
        let (start, num) = self.spec_dir_region(c);
        dir_listing(self.disk(), start, num as nat, modified)
    }

    /// Lists the directory at `path` ("" or "/" for the root directory): the
    /// entries a scan sees whose names do not start with a dot, stamped with
    /// the directory's own modification time; `NotSupported` when `path`
    /// names a file.
    pub fn read_dir(&self, path: &str) -> (r: Result<Vec<DirEntry>, FsError>)
        requires
            self.wf(),
        ensures
            self.io_ok() && r == Err::<Vec<DirEntry>, FsError>(FsError::NotSupported) ==> exists|e: DirEntry83, pos: int|
                #[trigger] self.found_at(path.spec_bytes(), e, pos) && !e.spec_is_directory(),
            path.spec_bytes().len() == 0 || path.spec_bytes() == seq![PATH_SEPARATOR] ==> (r matches Ok(v)
                ==> listing_matches(v@, self.spec_listing(0, 0))),
            !(path.spec_bytes().len() == 0 || path.spec_bytes() == seq![PATH_SEPARATOR]) ==> (r matches Ok(v)
                ==> exists|e: DirEntry83, pos: int|
                #![trigger self.found_at(path.spec_bytes(), e, pos)]
                self.found_at(path.spec_bytes(), e, pos) && e.spec_is_directory() && listing_matches(
                    v@,
                    self.spec_listing(e.start_cluster, stamp_of(e)),
                )),
            !(path.spec_bytes().len() == 0 || path.spec_bytes() == seq![PATH_SEPARATOR]) && spec_components(
                path.spec_bytes(),
            ).len() == 1 && self.io_ok() && self.dir_readable(0) && (exists|e: DirEntry83, pos: int|
                #[trigger] self.found_at(path.spec_bytes(), e, pos) && !e.spec_is_directory()) ==> r == Err::<
                Vec<DirEntry>,
                FsError,
            >(
                FsError::NotSupported,
            ),
            ((path.spec_bytes().len() == 0 || path.spec_bytes() == seq![PATH_SEPARATOR]) && self.io_ok() && self.dir_readable(0)) ==> r is Ok,
            (!(path.spec_bytes().len() == 0 || path.spec_bytes() == seq![PATH_SEPARATOR]) && spec_components(
                path.spec_bytes(),
            ).len() == 1 && self.io_ok() && self.dir_readable(0) && (exists|e: DirEntry83, pos: int|
                #[trigger] self.found_at(path.spec_bytes(), e, pos) && e.spec_is_directory() && self.dir_readable(
                    e.start_cluster,
                ))) ==> r is Ok,
    {
        let p = path.as_bytes();
        let slash: [u8; 1] = [PATH_SEPARATOR];
        let is_root = p.len() == 0 || bytes_eq(p, vstd::array::array_as_slice(&slash));
        proof {
            assert(slash@ =~= seq![PATH_SEPARATOR]);
        }
        let entry = if is_root {
            DirEntry83 {
                name: [0x20u8; 8],
                ext: [0x20u8; 3],
                attributes: ATTR_DIRECTORY,
                reserved: [0u8; 10],
                time: 0,
                date: 0,
                start_cluster: 0,
                file_size: 0,
            }
        } else {
            let lookup = self.find_entry(path);
            proof {
                if spec_components(path.spec_bytes()).len() == 1 && self.io_ok() && self.dir_readable(0) && (exists|
                    e: DirEntry83,
                    pos: int,
                | #[trigger] self.found_at(path.spec_bytes(), e, pos)) {
                    let (e, pos) = choose|e: DirEntry83, pos: int| #[trigger] self.found_at(path.spec_bytes(), e, pos);
                    self.lemma_root_lookup(path.spec_bytes(), lookup, e, pos);
                    assert forall|e2: DirEntry83, pos2: int| #[trigger] self.found_at(path.spec_bytes(), e2, pos2) implies e2
                        == e && pos2 == pos by {
                        self.lemma_found_unique(0, spec_components(path.spec_bytes())[0], e, pos, e2, pos2);
                    }
                }
            }
            let (found, pos) = lookup?;
            proof {
                assert(self.found_at(path.spec_bytes(), found, pos as int));
            }
            found
        };
        proof {
            if is_root {
                assert(ATTR_DIRECTORY & 0x10u8 != 0) by (bit_vector);
                assert(entry.spec_is_directory());
            }
        }
        if !entry.is_directory() {
            return Err(FsError::NotSupported);
        }
        let modified = ((entry.date as u64) << 16u64) | (entry.time as u64);
        proof {
            if is_root {
                assert(modified == 0) by (bit_vector)
                    requires
                        modified == ((0u16 as u64) << 16u64) | (0u16 as u64),
                ;
            }
        }
        proof {
            if ((path.spec_bytes().len() == 0 || path.spec_bytes() == seq![PATH_SEPARATOR]) && self.io_ok() && self.dir_readable(0)) || (!(path.spec_bytes().len() == 0 || path.spec_bytes() == seq![PATH_SEPARATOR]) && spec_components(
                    path.spec_bytes(),
                ).len() == 1 && self.io_ok() && self.dir_readable(0) && (exists|e: DirEntry83, pos: int|
                    #[trigger] self.found_at(path.spec_bytes(), e, pos) && e.spec_is_directory() && self.dir_readable(
                        e.start_cluster,
                    ))) {
                assert(self.io_ok() && self.dir_readable(entry.start_cluster));
            }
        }
        let (start_sector, num_sectors) = self.dir_region(entry.start_cluster)?;
        let mut result: Vec<DirEntry> = Vec::new();
        let mut sector_offset: u64 = 0;
        while sector_offset < num_sectors
            invariant
                ((path.spec_bytes().len() == 0 || path.spec_bytes() == seq![PATH_SEPARATOR]) && self.io_ok() && self.dir_readable(0)) || (!(path.spec_bytes().len() == 0 || path.spec_bytes() == seq![PATH_SEPARATOR]) && spec_components(
                    path.spec_bytes(),
                ).len() == 1 && self.io_ok() && self.dir_readable(0) && (exists|e: DirEntry83, pos: int|
                    #[trigger] self.found_at(path.spec_bytes(), e, pos) && e.spec_is_directory() && self.dir_readable(
                        e.start_cluster,
                    ))) ==> self.io_ok() && self.dir_readable(entry.start_cluster),
                !(!(path.spec_bytes().len() == 0 || path.spec_bytes() == seq![PATH_SEPARATOR]) && spec_components(
                    path.spec_bytes(),
                ).len() == 1 && self.io_ok() && self.dir_readable(0) && (exists|e: DirEntry83, pos: int|
                    #[trigger] self.found_at(path.spec_bytes(), e, pos) && !e.spec_is_directory())),
                self.wf(),
                (start_sector as int, num_sectors as int) == self.spec_dir_region(entry.start_cluster),
                num_sectors <= 255,
                start_sector + num_sectors <= 0x200_0000,
                sector_offset <= num_sectors,
                forall|s: int| start_sector <= s < start_sector + sector_offset ==> sector_ok(self.disk(), s),
                listing_matches(
                    result@,
                    dir_listing(self.disk(), start_sector as int, sector_offset as nat, modified),
                ),
            decreases num_sectors - sector_offset,
        {
            let sector = start_sector + sector_offset;
            proof {
                if self.io_ok() && self.dir_readable(entry.start_cluster) {
                    assert(sector_ok(self.disk(), sector as int));
                }
            }
            let sector_buffer = read_sector(&self.device, sector)?;
            let ghost sec = sector_buffer@;
            let ghost before = dir_listing(self.disk(), start_sector as int, sector_offset as nat, modified);
            let mut i: usize = 0;
            let mut stop = false;
            while i < ENTRIES_PER_SECTOR && !stop
                invariant
                    sec.len() == 512,
                    sector_buffer@ == sec,
                    i <= 16,
                    forall|j: int| 0 <= j < i ==> !#[trigger] slot_free(sec, j),
                    stop ==> i < 16 && slot_free(sec, i as int),
                    listing_matches(result@, before + sector_listing(sec, i as nat, modified)),
                decreases 16 - i + (if stop { 0int } else { 1int }),
            {
                let fat_entry = DirEntry83::read_from(sector_buffer.as_slice(), i * DIR_ENTRY_SIZE);
                proof {
                    lemma_decoded_slot(fat_entry, sec, i as int);
                }
                if fat_entry.is_free() {
                    stop = true;
                } else {
                    let ghost prev = result@;
                    if !fat_entry.is_deleted() && fat_entry.name[0] != 0x2E {
                        let md = FileMetadata {
                            size: fat_entry.file_size as u64,
                            is_dir: fat_entry.is_directory(),
                            created: 0,
                            modified,
                            permissions: FilePermissions {
                                readable: true,
                                writable: fat_entry.attributes & ATTR_READ_ONLY == 0,
                                executable: false,
                            },
                        };
                        let name = fat_entry.get_name();
                        proof {
                            lemma_entry_bytes_len(fat_entry);
                            vstd::bytes::lemma_auto_spec_u32_to_from_le_bytes();
                            assert(sec.subrange(i * 32 + 28, i * 32 + 32) =~= fat_entry.spec_bytes().subrange(28, 32));
                            assert(md == slot_metadata(sec, i as int, modified));
                            assert(slot_listed(sec, i as int));
                        }
                        result.push(DirEntry { name, metadata: md });
                        proof {
                            let l = before + sector_listing(sec, (i + 1) as nat, modified);
                            assert(l =~= (before + sector_listing(sec, i as nat, modified)).push(
                                (slot_name(sec, i as int), slot_metadata(sec, i as int, modified)),
                            ));
                            assert forall|k: int| 0 <= k < result@.len() implies encode_utf8(
                                (#[trigger] result@[k]).name@,
                            ) == l[k].0 && result@[k].metadata == l[k].1 by {
                                if k < prev.len() {
                                    assert(result@[k] == prev[k]);
                                }
                            }
                        }
                    } else {
                        proof {
                            assert(!slot_listed(sec, i as int));
                            assert(before + sector_listing(sec, (i + 1) as nat, modified) =~= before
                                + sector_listing(sec, i as nat, modified));
                        }
                    }
                    i = i + 1;
                }
            }
            proof {
                if stop {
                    lemma_listing_stops(sec, i as int, 16, modified);
                }
                assert(dir_listing(self.disk(), start_sector as int, (sector_offset + 1) as nat, modified)
                    =~= before + sector_listing(sec, 16, modified));
            }
            sector_offset = sector_offset + 1;
        }
        Ok(result)
    }

    /// The entry `rename` writes for entry `e` renamed to `to`: the base name
    /// and extension of `to`'s last component, cut to 8 and 3 bytes and
    /// padded with spaces; the rest of `e` kept.
    pub open spec fn renamed_bytes(e: DirEntry83, to: Seq<u8>) -> Seq<u8> {
        spec_padded(spec_base(spec_leaf(to)), 8) + spec_padded(spec_ext(spec_leaf(to)), 3) + e.spec_bytes().skip(
            11,
        )
    }

    /// Moves the entry at `from` to `to`: writes it, renamed, into the first
    /// open slot of `to`'s directory, then marks its old slot deleted;
    /// `AlreadyExists` when something is at `to`.
    #[verifier::rlimit(40)]
    pub fn rename(&mut self, from: &str, to: &str) -> (r: Result<(), FsError>)
        requires
            old(self).wf(),
        ensures
            ({
                let parent = spec_split_last(to.spec_bytes(), PATH_SEPARATOR, false).0;
                &&& spec_components(from.spec_bytes()).len() == 1
                &&& spec_components(to.spec_bytes()).len() == 1
                &&& (parent.len() == 0 || parent == seq![PATH_SEPARATOR])
                &&& old(self).io_ok()
                &&& old(self).dir_readable(0)
                &&& (exists|e: DirEntry83, pos: int| #[trigger] old(self).found_at(from.spec_bytes(), e, pos))
                &&& !(exists|e: DirEntry83, pos: int| #[trigger] old(self).found_at(to.spec_bytes(), e, pos))
                &&& exists|sector: int, i: int| #[trigger] old(self).open_slot_found(old(self).disk(), 0, sector, i)
            }) ==> r is Ok,
            ({
                let leaf = spec_leaf(to.spec_bytes());
                let parent = spec_split_last(to.spec_bytes(), PATH_SEPARATOR, false).0;
                &&& r is Ok
                &&& spec_components(from.spec_bytes()).len() == 1
                &&& spec_components(to.spec_bytes()).len() == 1
                &&& (parent.len() == 0 || parent == seq![PATH_SEPARATOR])
                &&& plain_name(leaf)
                &&& spec_base(leaf).len() <= MAX_FILENAME_LENGTH
                &&& spec_ext(leaf).len() <= MAX_EXTENSION_LENGTH
                &&& old(self).io_ok()
                &&& old(self).dir_readable(0)
            }) ==> exists|e: DirEntry83, pos: int, e2: DirEntry83, pos2: int|
                #![trigger old(self).found_at(from.spec_bytes(), e, pos), final(self).found_at(to.spec_bytes(), e2, pos2)]
                {
                    &&& old(self).found_at(from.spec_bytes(), e, pos)
                    &&& final(self).found_at(to.spec_bytes(), e2, pos2)
                    &&& e2.spec_name() == spec_leaf(to.spec_bytes())
                    &&& e2.file_size == e.file_size
                    &&& e2.start_cluster == e.start_cluster
                    &&& e2.attributes == e.attributes
                    &&& old(self).name_only_at(0, spec_components(from.spec_bytes())[0], pos)
                        ==> final(self).absent_in(0, spec_components(from.spec_bytes())[0])
                },
            old(self).io_ok() && r == Err::<(), FsError>(FsError::AlreadyExists) ==> exists|e: DirEntry83, pos: int|
                #[trigger] old(self).found_at(to.spec_bytes(), e, pos),
            final(self).wf(),
            final(self).same_state(*old(self)),
            final(self).block_size() == old(self).block_size(),
            r is Ok ==> exists|e: DirEntry83, pos: int|
                #![trigger old(self).found_at(from.spec_bytes(), e, pos)]
                {
                    &&& old(self).found_at(from.spec_bytes(), e, pos)
                    &&& sector_ok(final(self).disk(), pos / 512)
                    &&& final(self).disk()[pos / 512][pos % 512] == DELETED_ENTRY_MARKER
                },
            r is Ok ==> exists|e: DirEntry83, pos: int, c: u16, sector: int, i: int|
                #![trigger old(self).found_at(from.spec_bytes(), e, pos), old(self).open_slot_found(old(self).disk(), c, sector, i)]
                {
                    &&& old(self).found_at(from.spec_bytes(), e, pos)
                    &&& old(self).open_slot_found(old(self).disk(), c, sector, i)
                    &&& holds_entry(final(self).disk(), sector, i, Self::renamed_bytes(e, to.spec_bytes()))
                    &&& final(self).disk() == spec_mark_deleted(
                        old(self).disk().update(
                            sector,
                            spec_splice(old(self).disk()[sector], i * 32, Self::renamed_bytes(e, to.spec_bytes())),
                        ),
                        pos,
                    )
                },
            spec_components(from.spec_bytes()).len() == 1 && spec_components(to.spec_bytes()).len() == 1
                && old(self).io_ok() && old(self).dir_readable(0) && (exists|e: DirEntry83, pos: int|
                #[trigger] old(self).found_at(from.spec_bytes(), e, pos)) && (exists|e: DirEntry83, pos: int|
                #[trigger] old(self).found_at(to.spec_bytes(), e, pos)) ==> r == Err::<(), FsError>(
                FsError::AlreadyExists,
            ) && final(self).disk() == old(self).disk(),
    {
        let from_lookup = self.find_entry(from);
        proof {
            if spec_components(from.spec_bytes()).len() == 1 && self.io_ok() && self.dir_readable(0) && (exists|
                e: DirEntry83,
                pos: int,
            | #[trigger] self.found_at(from.spec_bytes(), e, pos)) {
                let (e, pos) = choose|e: DirEntry83, pos: int| #[trigger] self.found_at(from.spec_bytes(), e, pos);
                self.lemma_root_lookup(from.spec_bytes(), from_lookup, e, pos);
            }
        }
        let (src_entry, src_pos) = from_lookup?;
        let to_lookup = self.find_entry(to);
        proof {
            if spec_components(to.spec_bytes()).len() == 1 && self.io_ok() && self.dir_readable(0) && (exists|
                e: DirEntry83,
                pos: int,
            | #[trigger] self.found_at(to.spec_bytes(), e, pos)) {
                let (e, pos) = choose|e: DirEntry83, pos: int| #[trigger] self.found_at(to.spec_bytes(), e, pos);
                self.lemma_root_lookup(to.spec_bytes(), to_lookup, e, pos);
            }
        }
        if to_lookup.is_ok() {
            return Err(FsError::AlreadyExists);
        }
        proof {
            if spec_components(to.spec_bytes()).len() == 1 && self.io_ok() && self.dir_readable(0) {
                assert(old(self).absent_in(0, spec_components(to.spec_bytes())[0]));
            }
        }
        let (parent_path, new_name) = split_last(to.as_bytes(), PATH_SEPARATOR, false);
        let (base_name, extension) = split_last(new_name.as_slice(), EXTENSION_SEPARATOR, true);
        let renamed = DirEntry83::from_parts(base_name.as_slice(), extension.as_slice(), 0);
        let mut new_entry = src_entry;
        new_entry.name = renamed.name;
        new_entry.ext = renamed.ext;
        let dest_dir_cluster = self.parent_cluster(parent_path.as_slice())?;
        let ghost disk0 = self.disk();
        let ghost pre = *self;
        proof {
            assert(new_name@ == spec_leaf(to.spec_bytes()));
            assert(base_name@ == spec_base(spec_leaf(to.spec_bytes())));
            assert(extension@ == spec_ext(spec_leaf(to.spec_bytes())));
            assert(new_entry.spec_bytes() =~= Self::renamed_bytes(src_entry, to.spec_bytes())) by {
                assert(src_entry.spec_bytes().skip(11) =~= new_entry.spec_bytes().skip(11));
                assert(new_entry.name@ =~= spec_padded(spec_base(spec_leaf(to.spec_bytes())), 8));
                assert(new_entry.ext@ =~= spec_padded(spec_ext(spec_leaf(to.spec_bytes())), 3));
                assert(new_entry.spec_bytes() =~= new_entry.name@ + new_entry.ext@ + new_entry.spec_bytes().skip(11));
            }
        }
        self.write_dir_entry(dest_dir_cluster, &new_entry)?;
        let ghost disk1 = self.disk();
        let ghost mid = *self;
        let ghost slot: (int, int) = choose|sector: int, i: int|
            #![trigger pre.open_slot_found(disk0, dest_dir_cluster, sector, i)]
            pre.open_slot_found(disk0, dest_dir_cluster, sector, i) && disk1 == disk0.update(
                sector,
                spec_splice(disk0[sector], i * 32, new_entry.spec_bytes()),
            );
        proof {
            lemma_entry_bytes_len(new_entry);
            lemma_splice_subrange(disk0[slot.0], slot.1 * 32, new_entry.spec_bytes());
            assert(holds_entry(disk1, slot.0, slot.1, new_entry.spec_bytes()));
        }
        let sector = src_pos / SECTOR_SIZE as u64;
        let offset = (src_pos % SECTOR_SIZE as u64) as usize;
        proof {
            assert(old(self).found_at(from.spec_bytes(), src_entry, src_pos as int));
            let c0 = choose|c: u16| #[trigger] old(self).entry_found(c, spec_components(from.spec_bytes()).last(), src_entry, src_pos as int);
            assert(old(self).entry_found(c0, spec_components(from.spec_bytes()).last(), src_entry, src_pos as int));
            assert(sector_ok(disk0, sector as int));
            assert(disk1.len() == disk0.len());
            if sector as int == slot.0 {
                lemma_splice_subrange(disk0[slot.0], slot.1 * 32, new_entry.spec_bytes());
            }
            assert(sector_ok(self.disk(), sector as int));
        }
        let mut sector_buffer = read_sector(&self.device, sector)?;
        sector_buffer.set(offset, DELETED_ENTRY_MARKER);
        self.device.write_block(sector, sector_buffer.as_slice())?;
        proof {
            assert(old(self).found_at(from.spec_bytes(), src_entry, src_pos as int));
            let d2 = self.disk();
            if sector as int == slot.0 {
                let si = (src_pos as int % 512) / 32;
                let c0 = choose|c: u16| #[trigger] old(self).entry_found(c, spec_components(from.spec_bytes()).last(), src_entry, src_pos as int);
                assert(old(self).entry_found(c0, spec_components(from.spec_bytes()).last(), src_entry, src_pos as int));
                assert(slot_live(disk0[slot.0], si));
                assert(!slot_open(disk0[slot.0], si));
                assert(si != slot.1);
                assert(spec_slot(d2[slot.0], slot.1) =~= spec_slot(disk1[slot.0], slot.1));
            } else {
                assert(d2[slot.0] == disk1[slot.0]);
            }
            assert(holds_entry(d2, slot.0, slot.1, Self::renamed_bytes(src_entry, to.spec_bytes())));
            assert(old(self).open_slot_found(old(self).disk(), dest_dir_cluster, slot.0, slot.1));
            assert(d2 =~= spec_mark_deleted(
                old(self).disk().update(
                    slot.0,
                    spec_splice(old(self).disk()[slot.0], slot.1 * 32, Self::renamed_bytes(src_entry, to.spec_bytes())),
                ),
                src_pos as int,
            ));
            let leaf = spec_leaf(to.spec_bytes());
            let parent = spec_split_last(to.spec_bytes(), PATH_SEPARATOR, false).0;
            if spec_components(from.spec_bytes()).len() == 1 && spec_components(to.spec_bytes()).len() == 1 && (
            parent.len() == 0 || parent == seq![PATH_SEPARATOR]) && plain_name(leaf) && spec_base(leaf).len()
                <= MAX_FILENAME_LENGTH && spec_ext(leaf).len() <= MAX_EXTENSION_LENGTH && pre.io_ok()
                && pre.dir_readable(0) {
                crate::filesys::fat16::path::lemma_root_component(to.spec_bytes());
                assert(dest_dir_cluster == 0);
                let p = slot.0 * 512 + slot.1 * 32;
                pre.lemma_created_found(mid, disk0, slot.0, slot.1, new_entry, to.spec_bytes());
                assert(mid.entry_found(0, leaf, new_entry, p));
                let del = src_pos as int;
                let c0 = choose|c: u16| #[trigger] old(self).entry_found(c, spec_components(from.spec_bytes()).last(), src_entry, del);
                assert(old(self).entry_found(c0, spec_components(from.spec_bytes()).last(), src_entry, del));
                let ds = del / 512;
                let di = (del % 512) / 32;
                assert(del % 512 == di * 32 && 0 <= di < 16) by (nonlinear_arith)
                    requires
                        del % 32 == 0,
                        di == (del % 512) / 32,
                        del >= 0,
                ;
                assert(slot_live(disk0[ds], di));
                assert(!slot_free(disk0[ds], di));
                assert(!slot_open(disk0[ds], di));
                assert(del != p) by {
                    if del == p {
                        assert(ds == slot.0 && di == slot.1) by (nonlinear_arith)
                            requires
                                del == p,
                                p == slot.0 * 512 + slot.1 * 32,
                                0 <= slot.1 < 16,
                                ds == del / 512,
                                di == (del % 512) / 32,
                        ;
                    }
                }
                if ds == slot.0 {
                    assert(di != slot.1);
                    lemma_splice_subrange(disk0[slot.0], slot.1 * 32, new_entry.spec_bytes());
                    assert(mid.disk()[ds][del % 512] == disk0[ds][di * 32]);
                } else {
                    assert(mid.disk()[ds] == disk0[ds]);
                }
                mid.lemma_found_after_delete(*self, del, leaf, new_entry, p);
                assert(self.found_at(to.spec_bytes(), new_entry, p));
                assert(old(self).found_at(from.spec_bytes(), src_entry, del));
                let from_name = spec_components(from.spec_bytes())[0];
                if old(self).name_only_at(0, from_name, del) {
                    assert(old(self).entry_found(0, from_name, src_entry, del));
                    assert(pre.absent_in(0, leaf));
                    if leaf == from_name {
                        pre.lemma_absent_not_found(0, leaf, src_entry, del);
                    }
                    lemma_entry_bytes_len(new_entry);
                    assert(new_entry.spec_bytes().take(8) =~= new_entry.name@);
                    assert(new_entry.spec_bytes().subrange(8, 11) =~= new_entry.ext@);
                    pre.lemma_moved_absent(*self, slot.0, slot.1, new_entry.spec_bytes(), del, from_name);
                }
            }
        }
        Ok(())
    }

    /// Writes an empty FAT16 file system over `device` (clusters of 4
    /// sectors, two FATs, a root directory of 512 entries) and opens it.
    #[verifier::loop_isolation(false)]
    pub fn format(device: D) -> (r: Result<Self, FsError>)
        requires
            device.spec_block_size() >= 512,
            device.blocks().len() >= 1 + spec_root_dir_sectors(device.spec_block_size() as int),
        ensures
            device.reliable() && device.spec_block_size() == 512 ==> r is Ok,
            r matches Ok(fs) ==> fs.device_reliable() == device.reliable() && fs.block_size()
                == device.spec_block_size(),
            r matches Ok(fs) ==> {
                let b = spec_format_boot_sector(device.blocks().len() as u64, device.spec_block_size() as usize);
                &&& fs.wf()
                &&& fs.spec_boot_sector() == b
                &&& fs.disk().len() == device.blocks().len()
                &&& fs.disk()[0] == spec_boot_block(b, device.spec_block_size())
                &&& fs.spec_fd_table().len() == 0
                &&& spec_format_fat_sectors(device.blocks().len() as int, device.spec_block_size() as int) > 0
                    ==> format_tables_ok(
                    fs.disk(),
                    spec_format_fat_sectors(device.blocks().len() as int, device.spec_block_size() as int),
                    spec_root_dir_sectors(device.spec_block_size() as int),
                    device.spec_block_size(),
                )
            },
    {
        let mut device = device;
        let ghost rel = device.reliable();
        let total_blocks = device.total_blocks();
        let block_size = device.block_size();
        let bs = block_size as u64;
        let root_dir_sectors: u64 = div_ceil_u64(512 * 32, bs);
        proof {
            assert(root_dir_sectors <= 32) by (nonlinear_arith)
                requires
                    root_dir_sectors == (512 * 32 + bs - 1) / (bs as int),
                    bs >= 512,
            ;
        }
        let total_clusters = (total_blocks - 1 - root_dir_sectors) / 4;
        let sectors_per_fat: u64 = div_ceil_u64(total_clusters * 2, bs);
        proof {
            assert(sectors_per_fat <= total_blocks) by (nonlinear_arith)
                requires
                    sectors_per_fat == (total_clusters * 2 + bs - 1) / (bs as int),
                    total_clusters <= total_blocks / 4,
                    bs >= 512,
            ;
            assert(sectors_per_fat <= 0x100_0000_0000_0000) by (nonlinear_arith)
                requires
                    sectors_per_fat == (total_clusters * 2 + bs - 1) / (bs as int),
                    total_clusters <= 0xFFFF_FFFF_FFFF_FFFFint / 4,
                    bs >= 512,
            ;
        }
        #[verifier::truncate]
        let total16 = total_blocks as u16;
        #[verifier::truncate]
        let total32 = total_blocks as u32;
        #[verifier::truncate]
        let spf16 = sectors_per_fat as u16;
        #[verifier::truncate]
        let bps16 = block_size as u16;
        let boot_sector = BootSector {
            jump_boot: [0xEB, 0x3C, 0x90],
            oem_name: [0x55, 0x54, 0x54, 0x41, 0x4F, 0x53, 0x2E, 0x30],
            bytes_per_sector: bps16,
            sectors_per_cluster: 4,
            reserved_sectors: 1,
            fat_count: 2,
            root_dir_entries: 512,
            total_sectors_16: if total_blocks < 65536 { total16 } else { 0 },
            media_type: 0xF8,
            sectors_per_fat: spf16,
            sectors_per_track: 63,
            head_count: 255,
            hidden_sectors: 0,
            total_sectors_32: if total_blocks >= 65536 { total32 } else { 0 },
            drive_number: 0x80,
            reserved1: 0,
            boot_signature: 0x29,
            volume_id: 0x12345678,
            volume_label: [0x4E, 0x4F, 0x20, 0x4E, 0x41, 0x4D, 0x45, 0x20, 0x20, 0x20, 0x20],
            fs_type: [0x46, 0x41, 0x54, 0x31, 0x36, 0x20, 0x20, 0x20],
        };
        let ghost b = spec_format_boot_sector(total_blocks, block_size);
        proof {
            assert(boot_sector.jump_boot@ =~= b.jump_boot@);
            assert(boot_sector.oem_name@ =~= b.oem_name@);
            assert(boot_sector.volume_label@ =~= b.volume_label@);
            assert(boot_sector.fs_type@ =~= b.fs_type@);
            assert(boot_sector == b);
        }
        let boot_sector_bytes = boot_sector.to_bytes();
        proof {
            boot_sector.lemma_bytes_len();
        }
        let mut block_buf = vec![0u8; block_size];
        crate::filesys::fat16::file::copy_into_vec(&mut block_buf, 0, boot_sector_bytes.as_slice(), 0, 62);
        block_buf.set(510, 0x55);
        block_buf.set(511, 0xAA);
        proof {
            assert(block_buf@ =~= spec_boot_block(b, block_size as nat));
        }
        let ghost boot_block = block_buf@;
        proof {
            assert(root_dir_sectors >= 1) by (nonlinear_arith)
                requires
                    root_dir_sectors == (512 * 32 + bs - 1) / (bs as int),
                    bs >= 512,
            ;
            assert(block_buf@.len() == block_size);
        }
        device.write_block(0, block_buf.as_slice())?;
        let mut fat_block = vec![0u8; block_size];
        fat_block.set(0, 0xF8);
        fat_block.set(1, 0xFF);
        fat_block.set(2, 0xFF);
        fat_block.set(3, 0xFF);
        let ghost n = device.blocks().len();
        let ghost spf = sectors_per_fat as int;
        let ghost bsn = block_size as nat;
        proof {
            lemma_format_fits(total_blocks as int, bs as int, root_dir_sectors as int, spf);
            assert(1 + 2 * spf + root_dir_sectors <= n);
            assert(fat_block@ =~= fat_head_block(bsn));
        }
        let mut i: u64 = 0;
        while i < 2
            invariant
                device.blocks().len() == n,
                device.blocks()[0] == boot_block,
                device.spec_block_size() == block_size,
                device.reliable() == rel,
                sectors_per_fat <= total_blocks,
                sectors_per_fat <= 0x100_0000_0000_0000,
                spf == sectors_per_fat,
                bsn == block_size,
                1 + 2 * spf + root_dir_sectors <= n,
                fat_block@ == fat_head_block(bsn),
                root_dir_sectors >= 1,
                i <= 2,
                spf > 0 && i >= 1 ==> device.blocks()[1] == fat_head_block(bsn),
                spf > 0 && i >= 2 ==> device.blocks()[1 + spf] == fat_head_block(bsn),
            decreases 2 - i,
        {
            let fat_start = 1 + i * sectors_per_fat;
            proof {
                if i == 0 {
                    assert(fat_start == 1);
                } else {
                    assert(fat_start == 1 + spf);
                }
            }
            proof {
                assert(fat_start < n);
                assert(fat_block@.len() == block_size);
            }
            device.write_block(fat_start, fat_block.as_slice())?;
            i = i + 1;
        }
        let zero_block = vec![0u8; block_size];
        proof {
            assert(zero_block@ =~= zeroed_block(bsn));
        }
        let mut i: u64 = 0;
        while i < 2
            invariant
                device.blocks().len() == n,
                device.blocks()[0] == boot_block,
                device.spec_block_size() == block_size,
                device.reliable() == rel,
                sectors_per_fat <= total_blocks,
                sectors_per_fat <= 0x100_0000_0000_0000,
                spf == sectors_per_fat,
                bsn == block_size,
                1 + 2 * spf + root_dir_sectors <= n,
                zero_block@ == zeroed_block(bsn),
                i <= 2,
                spf > 0 ==> device.blocks()[1] == fat_head_block(bsn),
                spf > 0 ==> device.blocks()[1 + spf] == fat_head_block(bsn),
                i >= 1 ==> forall|j: int| 1 <= j < spf ==> #[trigger] device.blocks()[1 + j] == zeroed_block(bsn),
                i >= 2 ==> forall|j: int| 1 <= j < spf ==> #[trigger] device.blocks()[1 + spf + j] == zeroed_block(bsn),
            decreases 2 - i,
        {
            let fat_start = 1 + i * sectors_per_fat;
            proof {
                if i == 0 {
                    assert(fat_start == 1);
                } else {
                    assert(fat_start == 1 + spf);
                }
            }
            let mut j: u64 = 1;
            while j < sectors_per_fat
                invariant
                    device.blocks().len() == n,
                    device.blocks()[0] == boot_block,
                    device.spec_block_size() == block_size,
                    device.reliable() == rel,
                    sectors_per_fat <= total_blocks,
                    sectors_per_fat <= 0x100_0000_0000_0000,
                    spf == sectors_per_fat,
                    bsn == block_size,
                    1 + 2 * spf + root_dir_sectors <= n,
                    zero_block@ == zeroed_block(bsn),
                    fat_start == 1 + i * sectors_per_fat,
                    i == 0 ==> fat_start == 1,
                    i == 1 ==> fat_start == 1 + spf,
                    i < 2,
                    1 <= j,
                    spf > 0 ==> device.blocks()[1] == fat_head_block(bsn),
                    spf > 0 ==> device.blocks()[1 + spf] == fat_head_block(bsn),
                    i >= 1 ==> forall|j2: int| 1 <= j2 < spf ==> #[trigger] device.blocks()[1 + j2] == zeroed_block(bsn),
                    forall|j2: int| 1 <= j2 < j && j2 < spf ==> #[trigger] device.blocks()[fat_start + j2] == zeroed_block(bsn),
                decreases sectors_per_fat - j,
            {
                let ghost before = device.blocks();
                proof {
                    assert(fat_start + j < n);
                    assert(zero_block@.len() == block_size);
                }
                device.write_block(fat_start + j, zero_block.as_slice())?;
                proof {
                    if i == 0 {
                        assert(fat_start + j < 1 + spf);
                    } else {
                        assert(fat_start + j > 1 + spf);
                    }
                    assert(device.blocks()[1 + spf] == before[1 + spf]);
                }
                j = j + 1;
            }
            proof {
                if i == 0 {
                    assert forall|j2: int| 1 <= j2 < spf implies #[trigger] device.blocks()[1 + j2] == zeroed_block(bsn) by {
                        assert(device.blocks()[fat_start + j2] == zeroed_block(bsn));
                    }
                } else {
                    assert forall|j2: int| 1 <= j2 < spf implies #[trigger] device.blocks()[1 + spf + j2] == zeroed_block(bsn) by {
                        assert(device.blocks()[fat_start + j2] == zeroed_block(bsn));
                    }
                }
            }
            i = i + 1;
        }
        let root_dir_start = 1 + 2 * sectors_per_fat;
        let mut i: u64 = 0;
        while i < root_dir_sectors
            invariant
                device.blocks().len() == n,
                device.blocks()[0] == boot_block,
                device.spec_block_size() == block_size,
                device.reliable() == rel,
                root_dir_start == 1 + 2 * sectors_per_fat,
                sectors_per_fat <= total_blocks,
                sectors_per_fat <= 0x100_0000_0000_0000,
                root_dir_sectors <= 32,
                spf == sectors_per_fat,
                bsn == block_size,
                1 + 2 * spf + root_dir_sectors <= n,
                zero_block@ == zeroed_block(bsn),
                spf > 0 ==> device.blocks()[1] == fat_head_block(bsn),
                spf > 0 ==> device.blocks()[1 + spf] == fat_head_block(bsn),
                forall|j: int| 1 <= j < spf ==> #[trigger] device.blocks()[1 + j] == zeroed_block(bsn),
                forall|j: int| 1 <= j < spf ==> #[trigger] device.blocks()[1 + spf + j] == zeroed_block(bsn),
                forall|k: int| 0 <= k < i ==> #[trigger] device.blocks()[1 + 2 * spf + k] == zeroed_block(bsn),
            decreases root_dir_sectors - i,
        {
            proof {
                assert(root_dir_start + i < n);
                assert(zero_block@.len() == block_size);
            }
            device.write_block(root_dir_start + i, zero_block.as_slice())?;
            i = i + 1;
        }
        let ghost formatted = device.blocks();
        let r = Fat16::new(device);
        proof {
            if r is Ok {
                let fs = r->Ok_0;
                assert(formatted[0].take(62) =~= b.spec_bytes());
                fs.spec_boot_sector().lemma_bytes_injective(b);
            }
        }
        r
    }
}

impl<D: BlockDevice> FileSystem for Fat16<D> {
    open spec fn fs_wf(&self) -> bool {
        self.wf()
    }

    open spec fn fd_count(&self) -> nat {
        self.spec_fd_table().len()
    }

    open spec fn fd_open(&self, fd: usize) -> bool {
        fd < self.spec_fd_table().len() && self.spec_fd_table()[fd as int].valid
    }

    fn create_file(&mut self, path: &str) -> (r: Result<(), FsError>)
        ensures
            final(self).wf(),
            final(self).same_state(*old(self)),
            final(self).block_size() == old(self).block_size(),
            spec_leaf(path.spec_bytes()).len() > MAX_FILENAME_LENGTH + MAX_EXTENSION_LENGTH + 1 ==> r
                == Err::<(), FsError>(FsError::InvalidName),
            spec_base(spec_leaf(path.spec_bytes())).len() > MAX_FILENAME_LENGTH || spec_ext(
                spec_leaf(path.spec_bytes()),
            ).len() > MAX_EXTENSION_LENGTH ==> r == Err::<(), FsError>(FsError::InvalidName),
            r is Ok ==> spec_base(spec_leaf(path.spec_bytes())).len() <= MAX_FILENAME_LENGTH && spec_ext(
                spec_leaf(path.spec_bytes()),
            ).len() <= MAX_EXTENSION_LENGTH,
            r is Ok ==> exists|c: u16, sector: int, i: int|
                #![trigger holds_entry(
                    final(self).disk(),
                    sector,
                    i,
                    spec_new_entry_bytes(
                        spec_base(spec_leaf(path.spec_bytes())),
                        spec_ext(spec_leaf(path.spec_bytes())),
                        ATTR_ARCHIVE,
                        c,
                    ),
                )]
                c >= 2 && holds_entry(
                    final(self).disk(),
                    sector,
                    i,
                    spec_new_entry_bytes(
                        spec_base(spec_leaf(path.spec_bytes())),
                        spec_ext(spec_leaf(path.spec_bytes())),
                        ATTR_ARCHIVE,
                        c,
                    ),
                ),
    {
        Fat16::create_file(self, path)
    }

    fn create_dir(&mut self, path: &str) -> (r: Result<(), FsError>)
        ensures
            final(self).wf(),
            final(self).same_state(*old(self)),
            final(self).block_size() == old(self).block_size(),
            spec_leaf(path.spec_bytes()).len() > MAX_FILENAME_LENGTH ==> r == Err::<(), FsError>(
                FsError::InvalidName,
            ),
            r is Ok ==> exists|c: u16, sector: int, i: int|
                #![trigger holds_entry(
                    final(self).disk(),
                    sector,
                    i,
                    spec_new_entry_bytes(spec_leaf(path.spec_bytes()), Seq::empty(), ATTR_DIRECTORY, c),
                )]
                c >= 2 && holds_entry(
                    final(self).disk(),
                    sector,
                    i,
                    spec_new_entry_bytes(spec_leaf(path.spec_bytes()), Seq::empty(), ATTR_DIRECTORY, c),
                ),
    {
        Fat16::create_dir(self, path)
    }

    fn remove_file(&mut self, path: &str) -> (r: Result<(), FsError>)
        ensures
            final(self).wf(),
            final(self).same_state(*old(self)),
            final(self).block_size() == old(self).block_size(),
            r is Ok ==> exists|e: DirEntry83, pos: int|
                #![trigger old(self).found_at(path.spec_bytes(), e, pos)]
                {
                    &&& old(self).found_at(path.spec_bytes(), e, pos)
                    &&& !e.spec_is_directory()
                    &&& final(self).disk() == old(self).spec_free_chain(
                        spec_mark_deleted(old(self).disk(), pos),
                        e.start_cluster,
                        0,
                    )
                },
    {
        Fat16::remove_file(self, path)
    }

    fn remove_dir(&mut self, path: &str) -> (r: Result<(), FsError>)
        ensures
            final(self).wf(),
            final(self).same_state(*old(self)),
            final(self).block_size() == old(self).block_size(),
            r is Ok ==> exists|e: DirEntry83, pos: int|
                #![trigger old(self).found_at(path.spec_bytes(), e, pos)]
                old(self).found_at(path.spec_bytes(), e, pos) && e.spec_is_directory() && e.start_cluster
                    >= 2 && dir_sector_empty(
                    old(self).disk()[old(self).spec_data_start() + (e.start_cluster - 2) * old(self).spc()],
                ),
            r is Ok ==> exists|e: DirEntry83, pos: int|
                #![trigger old(self).found_at(path.spec_bytes(), e, pos)]
                {
                    &&& old(self).found_at(path.spec_bytes(), e, pos)
                    &&& e.spec_is_directory()
                    &&& final(self).disk() == old(self).spec_free_chain(
                        spec_mark_deleted(old(self).disk(), pos),
                        e.start_cluster,
                        0,
                    )
                },
    {
        Fat16::remove_dir(self, path)
    }

    fn open_file(&mut self, path: &str) -> (r: Result<usize, FsError>)
        ensures
            final(self).wf(),
            final(self).same_layout(*old(self)),
            final(self).disk() == old(self).disk(),
            final(self).block_size() == old(self).block_size(),
            r is Err ==> final(self).spec_fd_table() == old(self).spec_fd_table()
                && final(self).spec_reuse_fds() == old(self).spec_reuse_fds(),
            final(self).spec_fd_table().len() >= old(self).spec_fd_table().len(),
            r matches Ok(fd) ==> fd < final(self).spec_fd_table().len() && final(self).spec_fd_table()[fd as int].valid,
            r matches Ok(fd) ==> exists|e: DirEntry83, pos: int|
                #![trigger old(self).found_at(path.spec_bytes(), e, pos)]
                {
                    &&& old(self).found_at(path.spec_bytes(), e, pos)
                    &&& !e.spec_is_directory()
                    &&& old(self).spec_reuse_fds().len() == 0 ==> fd == old(self).spec_fd_table().len()
                        && final(self).spec_fd_table() == old(self).spec_fd_table().push(
                        old(self).opened(e, pos),
                    ) && final(self).spec_reuse_fds() == old(self).spec_reuse_fds()
                    &&& old(self).spec_reuse_fds().len() > 0 ==> fd == seq_max(old(self).spec_reuse_fds())
                        && final(self).spec_fd_table() == old(self).spec_fd_table().update(
                        fd as int,
                        old(self).opened(e, pos),
                    )
                },
    {
        Fat16::open_file(self, path)
    }

    fn close_file(&mut self, fd: usize)
        ensures
            final(self).wf(),
            final(self).same_layout(*old(self)),
            final(self).disk() == old(self).disk(),
            final(self).block_size() == old(self).block_size(),
            final(self).spec_fd_table() == old(self).spec_fd_table().update(fd as int, closed_file()),
            final(self).spec_reuse_fds() == old(self).spec_reuse_fds().push(fd),
    {
        Fat16::close_file(self, fd)
    }

    fn write_file(&mut self, fd: usize, buf: &[u8]) -> (r: Result<usize, FsError>)
        ensures
            final(self).wf(),
            final(self).same_layout(*old(self)),
            final(self).block_size() == old(self).block_size(),
            final(self).spec_reuse_fds() == old(self).spec_reuse_fds(),
            final(self).spec_fd_table().len() == old(self).spec_fd_table().len(),
            forall|k: int| 0 <= k < old(self).spec_fd_table().len() && k != fd ==> #[trigger] final(self).spec_fd_table()[k]
                == old(self).spec_fd_table()[k],
            ({
                let f = old(self).spec_fd_table()[fd as int];
                let g = final(self).spec_fd_table()[fd as int];
                &&& f.cluster_size < 512 ==> r == Err::<usize, FsError>(FsError::IOError)
                    && final(self).disk() == old(self).disk() && g == f
                &&& f.cluster_size >= 512 && f.position + buf@.len() > u64::MAX ==> r == Err::<usize, FsError>(
                    FsError::InvalidOffset,
                ) && final(self).disk() == old(self).disk() && g == f
                &&& g.same_file(f)
                &&& r matches Ok(n) ==> n == buf@.len() && g.position == f.position + n && g.size
                    == f.size_after_write(n as nat)
                &&& f.cluster_size >= 512 && buf@.len() == 0 ==> (r is Ok ==> final(self).disk()
                    == crate::filesys::fat16::file::spec_set_entry_size(
                    old(self).disk(),
                    f.entry_position as int,
                    f.size as u32,
                ))
                &&& f.cluster_size >= 512 && buf@.len() > 0 && f.within_cluster(buf@.len()) ==> (r is Ok
                    ==> final(self).disk() == crate::filesys::fat16::file::spec_set_entry_size(
                    f.spec_write_in_cluster(old(self).disk(), buf@),
                    f.entry_position as int,
                    f.size_after_write(buf@.len()) as u32,
                ))
                &&& f.cluster_size >= 512 && buf@.len() > 0 ==> (r is Ok ==> final(self).disk()
                    == crate::filesys::fat16::file::spec_set_entry_size(
                    f.spec_chain_write(
                        old(self).disk(),
                        f.current_cluster,
                        (f.position % (f.cluster_size as u64)) as int,
                        buf@,
                    ),
                    f.entry_position as int,
                    f.size_after_write(buf@.len()) as u32,
                ))
            }),
    {
        Fat16::write_file(self, fd, buf)
    }

    fn seek_file(&mut self, fd: usize, pos: SeekFrom) -> (r: Result<u64, FsError>)
        ensures
            final(self).wf(),
            final(self).same_layout(*old(self)),
            final(self).disk() == old(self).disk(),
            final(self).block_size() == old(self).block_size(),
            final(self).spec_reuse_fds() == old(self).spec_reuse_fds(),
            ({
                let f = old(self).spec_fd_table()[fd as int];
                match crate::filesys::fat16::file::spec_seek_target(pos, f.size, f.position) {
                    Some(t) if t <= f.size => r == Ok::<u64, FsError>(t) && final(self).spec_fd_table()
                        == old(self).spec_fd_table().update(fd as int, Fat16File { position: t, ..f }),
                    _ => r == Err::<u64, FsError>(FsError::InvalidOffset) && final(self).spec_fd_table()
                        == old(self).spec_fd_table(),
                }
            }),
    {
        Fat16::seek_file(self, fd, pos)
    }

    fn read_file(&mut self, fd: usize, buf: &mut [u8]) -> (r: Result<usize, FsError>)
        ensures
            final(self).wf(),
            final(self).same_layout(*old(self)),
            final(self).disk() == old(self).disk(),
            final(self).block_size() == old(self).block_size(),
            final(self).spec_reuse_fds() == old(self).spec_reuse_fds(),
            final(self).spec_fd_table().len() == old(self).spec_fd_table().len(),
            forall|k: int| 0 <= k < old(self).spec_fd_table().len() && k != fd ==> #[trigger] final(self).spec_fd_table()[k]
                == old(self).spec_fd_table()[k],
            final(buf)@.len() == old(buf)@.len(),
            ({
                let f = old(self).spec_fd_table()[fd as int];
                let g = final(self).spec_fd_table()[fd as int];
                &&& f.position >= f.size ==> r == Ok::<usize, FsError>(0) && g == f && final(buf)@ == old(buf)@
                &&& f.position < f.size && f.cluster_size < 512 ==> r == Err::<usize, FsError>(FsError::IOError)
                    && g == f
                &&& g.same_file(f) && g.size == f.size
                &&& r matches Ok(n) ==> n <= f.spec_want(old(buf)@.len()) && g.position == f.position + n
                    && final(buf)@.skip(n as int) == old(buf)@.skip(n as int)
                &&& f.position < f.size && f.cluster_size >= 512 && f.within_cluster(f.spec_want(old(buf)@.len()))
                    ==> (r matches Ok(n) ==> {
                    let off = f.position % (f.cluster_size as u64);
                    &&& n == f.spec_want(old(buf)@.len())
                    &&& final(buf)@.take(n as int) == crate::filesys::fat16::file::spec_cluster_bytes(
                        old(self).disk(),
                        f.spec_cluster_sector(f.current_cluster),
                        f.spc(),
                    ).subrange(off as int, off + n)
                })
                &&& f.position < f.size && f.cluster_size >= 512 ==> (r matches Ok(n) ==> final(buf)@.take(n as int)
                    == f.spec_chain_read(
                    old(self).disk(),
                    f.current_cluster,
                    (f.position % (f.cluster_size as u64)) as int,
                    f.spec_want(old(buf)@.len()),
                ))
            }),
    {
        Fat16::read_file(self, fd, buf)
    }

    fn read_dir(&self, path: &str) -> (r: Result<Vec<DirEntry>, FsError>)
        ensures
            path.spec_bytes().len() == 0 || path.spec_bytes() == seq![PATH_SEPARATOR] ==> (r matches Ok(v)
                ==> listing_matches(v@, self.spec_listing(0, 0))),
            !(path.spec_bytes().len() == 0 || path.spec_bytes() == seq![PATH_SEPARATOR]) ==> (r matches Ok(v)
                ==> exists|e: DirEntry83, pos: int|
                #![trigger self.found_at(path.spec_bytes(), e, pos)]
                self.found_at(path.spec_bytes(), e, pos) && e.spec_is_directory() && listing_matches(
                    v@,
                    self.spec_listing(e.start_cluster, stamp_of(e)),
                )),
    {
        Fat16::read_dir(self, path)
    }

    fn metadata(&self, path: &str) -> (r: Result<FileMetadata, FsError>)
        ensures
            r matches Ok(m) ==> exists|e: DirEntry83, pos: int|
                #![trigger self.found_at(path.spec_bytes(), e, pos)]
                self.found_at(path.spec_bytes(), e, pos) && m == spec_metadata(e),
    {
        Fat16::metadata(self, path)
    }

    fn rename(&mut self, from: &str, to: &str) -> (r: Result<(), FsError>)
        ensures
            final(self).wf(),
            final(self).same_state(*old(self)),
            final(self).block_size() == old(self).block_size(),
            r is Ok ==> exists|e: DirEntry83, pos: int|
                #![trigger old(self).found_at(from.spec_bytes(), e, pos)]
                {
                    &&& old(self).found_at(from.spec_bytes(), e, pos)
                    &&& sector_ok(final(self).disk(), pos / 512)
                    &&& final(self).disk()[pos / 512][pos % 512] == DELETED_ENTRY_MARKER
                },
            r is Ok ==> exists|e: DirEntry83, pos: int, c: u16, sector: int, i: int|
                #![trigger old(self).found_at(from.spec_bytes(), e, pos), old(self).open_slot_found(old(self).disk(), c, sector, i)]
                {
                    &&& old(self).found_at(from.spec_bytes(), e, pos)
                    &&& old(self).open_slot_found(old(self).disk(), c, sector, i)
                    &&& holds_entry(final(self).disk(), sector, i, Self::renamed_bytes(e, to.spec_bytes()))
                },
    {
        Fat16::rename(self, from, to)
    }
}

impl File for Fat16File {
    open spec fn ready_to_read(&self) -> bool {
        self.geometry_ok()
    }

    open spec fn ready_to_write(&self, len: nat) -> bool {
        &&& self.geometry_ok()
        &&& self.position + len <= u64::MAX
        &&& self.entry_position % 512 + 32 <= 512
    }

    open spec fn spec_position(&self) -> u64 {
        self.position
    }

    fn read_with_device<D: BlockDevice>(&mut self, device: &mut D, buf: &mut [u8]) -> (r: Result<
        usize,
        FsError,
    >)
        ensures
            *final(device) == *old(device),
            final(buf)@.len() == old(buf)@.len(),
            final(self).same_file(*old(self)),
            final(self).size == old(self).size,
            final(self).geometry_ok(),
            old(self).position >= old(self).size ==> r == Ok::<usize, FsError>(0) && *final(self)
                == *old(self) && final(buf)@ == old(buf)@,
            r matches Ok(n) ==> {
                &&& n <= old(self).spec_want(old(buf)@.len())
                &&& final(self).position == old(self).position + n
                &&& final(buf)@.skip(n as int) == old(buf)@.skip(n as int)
            },
            old(self).position < old(self).size && old(self).within_cluster(
                old(self).spec_want(old(buf)@.len()),
            ) ==> (r matches Ok(n) ==> {
                let off = old(self).position % (old(self).cluster_size as u64);
                &&& n == old(self).spec_want(old(buf)@.len())
                &&& final(buf)@.take(n as int) == crate::filesys::fat16::file::spec_cluster_bytes(
                    old(device).blocks(),
                    old(self).spec_cluster_sector(old(self).current_cluster),
                    old(self).spc(),
                ).subrange(off as int, off + n)
            }),
    {
        Fat16File::read_with_device(self, device, buf)
    }

    fn write_with_device<D: BlockDevice>(&mut self, device: &mut D, buf: &[u8]) -> (r: Result<
        usize,
        FsError,
    >)
        ensures
            final(device).spec_block_size() == old(device).spec_block_size(),
            final(self).same_file(*old(self)),
            final(self).geometry_ok(),
            r matches Ok(n) ==> {
                &&& n == buf@.len()
                &&& final(self).position == old(self).position + n
                &&& final(self).size == old(self).size_after_write(n as nat)
            },
            buf@.len() == 0 ==> (r is Ok ==> final(device).blocks() == crate::filesys::fat16::file::spec_set_entry_size(
                old(device).blocks(),
                old(self).entry_position as int,
                old(self).size as u32,
            )),
            buf@.len() > 0 && old(self).within_cluster(buf@.len()) ==> (r is Ok
                ==> final(device).blocks() == crate::filesys::fat16::file::spec_set_entry_size(
                old(self).spec_write_in_cluster(old(device).blocks(), buf@),
                old(self).entry_position as int,
                old(self).size_after_write(buf@.len()) as u32,
            )),
    {
        Fat16File::write_with_device(self, device, buf)
    }

    fn seek(&mut self, pos: SeekFrom) -> (r: Result<u64, FsError>)
        ensures
            match crate::filesys::fat16::file::spec_seek_target(pos, old(self).size, old(self).position) {
                Some(t) if t <= old(self).size => r == Ok::<u64, FsError>(t) && *final(self) == Fat16File {
                    position: t,
                    ..*old(self)
                },
                _ => r == Err::<u64, FsError>(FsError::InvalidOffset) && *final(self) == *old(self),
            },
    {
        Fat16File::seek(self, pos)
    }

    fn flush(&mut self) -> (r: Result<(), FsError>)
        ensures
            r is Ok,
            *final(self) == *old(self),
    {
        Fat16File::flush(self)
    }

    fn size(&self) -> (r: u64)
        ensures
            r == self.size,
    {
        Fat16File::size(self)
    }
}

} // verus!
