//! FAT16 open files and cluster-chain based I/O.

use crate::filesys::fat16::constants::{FAT_ENTRY_SIZE, SECTOR_SIZE};
use crate::filesys::fat16::dir_entry::DirEntry83;
use crate::filesys::fat16::fat_entry::FatEntry;
use crate::filesys::{BlockDevice, FsError, SeekFrom};
use vstd::bytes::{
    spec_u16_from_le_bytes, spec_u16_to_le_bytes, spec_u32_to_le_bytes, u16_from_le_bytes,
    u16_to_le_bytes, u32_to_le_bytes,
};
use vstd::prelude::*;
use vstd::slice::slice_subrange;

verus! {

/// Sector of the FAT, counted from the start of the FAT, that holds the entry
/// of `cluster`.
pub open spec fn spec_fat_sector(cluster: u16) -> int {
    (cluster as int * 2) / 512
}

/// Byte offset, within its sector, of the FAT entry of `cluster`.
pub open spec fn spec_fat_offset(cluster: u16) -> int {
    (cluster as int * 2) % 512
}

/// The FAT entry of `cluster` on `disk`, for a FAT starting at sector
/// `fat_start`: the little-endian `u16` at byte `2 * cluster` of the FAT.
pub open spec fn spec_fat_entry(disk: Seq<Seq<u8>>, fat_start: int, cluster: u16) -> u16 {
    let o = spec_fat_offset(cluster);
    spec_u16_from_le_bytes(disk[fat_start + spec_fat_sector(cluster)].subrange(o, o + 2))
}

/// `sector` with the two bytes at `o` replaced by the little-endian bytes of `v`.
pub open spec fn spec_put_u16(sector: Seq<u8>, o: int, v: u16) -> Seq<u8> {
    sector.update(o, spec_u16_to_le_bytes(v)[0]).update(o + 1, spec_u16_to_le_bytes(v)[1])
}

/// `disk` with the FAT entry of `cluster` set to `v`.
pub open spec fn spec_set_fat_entry(disk: Seq<Seq<u8>>, fat_start: int, cluster: u16, v: u16) -> Seq<
    Seq<u8>,
> {
    let s = fat_start + spec_fat_sector(cluster);
    disk.update(s, spec_put_u16(disk[s], spec_fat_offset(cluster), v))
}

/// Whether the FAT entry of `cluster` can be read: its sector exists and is
/// a whole sector.
pub open spec fn fat_sector_readable(disk: Seq<Seq<u8>>, fat_start: int, cluster: u16) -> bool {
    &&& 0 <= fat_start + spec_fat_sector(cluster) < disk.len()
    &&& disk[fat_start + spec_fat_sector(cluster)].len() == 512
}

/// Whether the FAT entry of every cluster in `[lo, hi)` lies in a whole
/// sector of the disk.
pub open spec fn fat_readable(disk: Seq<Seq<u8>>, fat_start: int, lo: int, hi: int) -> bool {
    forall|j: int| lo <= j < hi ==> #[trigger] fat_sector_readable(disk, fat_start, j as u16)
}

/// The bytes of the `spc` sectors that start at `sector`, one after the other.
pub open spec fn spec_cluster_bytes(disk: Seq<Seq<u8>>, sector: int, spc: nat) -> Seq<u8> {
    Seq::new(spc * 512, |k: int| disk[sector + k / 512][k % 512])
}

/// Whether the `spc` sectors that start at `sector` exist and are whole.
pub open spec fn cluster_readable(disk: Seq<Seq<u8>>, sector: int, spc: nat) -> bool {
    &&& 0 <= sector
    &&& sector + spc <= disk.len()
    &&& forall|i: int| sector <= i < sector + spc ==> (#[trigger] disk[i]).len() == 512
}

/// The FAT entry of a cluster lies whole inside its sector.
pub proof fn lemma_fat_offset(cluster: u16)
    ensures
        0 <= spec_fat_offset(cluster) <= 510,
        spec_fat_sector(cluster) <= 255,
        (cluster as u64 * 2) % 512 == spec_fat_offset(cluster),
        (cluster as u64 * 2) / 512 == spec_fat_sector(cluster),
{
    let c = cluster as u64;
    assert((c * 2) % 512 <= 510) by (bit_vector)
        requires
            c < 65536,
    ;
    assert((c * 2) / 512 <= 255) by (bit_vector)
        requires
            c < 65536,
    ;
}

/// The FAT entry of `cluster` is the little-endian `u16` at bytes
/// `2 * cluster` and `2 * cluster + 1` of the FAT, its sectors taken one
/// after the other; setting it writes the little-endian bytes of the new
/// value there and changes no other byte of the FAT's sectors.
pub proof fn lemma_fat_entry_bytes(disk: Seq<Seq<u8>>, fat_start: int, cluster: u16, n: nat, v: u16)
    requires
        2 * cluster + 2 <= n * 512,
        cluster_readable(disk, fat_start, n),
    ensures
        spec_fat_entry(disk, fat_start, cluster) == spec_u16_from_le_bytes(
            spec_cluster_bytes(disk, fat_start, n).subrange(2 * cluster, 2 * cluster + 2),
        ),
        spec_cluster_bytes(spec_set_fat_entry(disk, fat_start, cluster, v), fat_start, n).subrange(
            2 * cluster,
            2 * cluster + 2,
        ) == spec_u16_to_le_bytes(v),
        forall|k: int|
            0 <= k < n * 512 && k != 2 * cluster && k != 2 * cluster + 1 ==> #[trigger] spec_cluster_bytes(
                spec_set_fat_entry(disk, fat_start, cluster, v),
                fat_start,
                n,
            )[k] == spec_cluster_bytes(disk, fat_start, n)[k],
{
    lemma_fat_offset(cluster);
    vstd::bytes::lemma_auto_spec_u16_to_from_le_bytes();
    let b = 2 * cluster as int;
    let sec = spec_fat_sector(cluster);
    let o = spec_fat_offset(cluster);
    assert(b == sec * 512 + o) by (nonlinear_arith)
        requires
            sec == b / 512,
            o == b % 512,
            b >= 0,
    ;
    assert((b + 1) / 512 == sec && (b + 1) % 512 == o + 1) by (nonlinear_arith)
        requires
            b == sec * 512 + o,
            0 <= o <= 510,
    ;
    let d2 = spec_set_fat_entry(disk, fat_start, cluster, v);
    let row = disk[fat_start + sec];
    assert(spec_cluster_bytes(disk, fat_start, n).subrange(b, b + 2) =~= row.subrange(o, o + 2));
    assert(d2[fat_start + sec] == spec_put_u16(row, o, v));
    assert(spec_cluster_bytes(d2, fat_start, n).subrange(b, b + 2) =~= spec_u16_to_le_bytes(v));
    assert forall|k: int|
        0 <= k < n * 512 && k != b && k != b + 1 implies #[trigger] spec_cluster_bytes(d2, fat_start, n)[k]
        == spec_cluster_bytes(disk, fat_start, n)[k] by {
        let q = k / 512;
        let r = k % 512;
        assert(k == q * 512 + r && 0 <= r < 512) by (nonlinear_arith)
            requires
                q == k / 512,
                r == k % 512,
                k >= 0,
        ;
        assert(q < n) by (nonlinear_arith)
            requires
                k == q * 512 + r,
                0 <= r < 512,
                k < n * 512,
        ;
        assert(spec_cluster_bytes(d2, fat_start, n)[k] == d2[fat_start + q][r]);
        assert(spec_cluster_bytes(disk, fat_start, n)[k] == disk[fat_start + q][r]);
        assert(disk[fat_start + q].len() == 512);
        if q == sec {
            assert(r != o && r != o + 1);
        } else {
            assert(d2[fat_start + q] == disk[fat_start + q]);
        }
    }
}

pub proof fn lemma_put_u16_len(sector: Seq<u8>, o: int, v: u16)
    requires
        0 <= o,
        o + 2 <= sector.len(),
    ensures
        spec_put_u16(sector, o, v).len() == sector.len(),
        spec_put_u16(sector, o, v).subrange(o, o + 2) == spec_u16_to_le_bytes(v),
{
    vstd::bytes::lemma_auto_spec_u16_to_from_le_bytes();
    assert(spec_u16_to_le_bytes(v).len() == 2);
    assert(spec_put_u16(sector, o, v).subrange(o, o + 2) =~= spec_u16_to_le_bytes(v));
}

/// Reads the little-endian `u16` at `o` of `sector_data`.
fn get_u16_at(sector_data: &[u8], o: usize) -> (r: u16)
    requires
        o + 2 <= sector_data@.len(),
    ensures
        r == spec_u16_from_le_bytes(sector_data@.subrange(o as int, o + 2)),
{
    let n = sector_data.len();
    u16_from_le_bytes(slice_subrange(sector_data, o, o + 2))
}

/// Writes the little-endian bytes of `v` at `o` of `sector_data`.
fn set_u16_at(sector_data: &mut Vec<u8>, o: usize, v: u16)
    requires
        o + 2 <= old(sector_data)@.len(),
    ensures
        final(sector_data)@ == spec_put_u16(old(sector_data)@, o as int, v),
{
    let n = sector_data.len();
    let bytes = u16_to_le_bytes(v);
    proof {
        vstd::bytes::lemma_auto_spec_u16_to_from_le_bytes();
        assert(spec_u16_to_le_bytes(v).len() == 2);
    }
    sector_data.set(o, bytes[0]);
    sector_data.set(o + 1, bytes[1]);
}

/// Reads the FAT entry of `cluster` from the FAT that starts at `fat_start`.
pub fn read_fat_entry_at<D: BlockDevice>(device: &D, fat_start: u64, cluster: u16) -> (r: Result<
    FatEntry,
    FsError,
>)
    requires
        fat_start + 256 <= u64::MAX,
    ensures
        r is Ok ==> fat_sector_readable(device.blocks(), fat_start as int, cluster)
            && r->Ok_0.cluster == spec_fat_entry(device.blocks(), fat_start as int, cluster),
        device.reliable() && device.spec_block_size() == 512 && fat_sector_readable(
            device.blocks(),
            fat_start as int,
            cluster,
        ) ==> r is Ok,
        device.reliable() && r is Err ==> r->Err_0 == FsError::IOError,
{
    proof {
        lemma_fat_offset(cluster);
    }
    let offset = cluster as u64 * FAT_ENTRY_SIZE as u64;
    let sector = fat_start + (offset / SECTOR_SIZE as u64);
    let sector_offset = (offset % SECTOR_SIZE as u64) as usize;
    let mut sector_data = vec![0u8; SECTOR_SIZE];
    device.read_block(sector, sector_data.as_mut_slice())?;
    let entry = get_u16_at(sector_data.as_slice(), sector_offset);
    Ok(FatEntry { cluster: entry })
}

/// Writes the FAT entry of `cluster` in the FAT that starts at `fat_start`,
/// reading its sector first and writing it back with the entry changed;
/// returns the sector as written.
pub fn write_fat_entry_at<D: BlockDevice>(
    device: &mut D,
    fat_start: u64,
    cluster: u16,
    entry: FatEntry,
) -> (r: Result<Vec<u8>, FsError>)
    requires
        fat_start + 256 <= u64::MAX,
    ensures
        old(device).reliable() && r is Err ==> r->Err_0 == FsError::IOError,
        final(device).reliable() == old(device).reliable(),
        r is Ok ==> fat_sector_readable(old(device).blocks(), fat_start as int, cluster)
            && final(device).blocks() == spec_set_fat_entry(old(device).blocks(), fat_start as int, cluster, entry.cluster)
            && r->Ok_0@ == final(device).blocks()[fat_start + spec_fat_sector(cluster)],
        r is Err ==> final(device).blocks() == old(device).blocks(),
        final(device).spec_block_size() == old(device).spec_block_size(),
        old(device).reliable() && old(device).spec_block_size() == 512 && fat_sector_readable(
            old(device).blocks(),
            fat_start as int,
            cluster,
        ) ==> r is Ok,
{
    proof {
        lemma_fat_offset(cluster);
    }
    let offset = cluster as u64 * FAT_ENTRY_SIZE as u64;
    let sector = fat_start + (offset / SECTOR_SIZE as u64);
    let sector_offset = (offset % SECTOR_SIZE as u64) as usize;
    let mut sector_data = vec![0u8; SECTOR_SIZE];
    device.read_block(sector, sector_data.as_mut_slice())?;
    set_u16_at(&mut sector_data, sector_offset, entry.cluster);
    device.write_block(sector, sector_data.as_slice())?;
    Ok(sector_data)
}

/// Whether the FAT entry of cluster `j` can be read and is not free.
pub open spec fn cluster_in_use(disk: Seq<Seq<u8>>, fat_start: int, j: int) -> bool {
    fat_sector_readable(disk, fat_start, j as u16) && spec_fat_entry(disk, fat_start, j as u16) != 0
}

/// Every cluster in `[lo, hi)` has a readable FAT entry that is not free.
pub open spec fn all_in_use(disk: Seq<Seq<u8>>, fat_start: int, lo: int, hi: int) -> bool {
    forall|j: int| lo <= j < hi ==> #[trigger] cluster_in_use(disk, fat_start, j)
}

/// Finds the first cluster in `[2, bound)` whose FAT entry is free.
pub fn find_free_cluster<D: BlockDevice>(device: &D, fat_start: u64, bound: u16) -> (r: Result<
    Option<u16>,
    FsError,
>)
    requires
        fat_start + 256 <= u64::MAX,
    ensures
        device.reliable() && r is Err ==> r->Err_0 == FsError::IOError,
        r matches Ok(Some(c)) ==> {
            &&& 2 <= c < bound
            &&& fat_sector_readable(device.blocks(), fat_start as int, c)
            &&& spec_fat_entry(device.blocks(), fat_start as int, c) == 0
            &&& all_in_use(device.blocks(), fat_start as int, 2, c as int)
        },
        r matches Ok(None) ==> all_in_use(device.blocks(), fat_start as int, 2, bound as int),
        all_in_use(device.blocks(), fat_start as int, 2, bound as int) ==> !(r matches Ok(Some(_))),
        device.reliable() && device.spec_block_size() == 512 && fat_readable(
            device.blocks(),
            fat_start as int,
            2,
            bound as int,
        ) ==> r is Ok,
{
    let mut cluster: u16 = 2;
    while cluster < bound
        invariant
            2 <= cluster,
            fat_start + 256 <= u64::MAX,
            all_in_use(device.blocks(), fat_start as int, 2, cluster as int),
        decreases bound - cluster,
    {
        proof {
            if device.reliable() && device.spec_block_size() == 512 && fat_readable(
                device.blocks(),
                fat_start as int,
                2,
                bound as int,
            ) {
                let j = cluster as int;
                assert(fat_sector_readable(device.blocks(), fat_start as int, j as u16));
                assert(j as u16 == cluster);
            }
        }
        let entry = read_fat_entry_at(device, fat_start, cluster)?;
        if entry.is_free() {
            proof {
                if all_in_use(device.blocks(), fat_start as int, 2, bound as int) {
                    assert(cluster_in_use(device.blocks(), fat_start as int, cluster as int));
                }
            }
            return Ok(Some(cluster));
        }
        assert(cluster_in_use(device.blocks(), fat_start as int, cluster as int));
        cluster = cluster + 1;
    }
    Ok(None)
}

/// `s` with the bytes from `o` on replaced by `b`.
pub open spec fn spec_splice(s: Seq<u8>, o: int, b: Seq<u8>) -> Seq<u8> {
    s.take(o) + b + s.skip(o + b.len())
}

/// `disk` with the `spc` sectors from `sector` on replaced by the
/// consecutive 512-byte pieces of `data`.
pub open spec fn spec_write_cluster(disk: Seq<Seq<u8>>, sector: int, data: Seq<u8>, spc: nat) -> Seq<
    Seq<u8>,
> {
    Seq::new(
        disk.len(),
        |k: int|
            if sector <= k < sector + spc {
                data.subrange((k - sector) * 512, (k - sector) * 512 + 512)
            } else {
                disk[k]
            },
    )
}

/// Reads one whole sector.
pub fn read_sector<D: BlockDevice>(device: &D, sector: u64) -> (r: Result<Vec<u8>, FsError>)
    ensures
        r matches Ok(v) ==> sector < device.blocks().len() && v@ == device.blocks()[sector as int]
            && v@.len() == 512,
        device.reliable() ==> (r is Ok <==> sector < device.blocks().len() && device.spec_block_size() == 512),
        device.reliable() && r is Err ==> r is Err && r->Err_0 == FsError::IOError,
{
    let mut data = vec![0u8; SECTOR_SIZE];
    device.read_block(sector, data.as_mut_slice())?;
    Ok(data)
}

/// Reads the `spc` sectors of a cluster, one after the other.
pub fn read_cluster<D: BlockDevice>(device: &D, sector: u64, spc: usize) -> (r: Result<
    Vec<u8>,
    FsError,
>)
    requires
        sector + spc <= u64::MAX,
        0 < spc <= 255,
    ensures
        r matches Ok(v) ==> cluster_readable(device.blocks(), sector as int, spc as nat) && v@
            == spec_cluster_bytes(device.blocks(), sector as int, spc as nat),
        device.reliable() && device.spec_block_size() == 512 && cluster_readable(
            device.blocks(),
            sector as int,
            spc as nat,
        ) ==> r is Ok,
{
    let mut data: Vec<u8> = Vec::new();
    let mut i: usize = 0;
    proof {
        assert(data@ =~= spec_cluster_bytes(device.blocks(), sector as int, 0));
    }
    while i < spc
        invariant
            i <= spc,
            spc <= 255,
            sector + spc <= u64::MAX,
            i > 0 ==> cluster_readable(device.blocks(), sector as int, i as nat),
            data@ == spec_cluster_bytes(device.blocks(), sector as int, i as nat),
        decreases spc - i,
    {
        proof {
            if device.reliable() && device.spec_block_size() == 512 && cluster_readable(
                device.blocks(),
                sector as int,
                spc as nat,
            ) {
                assert(device.blocks()[sector + i].len() == 512);
            }
        }
        let sector_data = read_sector(device, sector + i as u64)?;
        let ghost before = data@;
        crate::filesys::fat16::raw::push_all(&mut data, sector_data.as_slice());
        proof {
            let d = device.blocks();
            assert forall|k: int| sector <= k < sector + i + 1 implies (#[trigger] d[k]).len() == 512 by {
                if k < sector + i && i > 0 {
                    assert(cluster_readable(d, sector as int, i as nat));
                }
            }
            assert(data@ =~= spec_cluster_bytes(d, sector as int, (i + 1) as nat)) by {
                assert forall|k: int| 0 <= k < (i + 1) * 512 implies data@[k] == spec_cluster_bytes(
                    d,
                    sector as int,
                    (i + 1) as nat,
                )[k] by {
                    if k < i * 512 {
                        assert(data@[k] == before[k]);
                    } else {
                        assert(k / 512 == i) by (nonlinear_arith)
                            requires
                                i * 512 <= k < (i + 1) * 512,
                        ;
                        assert(k % 512 == k - i * 512) by (nonlinear_arith)
                            requires
                                i * 512 <= k < (i + 1) * 512,
                        ;
                    }
                }
            }
        }
        i = i + 1;
    }
    Ok(data)
}

/// Writes the consecutive 512-byte pieces of `data` over the sectors of a
/// cluster.
pub fn write_cluster<D: BlockDevice>(device: &mut D, sector: u64, data: &[u8], spc: usize) -> (r:
    Result<(), FsError>)
    requires
        sector + spc <= u64::MAX,
        0 < spc <= 255,
        data@.len() == spc * 512,
    ensures
        final(device).reliable() == old(device).reliable(),
        final(device).spec_block_size() == old(device).spec_block_size(),
        r is Ok ==> sector + spc <= old(device).blocks().len() && final(device).blocks()
            == spec_write_cluster(old(device).blocks(), sector as int, data@, spc as nat),
        old(device).reliable() && old(device).spec_block_size() == 512 && sector + spc <= old(
            device,
        ).blocks().len() ==> r is Ok,
{
    let mut i: usize = 0;
    proof {
        assert(old(device).blocks() =~= spec_write_cluster(old(device).blocks(), sector as int, data@, 0));
    }
    while i < spc
        invariant
            i <= spc,
            spc <= 255,
            sector + spc <= u64::MAX,
            data@.len() == spc * 512,
            device.spec_block_size() == old(device).spec_block_size(),
            device.reliable() == old(device).reliable(),
            device.blocks().len() == old(device).blocks().len(),
            i > 0 ==> sector + i <= old(device).blocks().len(),
            device.blocks() == spec_write_cluster(old(device).blocks(), sector as int, data@, i as nat),
        decreases spc - i,
    {
        assert(i * 512 + 512 <= spc * 512) by (nonlinear_arith)
            requires
                i < spc,
        ;
        let piece = slice_subrange(data, i * SECTOR_SIZE, i * SECTOR_SIZE + SECTOR_SIZE);
        device.write_block(sector + i as u64, piece)?;
        proof {
            assert(device.blocks() =~= spec_write_cluster(
                old(device).blocks(),
                sector as int,
                data@,
                (i + 1) as nat,
            ));
        }
        i = i + 1;
    }
    Ok(())
}

/// Copies `n` bytes of `src` from `src_off` into `dst` at `dst_off`.
pub fn copy_bytes(dst: &mut [u8], dst_off: usize, src: &[u8], src_off: usize, n: usize)
    requires
        dst_off + n <= old(dst)@.len(),
        src_off + n <= src@.len(),
    ensures
        final(dst)@ == spec_splice(old(dst)@, dst_off as int, src@.subrange(src_off as int, src_off + n)),
{
    let dlen = dst.len();
    let slen = src.len();
    let mut i: usize = 0;
    while i < n
        invariant
            i <= n,
            dlen == dst@.len(),
            slen == src@.len(),
            dst_off + n <= dst@.len(),
            src_off + n <= src@.len(),
            dst@.len() == old(dst)@.len(),
            forall|k: int| 0 <= k < dst_off ==> dst@[k] == old(dst)@[k],
            forall|k: int| dst_off + i <= k < dst@.len() ==> dst@[k] == old(dst)@[k],
            forall|k: int| dst_off <= k < dst_off + i ==> dst@[k] == src@[src_off + k - dst_off],
        decreases n - i,
    {
        dst[dst_off + i] = src[src_off + i];
        i = i + 1;
    }
    proof {
        assert(dst@ =~= spec_splice(old(dst)@, dst_off as int, src@.subrange(src_off as int, src_off + n)));
    }
}

/// Copies `n` bytes of `src` from `src_off` into the vector `dst` at `dst_off`.
pub fn copy_into_vec(dst: &mut Vec<u8>, dst_off: usize, src: &[u8], src_off: usize, n: usize)
    requires
        dst_off + n <= old(dst)@.len(),
        src_off + n <= src@.len(),
    ensures
        final(dst)@ == spec_splice(old(dst)@, dst_off as int, src@.subrange(src_off as int, src_off + n)),
{
    let dlen = dst.len();
    let slen = src.len();
    let mut i: usize = 0;
    while i < n
        invariant
            i <= n,
            dlen == dst@.len(),
            slen == src@.len(),
            dst_off + n <= dst@.len(),
            src_off + n <= src@.len(),
            dst@.len() == old(dst)@.len(),
            forall|k: int| 0 <= k < dst_off ==> dst@[k] == old(dst)@[k],
            forall|k: int| dst_off + i <= k < dst@.len() ==> dst@[k] == old(dst)@[k],
            forall|k: int| dst_off <= k < dst_off + i ==> dst@[k] == src@[src_off + k - dst_off],
        decreases n - i,
    {
        dst.set(dst_off + i, src[src_off + i]);
        i = i + 1;
    }
    proof {
        assert(dst@ =~= spec_splice(old(dst)@, dst_off as int, src@.subrange(src_off as int, src_off + n)));
    }
}

/// `disk` with the size field of the directory entry at byte
/// `entry_position` set to `size`.
pub open spec fn spec_set_entry_size(disk: Seq<Seq<u8>>, entry_position: int, size: u32) -> Seq<
    Seq<u8>,
> {
    let sector = entry_position / 512;
    let off = entry_position % 512;
    disk.update(sector, spec_splice(disk[sector], off + 28, spec_u32_to_le_bytes(size)))
}

/// The position a seek moves to from `position` in a file of `size` bytes,
/// when it is a `u64`; seeking past the end is checked separately.
pub open spec fn spec_seek_target(pos: SeekFrom, size: u64, position: u64) -> Option<u64> {
    match pos {
        SeekFrom::Start(o) => Some(o),
        SeekFrom::End(o) => {
            let t = size + o;
            if 0 <= t <= u64::MAX {
                Some(t as u64)
            } else {
                None
            }
        },
        SeekFrom::Current(o) => {
            let t = position + o;
            if 0 <= t <= u64::MAX {
                Some(t as u64)
            } else {
                None
            }
        },
    }
}

/// The magnitude of `o`.
fn unsigned_abs(o: i64) -> (r: u64)
    ensures
        r == if o < 0 { -o } else { o as int },
{
    if o == i64::MIN {
        0x8000_0000_0000_0000u64
    } else if o < 0 {
        (-o) as u64
    } else {
        o as u64
    }
}

/// `base` moved by `o`, or `None` when that leaves the range of `u64`.
fn offset_by(base: u64, o: i64) -> (r: Option<u64>)
    ensures
        r == (if 0 <= base + o <= u64::MAX { Some((base + o) as u64) } else { None::<u64> }),
{
    if o < 0 {
        base.checked_sub(unsigned_abs(o))
    } else {
        base.checked_add(o as u64)
    }
}

/// An open file on a FAT16 file system.
#[derive(Clone, Copy)]
pub struct Fat16File {
    /// Whether the file is open.
    pub valid: bool,
    /// Cluster being accessed.
    pub current_cluster: u16,
    /// Position in the file.
    pub position: u64,
    /// File size in bytes.
    pub size: u64,
    /// Size of each cluster in bytes.
    pub cluster_size: usize,
    /// First sector of the FAT.
    pub fat_start: u64,
    /// First sector of the data area.
    pub data_start: u64,
    /// Byte position on disk of the file's directory entry.
    pub entry_position: u64,
    /// Number of data clusters of the volume: allocation looks through the
    /// clusters from 2 up to, not including, this one.
    pub cluster_limit: u16,
}

impl Fat16File {
    /// Sectors per cluster.
    pub open spec fn spc(&self) -> nat {
        self.cluster_size as nat / 512
    }

    /// The geometry of an open file fits the volume's limits: clusters are
    /// whole sectors (at most 255 of them), and every sector of the FAT and
    /// of the data area has a number that fits in a `u64`.
    pub open spec fn geometry_ok(&self) -> bool {
        &&& self.cluster_size % 512 == 0
        &&& 512 <= self.cluster_size <= 255 * 512
        &&& self.fat_start + 256 <= u64::MAX
        &&& self.data_start + 0xFFFF * 255 <= u64::MAX
    }

    /// Reads the FAT entry for `cluster`.
    pub fn read_fat_entry<D: BlockDevice>(&self, device: &mut D, cluster: u16) -> (r: Result<
        FatEntry,
        FsError,
    >)
        requires
            self.fat_start + 256 <= u64::MAX,
        ensures
            final(device).reliable() == old(device).reliable(),
            *final(device) == *old(device),
            r is Ok ==> fat_sector_readable(old(device).blocks(), self.fat_start as int, cluster)
                && r->Ok_0.cluster == spec_fat_entry(old(device).blocks(), self.fat_start as int, cluster),
            old(device).reliable() && old(device).spec_block_size() == 512 && fat_sector_readable(
                old(device).blocks(),
                self.fat_start as int,
                cluster,
            ) ==> r is Ok,
    {
        read_fat_entry_at(&*device, self.fat_start, cluster)
    }

    /// Writes the FAT entry for `cluster`.
    pub fn write_fat_entry<D: BlockDevice>(
        &self,
        device: &mut D,
        cluster: u16,
        entry: FatEntry,
    ) -> (r: Result<(), FsError>)
        requires
            self.fat_start + 256 <= u64::MAX,
        ensures
            final(device).reliable() == old(device).reliable(),
            r is Ok ==> fat_sector_readable(old(device).blocks(), self.fat_start as int, cluster)
                && final(device).blocks() == spec_set_fat_entry(old(device).blocks(), self.fat_start as int, cluster, entry.cluster),
            r is Err ==> final(device).blocks() == old(device).blocks(),
            final(device).spec_block_size() == old(device).spec_block_size(),
            old(device).reliable() && old(device).spec_block_size() == 512 && fat_sector_readable(
                old(device).blocks(),
                self.fat_start as int,
                cluster,
            ) ==> r is Ok,
    {
        write_fat_entry_at(device, self.fat_start, cluster, entry)?;
        Ok(())
    }

    /// The clusters `allocate_cluster` looks through end before this one:
    /// the number of data clusters of the volume.
    pub open spec fn alloc_bound(&self) -> u16 {
        self.cluster_limit
    }

    /// Finds the first free cluster from 2 on, marks it as the end of a chain
    /// and returns it; `NoSpace` when none is free.
    pub fn allocate_cluster<D: BlockDevice>(&self, device: &mut D) -> (r: Result<u16, FsError>)
        requires
            self.fat_start + 256 <= u64::MAX,
        ensures
            final(device).reliable() == old(device).reliable(),
            final(device).spec_block_size() == old(device).spec_block_size(),
            r matches Ok(c) ==> {
                &&& 2 <= c < self.alloc_bound()
                &&& spec_fat_entry(old(device).blocks(), self.fat_start as int, c) == 0
                &&& all_in_use(old(device).blocks(), self.fat_start as int, 2, c as int)
                &&& final(device).blocks() == spec_set_fat_entry(
                    old(device).blocks(),
                    self.fat_start as int,
                    c,
                    0xFFFF,
                )
            },
            r is Err ==> final(device).blocks() == old(device).blocks(),
            all_in_use(old(device).blocks(), self.fat_start as int, 2, self.alloc_bound() as int)
                ==> r is Err,
            old(device).reliable() && old(device).spec_block_size() == 512 && fat_readable(
                old(device).blocks(),
                self.fat_start as int,
                2,
                self.alloc_bound() as int,
            ) ==> (r is Ok <==> !all_in_use(old(device).blocks(), self.fat_start as int, 2, self.alloc_bound() as int))
                && (r is Err ==> r == Err::<u16, FsError>(FsError::NoSpace)),
    {
        match find_free_cluster(&*device, self.fat_start, self.cluster_limit) {
            Ok(Some(cluster)) => {
                match self.write_fat_entry(device, cluster, FatEntry { cluster: 0xFFFF }) {
                    Ok(()) => Ok(cluster),
                    Err(e) => Err(e),
                }
            },
            Ok(None) => Err(FsError::NoSpace),
            Err(e) => Err(e),
        }
    }

    /// First sector of cluster `c`.
    pub open spec fn spec_cluster_sector(&self, c: u16) -> int {
        self.data_start + (c - 2) * self.spc()
    }

    /// Cluster 2 is the first of the data area, and each cluster follows
    /// the one before it, a cluster's sectors apart.
    pub proof fn lemma_cluster_sectors(&self, c: u16)
        requires
            2 <= c < 0xFFFF,
        ensures
            self.spec_cluster_sector(2) == self.data_start,
            self.spec_cluster_sector((c + 1) as u16) == self.spec_cluster_sector(c) + self.spc(),
            self.spec_cluster_sector(c) >= self.data_start,
    {
        assert(0 * self.spc() == 0);
        assert(self.spec_cluster_sector(2) == self.data_start + 0 * self.spc());
        assert((c + 1 - 2) * self.spc() == (c - 2) * self.spc() + self.spc()) by (nonlinear_arith);
        assert((c - 2) * self.spc() >= 0) by (nonlinear_arith)
            requires
                c >= 2,
        ;
    }

    /// Whether `other` is the same open file, its position and current
    /// cluster aside.
    pub open spec fn same_file(&self, other: Fat16File) -> bool {
        &&& self.valid == other.valid
        &&& self.cluster_size == other.cluster_size
        &&& self.fat_start == other.fat_start
        &&& self.data_start == other.data_start
        &&& self.entry_position == other.entry_position
    }

    /// How many bytes a read into a buffer of `len` bytes asks for.
    pub open spec fn spec_want(&self, len: nat) -> nat {
        if self.position >= self.size {
            0
        } else if len < self.size - self.position {
            len
        } else {
            (self.size - self.position) as nat
        }
    }

    /// Whether `len` bytes from the position stay strictly inside the
    /// current cluster, which is a data cluster.
    pub open spec fn within_cluster(&self, len: nat) -> bool {
        &&& self.current_cluster >= 2
        &&& (self.position % (self.cluster_size as u64)) + len < self.cluster_size
    }

    /// Writes `new_size` into the size field of the file's directory entry.
    pub fn update_directory_entry<D: BlockDevice>(&self, device: &mut D, new_size: u64) -> (r: Result<
        (),
        FsError,
    >)
        requires
            self.entry_position % 512 + 32 <= 512,
        ensures
            final(device).reliable() == old(device).reliable(),
            final(device).spec_block_size() == old(device).spec_block_size(),
            r is Ok ==> self.entry_position / 512 < old(device).blocks().len()
                && old(device).blocks()[(self.entry_position / 512) as int].len() == 512
                && final(device).blocks() == spec_set_entry_size(
                old(device).blocks(),
                self.entry_position as int,
                new_size as u32,
            ),
            r is Err ==> final(device).blocks() == old(device).blocks(),
            old(device).reliable() && old(device).spec_block_size() == 512 && self.entry_position / 512 < old(
                device,
            ).blocks().len() && old(device).blocks()[(self.entry_position / 512) as int].len() == 512 ==> r is Ok,
    {
        let sector = self.entry_position / SECTOR_SIZE as u64;
        let offset = (self.entry_position % SECTOR_SIZE as u64) as usize;
        let mut sector_buffer = read_sector(&*device, sector)?;
        #[verifier::truncate]
        let size32 = new_size as u32;
        let bytes = u32_to_le_bytes(size32);
        proof {
            vstd::bytes::lemma_auto_spec_u32_to_from_le_bytes();
            assert(spec_u32_to_le_bytes(size32).len() == 4);
        }
        copy_into_vec(&mut sector_buffer, offset + 28, bytes.as_slice(), 0, 4);
        proof {
            assert(bytes@.subrange(0, 4) =~= spec_u32_to_le_bytes(size32));
        }
        device.write_block(sector, sector_buffer.as_slice())?;
        Ok(())
    }

    /// Moves the position as `pos` says and returns it; `InvalidOffset` when
    /// the target is negative, beyond `u64` or past the end of the file.
    pub fn seek(&mut self, pos: SeekFrom) -> (r: Result<u64, FsError>)
        ensures
            match spec_seek_target(pos, old(self).size, old(self).position) {
                Some(t) if t <= old(self).size => r == Ok::<u64, FsError>(t) && *final(self) == Fat16File {
                    position: t,
                    ..*old(self)
                },
                _ => r == Err::<u64, FsError>(FsError::InvalidOffset) && *final(self) == *old(self),
            },
    {
        let target = match pos {
            SeekFrom::Start(offset) => Some(offset),
            SeekFrom::End(offset) => offset_by(self.size, offset),
            SeekFrom::Current(offset) => offset_by(self.position, offset),
        };
        let new_pos = match target {
            Some(t) => t,
            None => {
                return Err(FsError::InvalidOffset);
            },
        };
        if new_pos > self.size {
            return Err(FsError::InvalidOffset);
        }
        self.position = new_pos;
        Ok(new_pos)
    }

    /// Nothing is buffered, so there is nothing to flush.
    pub fn flush(&mut self) -> (r: Result<(), FsError>)
        ensures
            r is Ok,
            *final(self) == *old(self),
    {
        Ok(())
    }

    /// The file's size in bytes.
    pub fn size(&self) -> (r: u64)
        ensures
            r == self.size,
    {
        self.size
    }

    /// Reads from the position into `buf`, cluster by cluster along the FAT
    /// chain, up to the end of the file, the end of `buf` or the end of the
    /// chain; returns how many bytes were read.
    pub fn read_with_device<D: BlockDevice>(&mut self, device: &mut D, buf: &mut [u8]) -> (r: Result<
        usize,
        FsError,
    >)
        requires
            old(self).geometry_ok(),
        ensures
            old(device).reliable() && old(device).spec_block_size() == 512 && old(self).position < old(self).size
                && old(self).spec_chain_read_ok(
                old(device).blocks(),
                old(self).current_cluster,
                (old(self).position % (old(self).cluster_size as u64)) as int,
                old(self).spec_want(old(buf)@.len()),
            ) ==> r is Ok,
            final(device).reliable() == old(device).reliable(),
            *final(device) == *old(device),
            final(buf)@.len() == old(buf)@.len(),
            final(self).same_file(*old(self)),
            final(self).size == old(self).size,
            final(self).geometry_ok(),
            old(self).position >= old(self).size ==> r == Ok::<usize, FsError>(0) && *final(self)
                == *old(self) && final(buf)@ == old(buf)@,
            r matches Ok(n) ==> {
                &&& n <= old(self).spec_want(old(buf)@.len())
                &&& final(self).position == old(self).position + n
                &&& final(buf)@.skip(n as int) == old(buf)@.skip(n as int)
            },
            old(self).position < old(self).size && old(self).within_cluster(
                old(self).spec_want(old(buf)@.len()),
            ) ==> (r matches Ok(n) ==> {
                let off = old(self).position % (old(self).cluster_size as u64);
                &&& n == old(self).spec_want(old(buf)@.len())
                &&& final(buf)@.take(n as int) == spec_cluster_bytes(
                    old(device).blocks(),
                    old(self).spec_cluster_sector(old(self).current_cluster),
                    old(self).spc(),
                ).subrange(off as int, off + n)
            }),
            old(self).position < old(self).size ==> (r matches Ok(n) ==> final(buf)@.take(n as int)
                == old(self).spec_chain_read(
                old(device).blocks(),
                old(self).current_cluster,
                (old(self).position % (old(self).cluster_size as u64)) as int,
                old(self).spec_want(old(buf)@.len()),
            )),
    {
        if self.position >= self.size {
            return Ok(0);
        }
        let ghost old_self = *self;
        let ghost old_buf = buf@;
        let ghost disk = device.blocks();
        let remaining = self.size - self.position;
        let to_read: usize = if (buf.len() as u64) < remaining {
            buf.len()
        } else {
            remaining as usize
        };
        let mut bytes_read: usize = 0;
        let blen = buf.len();
        let ghost one = old_self.within_cluster(to_read as nat);
        let mut chain_ended = false;
        while bytes_read < to_read && !chain_ended
            invariant
                self.geometry_ok(),
                old_self == *old(self),
                old_buf == old(buf)@,
                self.same_file(old_self),
                self.size == old_self.size,
                old_self.position < old_self.size,
                to_read == old_self.spec_want(old_buf.len()),
                blen == buf@.len(),
                buf@.len() == old_buf.len(),
                bytes_read <= to_read,
                to_read <= buf@.len(),
                old_self.position + to_read <= old_self.size,
                self.position == old_self.position + bytes_read,
                forall|k: int| bytes_read <= k < buf@.len() ==> buf@[k] == old_buf[k],
                *device == *old(device),
                disk == device.blocks(),
                one == old_self.within_cluster(to_read as nat),
                bytes_read == 0 ==> self.current_cluster == old_self.current_cluster && !chain_ended,
                one && bytes_read > 0 ==> bytes_read == to_read && buf@.take(bytes_read as int)
                    == spec_cluster_bytes(
                    disk,
                    old_self.spec_cluster_sector(old_self.current_cluster),
                    old_self.spc(),
                ).subrange(
                    (old_self.position % (old_self.cluster_size as u64)) as int,
                    (old_self.position % (old_self.cluster_size as u64)) + bytes_read,
                ),
                device.reliable() && device.spec_block_size() == 512 && old_self.spec_chain_read_ok(
                    disk,
                    old_self.current_cluster,
                    (old_self.position % (old_self.cluster_size as u64)) as int,
                    to_read as nat,
                ) ==> chain_ended || old_self.spec_chain_read_ok(
                    disk,
                    self.current_cluster,
                    (self.position % (self.cluster_size as u64)) as int,
                    (to_read - bytes_read) as nat,
                ),
                buf@.take(bytes_read as int) + (if chain_ended {
                    Seq::<u8>::empty()
                } else {
                    old_self.spec_chain_read(
                        disk,
                        self.current_cluster,
                        (self.position % (self.cluster_size as u64)) as int,
                        (to_read - bytes_read) as nat,
                    )
                }) == old_self.spec_chain_read(
                    disk,
                    old_self.current_cluster,
                    (old_self.position % (old_self.cluster_size as u64)) as int,
                    to_read as nat,
                ),
            decreases to_read - bytes_read,
        {
            let ghost cur0 = self.current_cluster;
            let ghost pos0 = self.position;
            let ghost br0 = bytes_read;
            let ghost prefix0 = buf@.take(bytes_read as int);
            let cs = self.cluster_size;
            let cluster_offset = (self.position % cs as u64) as usize;
            let left = cs - cluster_offset;
            let chunk = if left < to_read - bytes_read {
                left
            } else {
                to_read - bytes_read
            };
            if self.current_cluster < 2 {
                return Err(FsError::IOError);
            }
            let sector = self.cluster_to_sector(self.current_cluster);
            let spc = cs / SECTOR_SIZE;
            proof {
                assert(spc * 512 == cs) by (nonlinear_arith)
                    requires
                        cs % 512 == 0,
                        spc == cs / 512,
                ;
                assert(sector + spc <= u64::MAX) by (nonlinear_arith)
                    requires
                        sector == self.data_start + (self.current_cluster - 2) * (cs / 512),
                        self.data_start + 0xFFFF * 255 <= u64::MAX,
                        self.current_cluster <= 65535,
                        cs / 512 <= 255,
                        spc == cs / 512,
                ;
            }
            let data = read_cluster(&*device, sector, spc)?;
            let ghost before = buf@;
            copy_bytes(buf, bytes_read, data.as_slice(), cluster_offset, chunk);
            proof {
                if one && bytes_read == 0 {
                    assert(chunk == to_read);
                    assert(buf@.take(chunk as int) =~= data@.subrange(
                        cluster_offset as int,
                        cluster_offset + chunk,
                    ));
                }
                assert forall|k: int| bytes_read + chunk <= k < buf@.len() implies buf@[k]
                    == old_buf[k] by {
                    assert(buf@[k] == before[k]);
                }
            }
            bytes_read = bytes_read + chunk;
            self.position = self.position + chunk as u64;
            proof {
                assert(buf@.take(bytes_read as int) =~= prefix0 + data@.subrange(
                    cluster_offset as int,
                    cluster_offset + chunk,
                ));
                assert(0 < chunk);
                let ghost_pos = pos0 as int;
                let ghost_cs = cs as int;
                let ghost_off = cluster_offset as int;
                let ghost_chunk = chunk as int;
                assert((ghost_pos + ghost_chunk) % ghost_cs == (if ghost_off + ghost_chunk == ghost_cs {
                    0int
                } else {
                    ghost_off + ghost_chunk
                })) by (nonlinear_arith)
                    requires
                        ghost_off == ghost_pos % ghost_cs,
                        ghost_off + ghost_chunk <= ghost_cs,
                        ghost_cs > 0,
                        0 < ghost_chunk,
                        ghost_pos >= 0,
                ;
            }
            if cluster_offset + chunk == cs {
                let next_cluster = self.read_fat_entry(device, self.current_cluster)?;
                if next_cluster.is_end_of_chain() {
                    chain_ended = true;
                } else {
                    self.current_cluster = next_cluster.cluster;
                }
            }
            proof {
                let off0 = cluster_offset as int;
                let want0 = (to_read - br0) as nat;
                let bytes = data@.subrange(off0, off0 + chunk);
                let total = old_self.spec_chain_read(
                    disk,
                    old_self.current_cluster,
                    (old_self.position % (old_self.cluster_size as u64)) as int,
                    to_read as nat,
                );
                assert(old_self.spec_chain_read(disk, cur0, off0, want0) == (if off0 + chunk < cs {
                    bytes
                } else if spec_fat_entry(disk, self.fat_start as int, cur0) >= 0xFFF8 {
                    bytes
                } else {
                    bytes + old_self.spec_chain_read(
                        disk,
                        spec_fat_entry(disk, self.fat_start as int, cur0),
                        0,
                        (want0 - chunk) as nat,
                    )
                }));
                if off0 + chunk < cs {
                    assert(bytes_read == to_read);
                    assert(buf@.take(bytes_read as int) + Seq::<u8>::empty() =~= prefix0 + bytes);
                } else if chain_ended {
                    assert(buf@.take(bytes_read as int) + Seq::<u8>::empty() =~= prefix0 + bytes);
                } else {
                    assert(buf@.take(bytes_read as int) + old_self.spec_chain_read(
                        disk,
                        self.current_cluster,
                        0,
                        (to_read - bytes_read) as nat,
                    ) =~= prefix0 + old_self.spec_chain_read(disk, cur0, off0, want0));
                }
            }
        }
        proof {
            assert(buf@.skip(bytes_read as int) =~= old_buf.skip(bytes_read as int));
            if bytes_read == 0 {
                let off = (old_self.position % (old_self.cluster_size as u64)) as int;
                let cb = spec_cluster_bytes(
                    disk,
                    old_self.spec_cluster_sector(old_self.current_cluster),
                    old_self.spc(),
                );
                assert(buf@.take(0) =~= cb.subrange(off, off));
            }

        }
        Ok(bytes_read)
    }

    /// The cluster `allocate_cluster` takes on `disk`: the first one from 2
    /// on whose FAT entry is free.
    pub open spec fn spec_first_free(&self, disk: Seq<Seq<u8>>) -> u16 {
        choose|c: u16|
            2 <= c < self.alloc_bound() && spec_fat_entry(disk, self.fat_start as int, c) == 0 && all_in_use(
                disk,
                self.fat_start as int,
                2,
                c as int,
            )
    }

    /// A free cluster with every cluster before it, from 2 on, in use is the
    /// one `spec_first_free` names.
    pub proof fn lemma_first_free(&self, disk: Seq<Seq<u8>>, c: u16)
        requires
            2 <= c < self.alloc_bound(),
            spec_fat_entry(disk, self.fat_start as int, c) == 0,
            all_in_use(disk, self.fat_start as int, 2, c as int),
        ensures
            self.spec_first_free(disk) == c,
    {
        let d = self.spec_first_free(disk);
        assert(2 <= d < self.alloc_bound() && spec_fat_entry(disk, self.fat_start as int, d) == 0 && all_in_use(
            disk,
            self.fat_start as int,
            2,
            d as int,
        ));
        if d < c {
            assert(cluster_in_use(disk, self.fat_start as int, d as int));
            assert((d as int) as u16 == d);
        } else if c < d {
            assert(cluster_in_use(disk, self.fat_start as int, c as int));
            assert((c as int) as u16 == c);
        }
    }

    /// `disk` after writing `data` from byte `off` of cluster `c` on, as a
    /// write does: what fits in each cluster goes there; when a cluster is
    /// filled, the write goes on in the next cluster of the chain, and when
    /// the chain ends there, in the first free cluster, which is marked as
    /// the chain's end and linked from the filled one.
    pub open spec fn spec_chain_write(&self, disk: Seq<Seq<u8>>, c: u16, off: int, data: Seq<u8>) -> Seq<
        Seq<u8>,
    >
        decreases data.len(),
    {
        let cs = self.cluster_size as int;
        if data.len() == 0 || !(0 <= off < cs) {
            disk
        } else {
            let chunk = if cs - off < data.len() { cs - off } else { data.len() as int };
            let sector = self.spec_cluster_sector(c);
            let d1 = spec_write_cluster(
                disk,
                sector,
                spec_splice(spec_cluster_bytes(disk, sector, self.spc()), off, data.take(chunk)),
                self.spc(),
            );
            if off + chunk < cs {
                d1
            } else {
                let next = spec_fat_entry(d1, self.fat_start as int, c);
                if next >= 0xFFF8 {
                    let c2 = self.spec_first_free(d1);
                    let d3 = spec_set_fat_entry(
                        spec_set_fat_entry(d1, self.fat_start as int, c2, 0xFFFF),
                        self.fat_start as int,
                        c,
                        c2,
                    );
                    self.spec_chain_write(d3, c2, 0, data.skip(chunk))
                } else {
                    self.spec_chain_write(d1, next, 0, data.skip(chunk))
                }
            }
        }
    }

    /// Whether a read of `want` bytes from byte `off` of cluster `c` along
    /// the FAT chain finds every cluster it reads, and every FAT entry it
    /// follows, in whole sectors of `disk`.
    pub open spec fn spec_chain_read_ok(&self, disk: Seq<Seq<u8>>, c: u16, off: int, want: nat) -> bool
        decreases want,
    {
        let cs = self.cluster_size as int;
        if want == 0 || !(0 <= off < cs) {
            true
        } else {
            let chunk = if cs - off < want { cs - off } else { want as int };
            &&& c >= 2
            &&& cluster_readable(disk, self.spec_cluster_sector(c), self.spc())
            &&& off + chunk == cs ==> {
                &&& fat_sector_readable(disk, self.fat_start as int, c)
                &&& spec_fat_entry(disk, self.fat_start as int, c) < 0xFFF8 ==> self.spec_chain_read_ok(
                    disk,
                    spec_fat_entry(disk, self.fat_start as int, c),
                    0,
                    (want - chunk) as nat,
                )
            }
        }
    }

    /// Whether a write of `data` from byte `off` of cluster `c` along the FAT
    /// chain, as `spec_chain_write` describes it, finds every cluster it
    /// writes and every FAT entry it reads or writes in whole sectors of the
    /// disk, and a free cluster whenever the chain ends at a filled cluster.
    pub open spec fn spec_chain_write_ok(&self, disk: Seq<Seq<u8>>, c: u16, off: int, data: Seq<u8>) -> bool
        decreases data.len(),
    {
        let cs = self.cluster_size as int;
        if data.len() == 0 || !(0 <= off < cs) {
            true
        } else {
            let chunk = if cs - off < data.len() { cs - off } else { data.len() as int };
            let sector = self.spec_cluster_sector(c);
            let d1 = spec_write_cluster(
                disk,
                sector,
                spec_splice(spec_cluster_bytes(disk, sector, self.spc()), off, data.take(chunk)),
                self.spc(),
            );
            let fs = self.fat_start as int;
            &&& c >= 2
            &&& cluster_readable(disk, sector, self.spc())
            &&& off + chunk == cs ==> {
                &&& fat_sector_readable(d1, fs, c)
                &&& spec_fat_entry(d1, fs, c) >= 0xFFF8 ==> {
                    let c2 = self.spec_first_free(d1);
                    let d2 = spec_set_fat_entry(d1, fs, c2, 0xFFFF);
                    &&& fat_readable(d1, fs, 2, self.alloc_bound() as int)
                    &&& !all_in_use(d1, fs, 2, self.alloc_bound() as int)
                    &&& fat_sector_readable(d2, fs, c)
                    &&& self.spec_chain_write_ok(spec_set_fat_entry(d2, fs, c, c2), c2, 0, data.skip(chunk))
                }
                &&& spec_fat_entry(d1, fs, c) < 0xFFF8 ==> self.spec_chain_write_ok(
                    d1,
                    spec_fat_entry(d1, fs, c),
                    0,
                    data.skip(chunk),
                )
            }
        }
    }

    /// The bytes a read of `want` bytes gives, starting at byte `off` of
    /// cluster `c` of `disk` and following the FAT chain: what remains of
    /// each cluster in turn, until `want` bytes are read or the chain ends.
    pub open spec fn spec_chain_read(&self, disk: Seq<Seq<u8>>, c: u16, off: int, want: nat) -> Seq<u8>
        decreases want,
    {
        let cs = self.cluster_size as int;
        if want == 0 || !(0 <= off < cs) {
            Seq::empty()
        } else {
            let chunk = if cs - off < want { cs - off } else { want as int };
            let bytes = spec_cluster_bytes(disk, self.spec_cluster_sector(c), self.spc()).subrange(off, off + chunk);
            if off + chunk < cs {
                bytes
            } else {
                let next = spec_fat_entry(disk, self.fat_start as int, c);
                if next >= 0xFFF8 {
                    bytes
                } else {
                    bytes + self.spec_chain_read(disk, next, 0, (want - chunk) as nat)
                }
            }
        }
    }

    /// The file's size after writing `len` bytes at the position.
    pub open spec fn size_after_write(&self, len: nat) -> u64 {
        if len == 0 || self.size >= self.position + len {
            self.size
        } else {
            (self.position + len) as u64
        }
    }

    /// The disk after writing `data` at the position inside the current
    /// cluster, before the directory entry is updated.
    pub open spec fn spec_write_in_cluster(&self, disk: Seq<Seq<u8>>, data: Seq<u8>) -> Seq<Seq<u8>> {
        let sector = self.spec_cluster_sector(self.current_cluster);
        let off = (self.position % (self.cluster_size as u64)) as int;
        spec_write_cluster(
            disk,
            sector,
            spec_splice(spec_cluster_bytes(disk, sector, self.spc()), off, data),
            self.spc(),
        )
    }

    /// Writes `buf` at the position, cluster by cluster, following the FAT
    /// chain and appending a newly allocated cluster whenever it ends; then
    /// records the file's new size in its directory entry. Returns how many
    /// bytes were written.
    pub fn write_with_device<D: BlockDevice>(&mut self, device: &mut D, buf: &[u8]) -> (r: Result<
        usize,
        FsError,
    >)
        requires
            old(self).geometry_ok(),
            old(self).position + buf@.len() <= u64::MAX,
            old(self).entry_position % 512 + 32 <= 512,
        ensures
            old(device).reliable() && old(device).spec_block_size() == 512 && old(self).spec_chain_write_ok(
                old(device).blocks(),
                old(self).current_cluster,
                (old(self).position % (old(self).cluster_size as u64)) as int,
                buf@,
            ) && old(self).entry_position / 512 < old(self).spec_chain_write(
                old(device).blocks(),
                old(self).current_cluster,
                (old(self).position % (old(self).cluster_size as u64)) as int,
                buf@,
            ).len() && old(self).spec_chain_write(
                old(device).blocks(),
                old(self).current_cluster,
                (old(self).position % (old(self).cluster_size as u64)) as int,
                buf@,
            )[(old(self).entry_position / 512) as int].len() == 512 ==> r is Ok,
            old(device).reliable() && old(device).spec_block_size() == 512 && buf@.len() > 0 && old(
                self,
            ).within_cluster(buf@.len()) && cluster_readable(
                old(device).blocks(),
                old(self).spec_cluster_sector(old(self).current_cluster),
                old(self).spc(),
            ) && old(self).entry_position / 512 < old(device).blocks().len() && old(device).blocks()[(old(
                self,
            ).entry_position / 512) as int].len() == 512 ==> r is Ok,
            final(device).reliable() == old(device).reliable(),
            final(device).spec_block_size() == old(device).spec_block_size(),
            final(self).same_file(*old(self)),
            final(self).geometry_ok(),
            r matches Ok(n) ==> {
                &&& n == buf@.len()
                &&& final(self).position == old(self).position + n
                &&& final(self).size == old(self).size_after_write(n as nat)
            },
            buf@.len() == 0 ==> (r is Ok ==> final(device).blocks() == spec_set_entry_size(
                old(device).blocks(),
                old(self).entry_position as int,
                old(self).size as u32,
            )),
            buf@.len() > 0 && old(self).within_cluster(buf@.len()) ==> (r is Ok
                ==> final(device).blocks() == spec_set_entry_size(
                old(self).spec_write_in_cluster(old(device).blocks(), buf@),
                old(self).entry_position as int,
                old(self).size_after_write(buf@.len()) as u32,
            )),
            buf@.len() > 0 ==> (r is Ok ==> final(device).blocks() == spec_set_entry_size(
                old(self).spec_chain_write(
                    old(device).blocks(),
                    old(self).current_cluster,
                    (old(self).position % (old(self).cluster_size as u64)) as int,
                    buf@,
                ),
                old(self).entry_position as int,
                old(self).size_after_write(buf@.len()) as u32,
            )),
    {
        let ghost old_self = *self;
        let ghost disk = device.blocks();
        let len = buf.len();
        let mut bytes_written: usize = 0;
        let ghost one = old_self.within_cluster(len as nat);
        proof {
            assert(buf@.skip(0) =~= buf@);
        }
        while bytes_written < len
            invariant
                self.geometry_ok(),
                old_self == *old(self),
                disk == old(device).blocks(),
                self.same_file(old_self),
                len == buf@.len(),
                old_self.position + len <= u64::MAX,
                bytes_written <= len,
                self.position == old_self.position + bytes_written,
                self.size == old_self.size_after_write(bytes_written as nat),
                device.spec_block_size() == old(device).spec_block_size(),
                device.reliable() == old(device).reliable(),
                bytes_written == 0 ==> self.current_cluster == old_self.current_cluster
                    && device.blocks() == disk,
                one == old_self.within_cluster(len as nat),
                one && bytes_written > 0 ==> bytes_written == len && device.blocks()
                    == old_self.spec_write_in_cluster(disk, buf@),
                self.cluster_limit == old_self.cluster_limit,
                device.reliable() && device.spec_block_size() == 512 && old_self.spec_chain_write_ok(
                    disk,
                    old_self.current_cluster,
                    (old_self.position % (old_self.cluster_size as u64)) as int,
                    buf@,
                ) ==> old_self.spec_chain_write_ok(
                    device.blocks(),
                    self.current_cluster,
                    (self.position % (self.cluster_size as u64)) as int,
                    buf@.skip(bytes_written as int),
                ),
                old_self.spec_chain_write(
                    device.blocks(),
                    self.current_cluster,
                    (self.position % (self.cluster_size as u64)) as int,
                    buf@.skip(bytes_written as int),
                ) == old_self.spec_chain_write(
                    disk,
                    old_self.current_cluster,
                    (old_self.position % (old_self.cluster_size as u64)) as int,
                    buf@,
                ),
            decreases len - bytes_written,
        {
            let ghost cur0 = self.current_cluster;
            let ghost pos0 = self.position;
            let ghost bw0 = bytes_written;
            let ghost d0 = device.blocks();
            let cs = self.cluster_size;
            let cluster_offset = (self.position % cs as u64) as usize;
            let left = cs - cluster_offset;
            let chunk = if left < len - bytes_written {
                left
            } else {
                len - bytes_written
            };
            if self.current_cluster < 2 {
                return Err(FsError::IOError);
            }
            let sector = self.cluster_to_sector(self.current_cluster);
            let spc = cs / SECTOR_SIZE;
            proof {
                assert(spc * 512 == cs) by (nonlinear_arith)
                    requires
                        cs % 512 == 0,
                        spc == cs / 512,
                ;
                assert(sector + spc <= u64::MAX) by (nonlinear_arith)
                    requires
                        sector == self.data_start + (self.current_cluster - 2) * (cs / 512),
                        self.data_start + 0xFFFF * 255 <= u64::MAX,
                        self.current_cluster <= 65535,
                        cs / 512 <= 255,
                        spc == cs / 512,
                ;
            }
            let mut data = read_cluster(&*device, sector, spc)?;
            let ghost read = data@;
            copy_into_vec(&mut data, cluster_offset, buf, bytes_written, chunk);
            write_cluster(device, sector, data.as_slice(), spc)?;
            proof {
                if one && bytes_written == 0 {
                    assert(chunk == len);
                    assert(buf@.subrange(0, chunk as int) =~= buf@);
                }
            }
            let ghost d1 = device.blocks();
            proof {
                assert(buf@.skip(bw0 as int).take(chunk as int) =~= buf@.subrange(bw0 as int, bw0 + chunk));
                assert(buf@.skip(bw0 as int).skip(chunk as int) =~= buf@.skip(bw0 + chunk));
                let ghost_pos = pos0 as int;
                let ghost_cs = cs as int;
                let ghost_off = cluster_offset as int;
                let ghost_chunk = chunk as int;
                assert((ghost_pos + ghost_chunk) % ghost_cs == (if ghost_off + ghost_chunk == ghost_cs {
                    0int
                } else {
                    ghost_off + ghost_chunk
                })) by (nonlinear_arith)
                    requires
                        ghost_off == ghost_pos % ghost_cs,
                        ghost_off + ghost_chunk <= ghost_cs,
                        ghost_cs > 0,
                        0 < ghost_chunk,
                        ghost_pos >= 0,
                ;
            }
            bytes_written = bytes_written + chunk;
            self.position = self.position + chunk as u64;
            if self.position > self.size {
                self.size = self.position;
            }
            if cluster_offset + chunk == cs {
                let fat_entry = self.read_fat_entry(device, self.current_cluster)?;
                if fat_entry.is_end_of_chain() {
                    let new_cluster = self.allocate_cluster(device)?;
                    proof {
                        old_self.lemma_first_free(d1, new_cluster);
                    }
                    self.write_fat_entry(device, self.current_cluster, FatEntry { cluster: new_cluster })?;
                    self.current_cluster = new_cluster;
                } else {
                    self.current_cluster = fat_entry.cluster;
                }
            }
            proof {
                let rest = buf@.skip(bw0 as int);
                assert(old_self.spec_chain_write(d0, cur0, cluster_offset as int, rest) == (if cluster_offset
                    + chunk < cs {
                    d1
                } else {
                    let next = spec_fat_entry(d1, old_self.fat_start as int, cur0);
                    if next >= 0xFFF8 {
                        let c2 = old_self.spec_first_free(d1);
                        old_self.spec_chain_write(
                            spec_set_fat_entry(
                                spec_set_fat_entry(d1, old_self.fat_start as int, c2, 0xFFFF),
                                old_self.fat_start as int,
                                cur0,
                                c2,
                            ),
                            c2,
                            0,
                            rest.skip(chunk as int),
                        )
                    } else {
                        old_self.spec_chain_write(d1, next, 0, rest.skip(chunk as int))
                    }
                }));
                if cluster_offset + chunk < cs {
                    assert(bytes_written == len);
                    assert(buf@.skip(bytes_written as int) =~= Seq::<u8>::empty());
                }
            }
        }
        proof {
            assert(buf@.skip(bytes_written as int) =~= Seq::<u8>::empty());
        }
        proof {
            if device.reliable() && device.spec_block_size() == 512 && len > 0 && one && cluster_readable(
                disk,
                old_self.spec_cluster_sector(old_self.current_cluster),
                old_self.spc(),
            ) && old_self.entry_position / 512 < disk.len() && disk[(old_self.entry_position / 512) as int].len()
                == 512 {
                let sec = old_self.spec_cluster_sector(old_self.current_cluster);
                let e = (old_self.entry_position / 512) as int;
                let spc = old_self.spc();
                assert(spc * 512 == old_self.cluster_size) by (nonlinear_arith)
                    requires
                        old_self.cluster_size % 512 == 0,
                        spc == old_self.cluster_size as nat / 512,
                ;
                let nd = spec_splice(spec_cluster_bytes(disk, sec, spc), (old_self.position % (old_self.cluster_size as u64)) as int, buf@);
                assert(nd.len() == spc * 512);
                if sec <= e < sec + spc {
                    assert((e - sec) * 512 + 512 <= spc * 512) by (nonlinear_arith)
                        requires
                            e - sec < spc,
                    ;
                }
                assert(device.blocks()[e].len() == 512);
            }
        }
        self.update_directory_entry(device, self.size)?;
        Ok(bytes_written)
    }

    /// Converts a cluster number (2 or more) to its first sector.
    pub fn cluster_to_sector(&self, cluster: u16) -> (r: u64)
        requires
            self.geometry_ok(),
            cluster >= 2,
        ensures
            r == self.data_start + (cluster - 2) * self.spc(),
    {
        let spc = (self.cluster_size / SECTOR_SIZE) as u64;
        proof {
            assert((cluster - 2) * spc <= 65535 * 255) by (nonlinear_arith)
                requires
                    cluster <= 65535,
                    cluster >= 2,
                    spc <= 255,
            ;
        }
        self.data_start + ((cluster as u64 - 2) * spc)
    }
}

/// Reading a FAT entry after writing it gives the value written, and
/// every other entry keeps its value.
pub proof fn lemma_fat_read_after_write(disk: Seq<Seq<u8>>, fat_start: int, c: u16, v: u16, other: u16)
    requires
        fat_sector_readable(disk, fat_start, c),
        fat_sector_readable(disk, fat_start, other),
        other != c,
    ensures
        spec_fat_entry(spec_set_fat_entry(disk, fat_start, c, v), fat_start, c) == v,
        spec_fat_entry(spec_set_fat_entry(disk, fat_start, c, v), fat_start, other) == spec_fat_entry(
            disk,
            fat_start,
            other,
        ),
{
    lemma_fat_offset(c);
    lemma_fat_offset(other);
    let s = fat_start + spec_fat_sector(c);
    let o = spec_fat_offset(c);
    lemma_put_u16_len(disk[s], o, v);
    vstd::bytes::lemma_auto_spec_u16_to_from_le_bytes();
    let d2 = spec_set_fat_entry(disk, fat_start, c, v);
    assert(d2[s] == spec_put_u16(disk[s], o, v));
    assert(spec_u16_to_le_bytes(v).len() == 2);
    assert(spec_u16_from_le_bytes(spec_u16_to_le_bytes(v)) == v);
    let s2 = fat_start + spec_fat_sector(other);
    let o2 = spec_fat_offset(other);
    if s2 == s {
        assert(o2 != o) by {
            assert(other as int * 2 == spec_fat_sector(other) * 512 + o2);
            assert(c as int * 2 == spec_fat_sector(c) * 512 + o);
        }
        assert(o2 % 2 == 0 && o % 2 == 0) by {
            assert(other as int * 2 == spec_fat_sector(other) * 512 + o2);
            assert(c as int * 2 == spec_fat_sector(c) * 512 + o);
        }
        assert(d2[s2].subrange(o2, o2 + 2) =~= disk[s2].subrange(o2, o2 + 2));
    } else {
        assert(d2[s2] == disk[s2]);
    }
}

/// Seeking by nothing from the current position keeps it; seeking to the
/// start of the file gives 0; seeking to the end gives the size.
pub proof fn lemma_seek_targets(size: u64, position: u64)
    ensures
        spec_seek_target(SeekFrom::Current(0), size, position) == Some(position),
        spec_seek_target(SeekFrom::Start(0), size, position) == Some(0u64),
        spec_seek_target(SeekFrom::End(0), size, position) == Some(size),
{
}

/// Bytes written inside one cluster of a file are what a read at the same
/// position gives back, when the file's directory entry lies outside that
/// cluster.
pub proof fn lemma_write_then_read_in_cluster(f: Fat16File, disk: Seq<Seq<u8>>, data: Seq<u8>)
    requires
        f.geometry_ok(),
        f.within_cluster(data.len()),
        data.len() > 0,
        cluster_readable(disk, f.spec_cluster_sector(f.current_cluster), f.spc()),
        !(f.spec_cluster_sector(f.current_cluster) <= f.entry_position / 512 < f.spec_cluster_sector(
            f.current_cluster,
        ) + f.spc()),
        f.entry_position / 512 < disk.len(),
    ensures
        ({
            let after = spec_set_entry_size(
                f.spec_write_in_cluster(disk, data),
                f.entry_position as int,
                f.size_after_write(data.len()) as u32,
            );
            let off = (f.position % (f.cluster_size as u64)) as int;
            &&& spec_cluster_bytes(after, f.spec_cluster_sector(f.current_cluster), f.spc()).subrange(
                off,
                off + data.len(),
            ) == data
            &&& f.spec_chain_read(after, f.current_cluster, off, data.len()) == data
        }),
{
    let sector = f.spec_cluster_sector(f.current_cluster);
    let spc = f.spc();
    let off = (f.position % (f.cluster_size as u64)) as int;
    let old_bytes = spec_cluster_bytes(disk, sector, spc);
    let new_bytes = spec_splice(old_bytes, off, data);
    assert(spc * 512 == f.cluster_size) by (nonlinear_arith)
        requires
            f.cluster_size % 512 == 0,
            spc == f.cluster_size as nat / 512,
    ;
    let written = spec_write_cluster(disk, sector, new_bytes, spc);
    let after = spec_set_entry_size(written, f.entry_position as int, f.size_after_write(data.len()) as u32);
    assert(new_bytes.len() == spc * 512);
    assert forall|k: int| 0 <= k < spc * 512 implies #[trigger] spec_cluster_bytes(after, sector, spc)[k] == new_bytes[k] by {
        let q = k / 512;
        let r = k % 512;
        assert(0 <= q < spc && 0 <= r < 512 && k == q * 512 + r) by (nonlinear_arith)
            requires
                0 <= k < spc * 512,
                q == k / 512,
                r == k % 512,
        ;
        assert(after[sector + q] == written[sector + q]);
        assert(written[sector + q] == new_bytes.subrange(q * 512, q * 512 + 512));
    }
    assert(spec_cluster_bytes(after, sector, spc) =~= new_bytes);
    assert(new_bytes.subrange(off, off + data.len()) =~= data);
    assert(f.spec_chain_read(after, f.current_cluster, off, data.len()) == spec_cluster_bytes(after, sector, spc).subrange(off, off + data.len()));
}

} // verus!
