//! FAT16 boot sector.

use crate::filesys::fat16::raw::{lemma_le16_bytes, lemma_le32_bytes, push_all, read_array};
use vstd::array::array_as_slice;
use vstd::bytes::{
    spec_u16_from_le_bytes, spec_u16_to_le_bytes, spec_u32_from_le_bytes, spec_u32_to_le_bytes,
    u16_from_le_bytes, u16_to_le_bytes, u32_from_le_bytes, u32_to_le_bytes,
};
use vstd::prelude::*;
use vstd::slice::slice_subrange;

verus! {

/// The boot sector of a FAT16 volume (62 bytes on disk, packed).
#[derive(Clone, Copy)]
pub struct BootSector {
    /// Jump instruction to boot code.
    pub jump_boot: [u8; 3],
    /// Name of the system that formatted the volume.
    pub oem_name: [u8; 8],
    /// Number of bytes per sector.
    pub bytes_per_sector: u16,
    /// Number of sectors per cluster.
    pub sectors_per_cluster: u8,
    /// Number of reserved sectors at the start of the volume, the boot sector included.
    pub reserved_sectors: u16,
    /// Number of FAT copies.
    pub fat_count: u8,
    /// Maximum number of root directory entries.
    pub root_dir_entries: u16,
    /// Total number of sectors when below 65536, else 0.
    pub total_sectors_16: u16,
    /// Media type descriptor.
    pub media_type: u8,
    /// Sectors per FAT copy.
    pub sectors_per_fat: u16,
    /// Sectors per track for interrupt 0x13.
    pub sectors_per_track: u16,
    /// Number of heads for interrupt 0x13.
    pub head_count: u16,
    /// Number of hidden sectors preceding the partition.
    pub hidden_sectors: u32,
    /// Total number of sectors when 65536 or more, else 0.
    pub total_sectors_32: u32,
    /// INT 13h drive number.
    pub drive_number: u8,
    /// Reserved byte.
    pub reserved1: u8,
    /// Extended boot signature.
    pub boot_signature: u8,
    /// Volume serial number.
    pub volume_id: u32,
    /// Volume label.
    pub volume_label: [u8; 11],
    /// File system type string.
    pub fs_type: [u8; 8],
}

impl BootSector {
    /// The bytes of the boot sector on disk, fields in order, integers little-endian.
    pub open spec fn spec_bytes(self) -> Seq<u8> {
        self.jump_boot@
            + self.oem_name@
            + spec_u16_to_le_bytes(self.bytes_per_sector)
            + seq![self.sectors_per_cluster]
            + spec_u16_to_le_bytes(self.reserved_sectors)
            + seq![self.fat_count]
            + spec_u16_to_le_bytes(self.root_dir_entries)
            + spec_u16_to_le_bytes(self.total_sectors_16)
            + seq![self.media_type]
            + spec_u16_to_le_bytes(self.sectors_per_fat)
            + spec_u16_to_le_bytes(self.sectors_per_track)
            + spec_u16_to_le_bytes(self.head_count)
            + spec_u32_to_le_bytes(self.hidden_sectors)
            + spec_u32_to_le_bytes(self.total_sectors_32)
            + seq![self.drive_number]
            + seq![self.reserved1]
            + seq![self.boot_signature]
            + spec_u32_to_le_bytes(self.volume_id)
            + self.volume_label@
            + self.fs_type@
    }

    /// The boot sector decoded from the first 62 bytes of `buf`.
    pub fn read_from(buf: &[u8]) -> (r: Self)
        requires
            62 <= buf@.len(),
        ensures
            r.spec_bytes() == buf@.subrange(0, 62),
    {
        let jump_boot: [u8; 3] = read_array(buf, 0);
        let oem_name: [u8; 8] = read_array(buf, 3);
        let bytes_per_sector = u16_from_le_bytes(slice_subrange(buf, 11, 13));
        let sectors_per_cluster = buf[13];
        let reserved_sectors = u16_from_le_bytes(slice_subrange(buf, 14, 16));
        let fat_count = buf[16];
        let root_dir_entries = u16_from_le_bytes(slice_subrange(buf, 17, 19));
        let total_sectors_16 = u16_from_le_bytes(slice_subrange(buf, 19, 21));
        let media_type = buf[21];
        let sectors_per_fat = u16_from_le_bytes(slice_subrange(buf, 22, 24));
        let sectors_per_track = u16_from_le_bytes(slice_subrange(buf, 24, 26));
        let head_count = u16_from_le_bytes(slice_subrange(buf, 26, 28));
        let hidden_sectors = u32_from_le_bytes(slice_subrange(buf, 28, 32));
        let total_sectors_32 = u32_from_le_bytes(slice_subrange(buf, 32, 36));
        let drive_number = buf[36];
        let reserved1 = buf[37];
        let boot_signature = buf[38];
        let volume_id = u32_from_le_bytes(slice_subrange(buf, 39, 43));
        let volume_label: [u8; 11] = read_array(buf, 43);
        let fs_type: [u8; 8] = read_array(buf, 54);
        let r = BootSector {
            jump_boot,
            oem_name,
            bytes_per_sector,
            sectors_per_cluster,
            reserved_sectors,
            fat_count,
            root_dir_entries,
            total_sectors_16,
            media_type,
            sectors_per_fat,
            sectors_per_track,
            head_count,
            hidden_sectors,
            total_sectors_32,
            drive_number,
            reserved1,
            boot_signature,
            volume_id,
            volume_label,
            fs_type,
        };
        proof {
            let s = buf@.subrange(0, 62);
            lemma_le16_bytes(buf@.subrange(11, 13));
            lemma_le16_bytes(buf@.subrange(14, 16));
            lemma_le16_bytes(buf@.subrange(17, 19));
            lemma_le16_bytes(buf@.subrange(19, 21));
            lemma_le16_bytes(buf@.subrange(22, 24));
            lemma_le16_bytes(buf@.subrange(24, 26));
            lemma_le16_bytes(buf@.subrange(26, 28));
            lemma_le32_bytes(buf@.subrange(28, 32));
            lemma_le32_bytes(buf@.subrange(32, 36));
            lemma_le32_bytes(buf@.subrange(39, 43));
            assert(r.spec_bytes() =~= s);
        }
        r
    }

    /// The 62 bytes of the boot sector on disk.
    pub fn to_bytes(&self) -> (r: Vec<u8>)
        ensures
            r@ == self.spec_bytes(),
    {
        let mut out: Vec<u8> = Vec::new();
        push_all(&mut out, array_as_slice(&self.jump_boot));
        push_all(&mut out, array_as_slice(&self.oem_name));
        let b = u16_to_le_bytes(self.bytes_per_sector);
        push_all(&mut out, b.as_slice());
        out.push(self.sectors_per_cluster);
        let b = u16_to_le_bytes(self.reserved_sectors);
        push_all(&mut out, b.as_slice());
        out.push(self.fat_count);
        let b = u16_to_le_bytes(self.root_dir_entries);
        push_all(&mut out, b.as_slice());
        let b = u16_to_le_bytes(self.total_sectors_16);
        push_all(&mut out, b.as_slice());
        out.push(self.media_type);
        let b = u16_to_le_bytes(self.sectors_per_fat);
        push_all(&mut out, b.as_slice());
        let b = u16_to_le_bytes(self.sectors_per_track);
        push_all(&mut out, b.as_slice());
        let b = u16_to_le_bytes(self.head_count);
        push_all(&mut out, b.as_slice());
        let b = u32_to_le_bytes(self.hidden_sectors);
        push_all(&mut out, b.as_slice());
        let b = u32_to_le_bytes(self.total_sectors_32);
        push_all(&mut out, b.as_slice());
        out.push(self.drive_number);
        out.push(self.reserved1);
        out.push(self.boot_signature);
        let b = u32_to_le_bytes(self.volume_id);
        push_all(&mut out, b.as_slice());
        push_all(&mut out, array_as_slice(&self.volume_label));
        push_all(&mut out, array_as_slice(&self.fs_type));
        proof {
            assert(out@ =~= self.spec_bytes());
        }
        out
    }

    /// The boot sector on disk, field by field at the offsets of the BIOS
    /// parameter block: the bytes per sector at 11, the sectors per cluster
    /// at 13, the reserved sectors at 14, the number of FATs at 16, the root
    /// entries at 17, the 16-bit sector count at 19, the media byte at 21,
    /// the sectors per FAT at 22, and so on to the file-system type at 54,
    /// multi-byte fields little-endian.
    pub proof fn lemma_layout(self)
        ensures
            self.spec_bytes().subrange(0, 3) == self.jump_boot@,
            self.spec_bytes().subrange(3, 11) == self.oem_name@,
            self.spec_bytes().subrange(11, 13) == spec_u16_to_le_bytes(self.bytes_per_sector),
            self.spec_bytes()[13] == self.sectors_per_cluster,
            self.spec_bytes().subrange(14, 16) == spec_u16_to_le_bytes(self.reserved_sectors),
            self.spec_bytes()[16] == self.fat_count,
            self.spec_bytes().subrange(17, 19) == spec_u16_to_le_bytes(self.root_dir_entries),
            self.spec_bytes().subrange(19, 21) == spec_u16_to_le_bytes(self.total_sectors_16),
            self.spec_bytes()[21] == self.media_type,
            self.spec_bytes().subrange(22, 24) == spec_u16_to_le_bytes(self.sectors_per_fat),
            self.spec_bytes().subrange(24, 26) == spec_u16_to_le_bytes(self.sectors_per_track),
            self.spec_bytes().subrange(26, 28) == spec_u16_to_le_bytes(self.head_count),
            self.spec_bytes().subrange(28, 32) == spec_u32_to_le_bytes(self.hidden_sectors),
            self.spec_bytes().subrange(32, 36) == spec_u32_to_le_bytes(self.total_sectors_32),
            self.spec_bytes()[36] == self.drive_number,
            self.spec_bytes()[37] == self.reserved1,
            self.spec_bytes()[38] == self.boot_signature,
            self.spec_bytes().subrange(39, 43) == spec_u32_to_le_bytes(self.volume_id),
            self.spec_bytes().subrange(43, 54) == self.volume_label@,
            self.spec_bytes().subrange(54, 62) == self.fs_type@,
    {
        self.lemma_bytes_len();
        vstd::bytes::lemma_auto_spec_u16_to_from_le_bytes();
        vstd::bytes::lemma_auto_spec_u32_to_from_le_bytes();
        assert(self.spec_bytes().subrange(0, 3) =~= self.jump_boot@);
        assert(self.spec_bytes().subrange(3, 11) =~= self.oem_name@);
        assert(self.spec_bytes().subrange(11, 13) =~= spec_u16_to_le_bytes(self.bytes_per_sector));
        assert(self.spec_bytes().subrange(14, 16) =~= spec_u16_to_le_bytes(self.reserved_sectors));
        assert(self.spec_bytes().subrange(17, 19) =~= spec_u16_to_le_bytes(self.root_dir_entries));
        assert(self.spec_bytes().subrange(19, 21) =~= spec_u16_to_le_bytes(self.total_sectors_16));
        assert(self.spec_bytes().subrange(22, 24) =~= spec_u16_to_le_bytes(self.sectors_per_fat));
        assert(self.spec_bytes().subrange(24, 26) =~= spec_u16_to_le_bytes(self.sectors_per_track));
        assert(self.spec_bytes().subrange(26, 28) =~= spec_u16_to_le_bytes(self.head_count));
        assert(self.spec_bytes().subrange(28, 32) =~= spec_u32_to_le_bytes(self.hidden_sectors));
        assert(self.spec_bytes().subrange(32, 36) =~= spec_u32_to_le_bytes(self.total_sectors_32));
        assert(self.spec_bytes().subrange(39, 43) =~= spec_u32_to_le_bytes(self.volume_id));
        assert(self.spec_bytes().subrange(43, 54) =~= self.volume_label@);
        assert(self.spec_bytes().subrange(54, 62) =~= self.fs_type@);
    }

    pub proof fn lemma_bytes_len(self)
        ensures
            self.spec_bytes().len() == 62,
    {
        lemma_le16_bytes(spec_u16_to_le_bytes(self.bytes_per_sector));
        lemma_le16_bytes(spec_u16_to_le_bytes(self.reserved_sectors));
        lemma_le16_bytes(spec_u16_to_le_bytes(self.root_dir_entries));
        lemma_le16_bytes(spec_u16_to_le_bytes(self.total_sectors_16));
        lemma_le16_bytes(spec_u16_to_le_bytes(self.sectors_per_fat));
        lemma_le16_bytes(spec_u16_to_le_bytes(self.sectors_per_track));
        lemma_le16_bytes(spec_u16_to_le_bytes(self.head_count));
        lemma_le32_bytes(spec_u32_to_le_bytes(self.hidden_sectors));
        lemma_le32_bytes(spec_u32_to_le_bytes(self.total_sectors_32));
        lemma_le32_bytes(spec_u32_to_le_bytes(self.volume_id));
        vstd::bytes::lemma_auto_spec_u16_to_from_le_bytes();
        vstd::bytes::lemma_auto_spec_u32_to_from_le_bytes();
        assert(spec_u16_to_le_bytes(self.bytes_per_sector).len() == 2);
        assert(spec_u16_to_le_bytes(self.reserved_sectors).len() == 2);
        assert(spec_u16_to_le_bytes(self.root_dir_entries).len() == 2);
        assert(spec_u16_to_le_bytes(self.total_sectors_16).len() == 2);
        assert(spec_u16_to_le_bytes(self.sectors_per_fat).len() == 2);
        assert(spec_u16_to_le_bytes(self.sectors_per_track).len() == 2);
        assert(spec_u16_to_le_bytes(self.head_count).len() == 2);
        assert(spec_u32_to_le_bytes(self.hidden_sectors).len() == 4);
        assert(spec_u32_to_le_bytes(self.total_sectors_32).len() == 4);
        assert(spec_u32_to_le_bytes(self.volume_id).len() == 4);
    }

    /// Two boot sectors with the same bytes are the same: decoding what
    /// `to_bytes` wrote gives the boot sector back.
    pub proof fn lemma_bytes_injective(self, other: Self)
        requires
            self.spec_bytes() == other.spec_bytes(),
        ensures
            self == other,
    {
        self.lemma_bytes_len();
        other.lemma_bytes_len();
        vstd::bytes::lemma_auto_spec_u16_to_from_le_bytes();
        vstd::bytes::lemma_auto_spec_u32_to_from_le_bytes();
        let a = self.spec_bytes();
        let b = other.spec_bytes();
        assert(spec_u16_to_le_bytes(self.bytes_per_sector).len() == 2);
        assert(spec_u16_to_le_bytes(other.bytes_per_sector).len() == 2);
        assert(spec_u16_to_le_bytes(self.reserved_sectors).len() == 2);
        assert(spec_u16_to_le_bytes(other.reserved_sectors).len() == 2);
        assert(spec_u16_to_le_bytes(self.root_dir_entries).len() == 2);
        assert(spec_u16_to_le_bytes(other.root_dir_entries).len() == 2);
        assert(spec_u16_to_le_bytes(self.total_sectors_16).len() == 2);
        assert(spec_u16_to_le_bytes(other.total_sectors_16).len() == 2);
        assert(spec_u16_to_le_bytes(self.sectors_per_fat).len() == 2);
        assert(spec_u16_to_le_bytes(other.sectors_per_fat).len() == 2);
        assert(spec_u16_to_le_bytes(self.sectors_per_track).len() == 2);
        assert(spec_u16_to_le_bytes(other.sectors_per_track).len() == 2);
        assert(spec_u16_to_le_bytes(self.head_count).len() == 2);
        assert(spec_u16_to_le_bytes(other.head_count).len() == 2);
        assert(spec_u32_to_le_bytes(self.hidden_sectors).len() == 4);
        assert(spec_u32_to_le_bytes(other.hidden_sectors).len() == 4);
        assert(spec_u32_to_le_bytes(self.total_sectors_32).len() == 4);
        assert(spec_u32_to_le_bytes(other.total_sectors_32).len() == 4);
        assert(spec_u32_to_le_bytes(self.volume_id).len() == 4);
        assert(spec_u32_to_le_bytes(other.volume_id).len() == 4);
        assert(self.jump_boot@ =~= a.subrange(0, 3));
        assert(other.jump_boot@ =~= b.subrange(0, 3));
        assert(self.jump_boot == other.jump_boot);
        assert(self.oem_name@ =~= a.subrange(3, 11));
        assert(other.oem_name@ =~= b.subrange(3, 11));
        assert(self.oem_name == other.oem_name);
        assert(spec_u16_to_le_bytes(self.bytes_per_sector) =~= a.subrange(11, 13));
        assert(spec_u16_to_le_bytes(other.bytes_per_sector) =~= b.subrange(11, 13));
        assert(self.sectors_per_cluster == a[13] && other.sectors_per_cluster == b[13]);
        assert(spec_u16_to_le_bytes(self.reserved_sectors) =~= a.subrange(14, 16));
        assert(spec_u16_to_le_bytes(other.reserved_sectors) =~= b.subrange(14, 16));
        assert(self.fat_count == a[16] && other.fat_count == b[16]);
        assert(spec_u16_to_le_bytes(self.root_dir_entries) =~= a.subrange(17, 19));
        assert(spec_u16_to_le_bytes(other.root_dir_entries) =~= b.subrange(17, 19));
        assert(spec_u16_to_le_bytes(self.total_sectors_16) =~= a.subrange(19, 21));
        assert(spec_u16_to_le_bytes(other.total_sectors_16) =~= b.subrange(19, 21));
        assert(self.media_type == a[21] && other.media_type == b[21]);
        assert(spec_u16_to_le_bytes(self.sectors_per_fat) =~= a.subrange(22, 24));
        assert(spec_u16_to_le_bytes(other.sectors_per_fat) =~= b.subrange(22, 24));
        assert(spec_u16_to_le_bytes(self.sectors_per_track) =~= a.subrange(24, 26));
        assert(spec_u16_to_le_bytes(other.sectors_per_track) =~= b.subrange(24, 26));
        assert(spec_u16_to_le_bytes(self.head_count) =~= a.subrange(26, 28));
        assert(spec_u16_to_le_bytes(other.head_count) =~= b.subrange(26, 28));
        assert(spec_u32_to_le_bytes(self.hidden_sectors) =~= a.subrange(28, 32));
        assert(spec_u32_to_le_bytes(other.hidden_sectors) =~= b.subrange(28, 32));
        assert(spec_u32_to_le_bytes(self.total_sectors_32) =~= a.subrange(32, 36));
        assert(spec_u32_to_le_bytes(other.total_sectors_32) =~= b.subrange(32, 36));
        assert(self.drive_number == a[36] && other.drive_number == b[36]);
        assert(self.reserved1 == a[37] && other.reserved1 == b[37]);
        assert(self.boot_signature == a[38] && other.boot_signature == b[38]);
        assert(spec_u32_to_le_bytes(self.volume_id) =~= a.subrange(39, 43));
        assert(spec_u32_to_le_bytes(other.volume_id) =~= b.subrange(39, 43));
        assert(self.volume_label@ =~= a.subrange(43, 54));
        assert(other.volume_label@ =~= b.subrange(43, 54));
        assert(self.volume_label == other.volume_label);
        assert(self.fs_type@ =~= a.subrange(54, 62));
        assert(other.fs_type@ =~= b.subrange(54, 62));
        assert(self.fs_type == other.fs_type);
        vstd::bytes::lemma_auto_spec_u16_to_from_le_bytes();
        vstd::bytes::lemma_auto_spec_u32_to_from_le_bytes();
        assert(spec_u16_from_le_bytes(spec_u16_to_le_bytes(self.bytes_per_sector)) == self.bytes_per_sector);
        assert(spec_u16_from_le_bytes(spec_u16_to_le_bytes(other.bytes_per_sector)) == other.bytes_per_sector);
        assert(spec_u16_from_le_bytes(spec_u16_to_le_bytes(self.reserved_sectors)) == self.reserved_sectors);
        assert(spec_u16_from_le_bytes(spec_u16_to_le_bytes(other.reserved_sectors)) == other.reserved_sectors);
        assert(spec_u16_from_le_bytes(spec_u16_to_le_bytes(self.root_dir_entries)) == self.root_dir_entries);
        assert(spec_u16_from_le_bytes(spec_u16_to_le_bytes(other.root_dir_entries)) == other.root_dir_entries);
        assert(spec_u16_from_le_bytes(spec_u16_to_le_bytes(self.total_sectors_16)) == self.total_sectors_16);
        assert(spec_u16_from_le_bytes(spec_u16_to_le_bytes(other.total_sectors_16)) == other.total_sectors_16);
        assert(spec_u16_from_le_bytes(spec_u16_to_le_bytes(self.sectors_per_fat)) == self.sectors_per_fat);
        assert(spec_u16_from_le_bytes(spec_u16_to_le_bytes(other.sectors_per_fat)) == other.sectors_per_fat);
        assert(spec_u16_from_le_bytes(spec_u16_to_le_bytes(self.sectors_per_track)) == self.sectors_per_track);
        assert(spec_u16_from_le_bytes(spec_u16_to_le_bytes(other.sectors_per_track)) == other.sectors_per_track);
        assert(spec_u16_from_le_bytes(spec_u16_to_le_bytes(self.head_count)) == self.head_count);
        assert(spec_u16_from_le_bytes(spec_u16_to_le_bytes(other.head_count)) == other.head_count);
        assert(spec_u32_from_le_bytes(spec_u32_to_le_bytes(self.hidden_sectors)) == self.hidden_sectors);
        assert(spec_u32_from_le_bytes(spec_u32_to_le_bytes(other.hidden_sectors)) == other.hidden_sectors);
        assert(spec_u32_from_le_bytes(spec_u32_to_le_bytes(self.total_sectors_32)) == self.total_sectors_32);
        assert(spec_u32_from_le_bytes(spec_u32_to_le_bytes(other.total_sectors_32)) == other.total_sectors_32);
        assert(spec_u32_from_le_bytes(spec_u32_to_le_bytes(self.volume_id)) == self.volume_id);
        assert(spec_u32_from_le_bytes(spec_u32_to_le_bytes(other.volume_id)) == other.volume_id);
    }
}

/// Decoding the bytes of a boot sector gives the boot sector back:
/// `read_from` undoes `to_bytes`.
pub proof fn lemma_boot_sector_roundtrip(b: BootSector, bytes: Seq<u8>, decoded: BootSector)
    requires
        bytes == b.spec_bytes(),
        decoded.spec_bytes() == bytes.subrange(0, 62),
    ensures
        decoded == b,
{
    b.lemma_bytes_len();
    assert(bytes.subrange(0, 62) =~= bytes);
    decoded.lemma_bytes_injective(b);
}

} // verus!
