//! FAT16 directory entry structure and operations.

use crate::filesys::fat16::constants::{ATTR_ARCHIVE, ATTR_DIRECTORY, DELETED_ENTRY_MARKER};
use vstd::bytes::{
    spec_u16_from_le_bytes, spec_u16_to_le_bytes, spec_u32_from_le_bytes, spec_u32_to_le_bytes,
    u16_from_le_bytes, u16_to_le_bytes, u32_from_le_bytes, u32_to_le_bytes,
};
use crate::filesys::fat16::raw::{lemma_le16_bytes, lemma_le32_bytes, push_all};
use vstd::prelude::*;
use vstd::array::array_as_slice;
use vstd::slice::slice_subrange;
use vstd::string::StringSliceAdditionalSpecFns;
use vstd::utf8::{encode_utf8, valid_utf8, valid_utf8_concat};

verus! {

/// 8.3 format directory entry (32 bytes on disk).
#[derive(Clone, Copy)]
pub struct DirEntry83 {
    /// 8 character file name, padded with spaces.
    pub name: [u8; 8],
    /// 3 character extension, padded with spaces.
    pub ext: [u8; 3],
    /// File attributes (read-only, directory, ...).
    pub attributes: u8,
    /// Reserved.
    pub reserved: [u8; 10],
    /// Modification time.
    pub time: u16,
    /// Modification date.
    pub date: u16,
    /// First cluster number.
    pub start_cluster: u16,
    /// File size in bytes.
    pub file_size: u32,
}

/// `b` cut or padded with spaces to `n` bytes.
pub open spec fn spec_padded(b: Seq<u8>, n: nat) -> Seq<u8> {
    Seq::new(n, |i: int| if i < b.len() { b[i] } else { 0x20u8 })
}

/// A field padded to `n` bytes: `n` bytes long, the bytes of `b` first
/// (as many as fit), spaces after them.
pub proof fn lemma_padded(b: Seq<u8>, n: nat)
    ensures
        spec_padded(b, n).len() == n,
        forall|i: int| 0 <= i < n && i < b.len() ==> #[trigger] spec_padded(b, n)[i] == b[i],
        forall|i: int| b.len() <= i < n ==> #[trigger] spec_padded(b, n)[i] == 0x20,
{
}

/// Index of the first space in `s`, or its length when it holds none.
pub open spec fn spec_first_space(s: Seq<u8>) -> nat
    decreases s.len(),
{
    if s.len() == 0 {
        0
    } else if s[0] == 0x20 {
        0
    } else {
        1 + spec_first_space(s.skip(1))
    }
}

/// The bytes of `s` when they are valid UTF-8, else nothing.
pub open spec fn spec_utf8_or_empty(s: Seq<u8>) -> Seq<u8> {
    if valid_utf8(s) {
        s
    } else {
        Seq::empty()
    }
}

pub proof fn lemma_first_space(s: Seq<u8>)
    ensures
        spec_first_space(s) <= s.len(),
        forall|i: int| 0 <= i < spec_first_space(s) ==> s[i] != 0x20,
        spec_first_space(s) < s.len() ==> s[spec_first_space(s) as int] == 0x20,
    decreases s.len(),
{
    if s.len() > 0 && s[0] != 0x20 {
        lemma_first_space(s.skip(1));
        assert forall|i: int| 0 <= i < spec_first_space(s) implies s[i] != 0x20 by {
            if i > 0 {
                assert(s[i] == s.skip(1)[i - 1]);
            }
        }
    }
}

/// `core::str::from_utf8`: whether `bytes` are valid UTF-8.
#[verifier::external_body]
fn utf8_valid(bytes: &[u8]) -> (r: bool)
    ensures
        r == valid_utf8(bytes@),
{
    core::str::from_utf8(bytes).is_ok()
}

/// `String::from_utf8` on valid UTF-8: the string whose UTF-8 bytes they are.
#[verifier::external_body]
fn string_from_utf8(bytes: Vec<u8>) -> (r: String)
    requires
        valid_utf8(bytes@),
    ensures
        encode_utf8(r@) == bytes@,
{
    String::from_utf8(bytes).unwrap_or_default()
}

/// Index of the first space in `s`, or its length when it holds none.
fn first_space(s: &[u8]) -> (r: usize)
    ensures
        r == spec_first_space(s@),
{
    proof {
        lemma_first_space(s@);
    }
    let mut i: usize = 0;
    while i < s.len()
        invariant
            i <= s@.len(),
            forall|j: int| 0 <= j < i ==> s@[j] != 0x20,
        decreases s@.len() - i,
    {
        if s[i] == 0x20 {
            proof {
                lemma_first_space_at(s@, i as int);
            }
            return i;
        }
        i = i + 1;
    }
    proof {
        lemma_first_space_at(s@, i as int);
    }
    i
}

/// The first space of `s` is at `i` when none comes before it.
pub proof fn lemma_first_space_at(s: Seq<u8>, i: int)
    requires
        0 <= i <= s.len(),
        forall|j: int| 0 <= j < i ==> s[j] != 0x20,
        i == s.len() || s[i] == 0x20,
    ensures
        spec_first_space(s) == i,
    decreases s.len(),
{
    if i > 0 {
        assert forall|j: int| 0 <= j < i - 1 implies s.skip(1)[j] != 0x20 by {
            assert(s.skip(1)[j] == s[j + 1]);
        }
        lemma_first_space_at(s.skip(1), i - 1);
    }
}

/// The first space of a padded field is where the bytes it was padded
/// from end, when none of them is a space.
proof fn lemma_padded_first_space(b: Seq<u8>, n: nat)
    requires
        b.len() <= n,
        forall|i: int| 0 <= i < b.len() ==> b[i] != 0x20,
    ensures
        spec_first_space(spec_padded(b, n)) == b.len(),
        spec_padded(b, n).take(b.len() as int) == b,
{
    let p = spec_padded(b, n);
    lemma_first_space_at(p, b.len() as int);
    assert(p.take(b.len() as int) =~= b);
}

/// An entry made by `new_file` from a name of at most 8 bytes and an
/// extension of at most 3, neither holding a space and both valid UTF-8,
/// spells that name, followed by a dot and the extension when there is
/// one.
pub proof fn lemma_new_file_name(e: DirEntry83, name: Seq<u8>, ext: Seq<u8>)
    requires
        name.len() <= 8,
        ext.len() <= 3,
        forall|i: int| 0 <= i < name.len() ==> name[i] != 0x20,
        forall|i: int| 0 <= i < ext.len() ==> ext[i] != 0x20,
        valid_utf8(name),
        valid_utf8(ext),
        e.name@ == spec_padded(name, 8),
        e.ext@ == spec_padded(ext, 3),
    ensures
        e.spec_name() == if ext.len() > 0 {
            name + seq![0x2Eu8] + ext
        } else {
            name
        },
{
    lemma_padded_first_space(name, 8);
    lemma_padded_first_space(ext, 3);
}

pub proof fn lemma_dot_is_utf8()
    ensures
        valid_utf8(seq![0x2Eu8]),
{
    reveal_with_fuel(valid_utf8, 2);
    assert(vstd::utf8::pop_first_scalar(seq![0x2Eu8]) =~= Seq::<u8>::empty());
}

/// The UTF-8 bytes of a name stored as an 8-byte name field and a 3-byte
/// extension field: the name up to its first space, then, when the extension
/// holds anything before its first space, a dot and the extension up to that
/// space. A part that is not valid UTF-8 is left out.
pub open spec fn spec_name_parts(name: Seq<u8>, ext: Seq<u8>) -> Seq<u8> {
    let n = spec_utf8_or_empty(name.take(spec_first_space(name) as int));
    let ext_end = spec_first_space(ext);
    let e = spec_utf8_or_empty(ext.take(ext_end as int));
    if ext_end > 0 {
        n + seq![0x2Eu8] + e
    } else {
        n
    }
}

/// The bytes of a new entry with the given name, extension, attributes and
/// first cluster: reserved bytes, time, date and size are zero.
pub open spec fn spec_new_entry_bytes(name: Seq<u8>, ext: Seq<u8>, attr: u8, cluster: u16) -> Seq<u8> {
    spec_padded(name, 8) + spec_padded(ext, 3) + seq![attr] + Seq::new(10, |i: int| 0u8)
        + spec_u16_to_le_bytes(0) + spec_u16_to_le_bytes(0) + spec_u16_to_le_bytes(cluster)
        + spec_u32_to_le_bytes(0)
}

impl DirEntry83 {
    /// The 32 bytes of the entry on disk: name, extension, attributes,
    /// reserved bytes, then time, date, first cluster and size, little-endian.
    pub open spec fn spec_bytes(self) -> Seq<u8> {
        self.name@ + self.ext@ + seq![self.attributes] + self.reserved@ + spec_u16_to_le_bytes(
            self.time,
        ) + spec_u16_to_le_bytes(self.date) + spec_u16_to_le_bytes(self.start_cluster)
            + spec_u32_to_le_bytes(self.file_size)
    }

    /// Whether the entry is marked deleted.
    pub open spec fn spec_is_deleted(self) -> bool {
        self.name@[0] == DELETED_ENTRY_MARKER
    }

    /// Whether the entry is unused.
    pub open spec fn spec_is_free(self) -> bool {
        self.name@[0] == 0
    }

    /// Whether the entry is a directory.
    pub open spec fn spec_is_directory(self) -> bool {
        self.attributes & ATTR_DIRECTORY != 0
    }

    /// The UTF-8 bytes of the entry's name, as `spec_name_parts` reads them
    /// from its name and extension fields.
    pub open spec fn spec_name(self) -> Seq<u8> {
        spec_name_parts(self.name@, self.ext@)
    }

    /// Creates a file entry with the given name, extension and first cluster;
    /// the name keeps at most 8 bytes and the extension at most 3, and both
    /// are padded with spaces.
    pub fn new_file(name: &str, ext: &str, start_cluster: u16) -> (r: Self)
        ensures
            r.name@ == spec_padded(name.spec_bytes(), 8),
            r.ext@ == spec_padded(ext.spec_bytes(), 3),
            r.attributes == ATTR_ARCHIVE,
            r.reserved@ == Seq::new(10, |i: int| 0u8),
            r.time == 0,
            r.date == 0,
            r.start_cluster == start_cluster,
            r.file_size == 0,
    {
        Self::from_parts(name.as_bytes(), ext.as_bytes(), start_cluster)
    }

    /// Creates a file entry from the bytes of a name and of an extension;
    /// the name keeps at most 8 bytes and the extension at most 3, and both
    /// are padded with spaces.
    pub fn from_parts(name_bytes: &[u8], ext_bytes: &[u8], start_cluster: u16) -> (r: Self)
        ensures
            r.name@ == spec_padded(name_bytes@, 8),
            r.ext@ == spec_padded(ext_bytes@, 3),
            r.attributes == ATTR_ARCHIVE,
            r.reserved@ == Seq::new(10, |i: int| 0u8),
            r.time == 0,
            r.date == 0,
            r.start_cluster == start_cluster,
            r.file_size == 0,
            r.spec_bytes() == spec_new_entry_bytes(name_bytes@, ext_bytes@, ATTR_ARCHIVE, start_cluster),
    {
        let mut entry = Self {
            name: [0x20u8; 8],
            ext: [0x20u8; 3],
            attributes: ATTR_ARCHIVE,
            reserved: [0u8; 10],
            time: 0,
            date: 0,
            start_cluster,
            file_size: 0,
        };
        let n = if name_bytes.len() < 8 { name_bytes.len() } else { 8 };
        let mut i: usize = 0;
        while i < n
            invariant
                n <= 8,
                n <= name_bytes@.len(),
                n == name_bytes@.len() || n == 8,
                i <= n,
                                forall|j: int| 0 <= j < i ==> entry.name@[j] == name_bytes@[j],
                forall|j: int| i <= j < 8 ==> entry.name@[j] == 0x20u8,
                entry.ext@ == Seq::new(3, |k: int| 0x20u8),
                entry.reserved@ == Seq::new(10, |k: int| 0u8),
                entry.attributes == ATTR_ARCHIVE,
                entry.time == 0,
                entry.date == 0,
                entry.start_cluster == start_cluster,
                entry.file_size == 0,
            decreases n - i,
        {
            entry.name[i] = name_bytes[i];
            i = i + 1;
        }
        let m = if ext_bytes.len() < 3 { ext_bytes.len() } else { 3 };
        let mut i: usize = 0;
        while i < m
            invariant
                m <= 3,
                m <= ext_bytes@.len(),
                m == ext_bytes@.len() || m == 3,
                i <= m,
                                entry.name@ == spec_padded(name_bytes@, 8),
                forall|j: int| 0 <= j < i ==> entry.ext@[j] == ext_bytes@[j],
                forall|j: int| i <= j < 3 ==> entry.ext@[j] == 0x20u8,
                entry.reserved@ == Seq::new(10, |k: int| 0u8),
                entry.attributes == ATTR_ARCHIVE,
                entry.time == 0,
                entry.date == 0,
                entry.start_cluster == start_cluster,
                entry.file_size == 0,
            decreases m - i,
        {
            entry.ext[i] = ext_bytes[i];
            i = i + 1;
        }
        proof {
            assert(entry.name@ =~= spec_padded(name_bytes@, 8));
            assert(entry.ext@ =~= spec_padded(ext_bytes@, 3));
            assert(entry.spec_bytes() =~= spec_new_entry_bytes(
                name_bytes@,
                ext_bytes@,
                ATTR_ARCHIVE,
                start_cluster,
            ));
        }
        entry
    }

    /// Creates a directory entry with the given name and first cluster.
    pub fn new_directory(name: &str, start_cluster: u16) -> (r: Self)
        ensures
            r.name@ == spec_padded(name.spec_bytes(), 8),
            r.ext@ == Seq::new(3, |i: int| 0x20u8),
            r.attributes == ATTR_DIRECTORY,
            r.reserved@ == Seq::new(10, |i: int| 0u8),
            r.time == 0,
            r.date == 0,
            r.start_cluster == start_cluster,
            r.file_size == 0,
    {
        Self::directory_from_parts(name.as_bytes(), start_cluster)
    }

    /// Creates a directory entry from the bytes of its name.
    pub fn directory_from_parts(name_bytes: &[u8], start_cluster: u16) -> (r: Self)
        ensures
            r.name@ == spec_padded(name_bytes@, 8),
            r.ext@ == Seq::new(3, |i: int| 0x20u8),
            r.attributes == ATTR_DIRECTORY,
            r.reserved@ == Seq::new(10, |i: int| 0u8),
            r.time == 0,
            r.date == 0,
            r.start_cluster == start_cluster,
            r.file_size == 0,
            r.spec_bytes() == spec_new_entry_bytes(name_bytes@, Seq::empty(), ATTR_DIRECTORY, start_cluster),
    {
        let empty: [u8; 0] = [];
        let mut entry = Self::from_parts(name_bytes, array_as_slice(&empty), start_cluster);
        proof {
            assert(entry.ext@ =~= Seq::new(3, |i: int| 0x20u8));
        }
        entry.attributes = ATTR_DIRECTORY;
        proof {
            assert(spec_padded(Seq::<u8>::empty(), 3) =~= Seq::new(3, |i: int| 0x20u8));
            assert(entry.spec_bytes() =~= spec_new_entry_bytes(name_bytes@, Seq::empty(), ATTR_DIRECTORY, start_cluster));
        }
        entry
    }

    /// The file name, with its extension when it has one: the name up to its
    /// first space, then a dot and the extension up to its first space.
    pub fn get_name(&self) -> (r: String)
        ensures
            encode_utf8(r@) == self.spec_name(),
    {
        string_from_utf8(self.name_bytes())
    }

    /// The UTF-8 bytes of the file name, as `get_name` spells it.
    pub fn name_bytes(&self) -> (r: Vec<u8>)
        ensures
            r@ == self.spec_name(),
            valid_utf8(r@),
    {
        let name_slice = array_as_slice(&self.name);
        let ext_slice = array_as_slice(&self.ext);
        let name_end = first_space(name_slice);
        let ext_end = first_space(ext_slice);
        proof {
            lemma_first_space(self.name@);
            lemma_first_space(self.ext@);
        }
        let name_part = slice_subrange(name_slice, 0, name_end);
        let ext_part = slice_subrange(ext_slice, 0, ext_end);
        let mut out: Vec<u8> = Vec::new();
        if utf8_valid(name_part) {
            push_all(&mut out, name_part);
        }
        let ghost n = out@;
        proof {
            assert(n == spec_utf8_or_empty(self.name@.take(spec_first_space(self.name@) as int)));
            if !valid_utf8(name_part@) {
                assert(n =~= Seq::<u8>::empty());
            }
            assert(valid_utf8(Seq::<u8>::empty())) by {
                reveal_with_fuel(valid_utf8, 1);
            }
        }
        if ext_end > 0 {
            out.push(0x2E);
            proof {
                lemma_dot_is_utf8();
                assert(out@ =~= n + seq![0x2Eu8]);
                valid_utf8_concat(n, seq![0x2Eu8]);
            }
            let ghost nd = out@;
            if utf8_valid(ext_part) {
                push_all(&mut out, ext_part);
                proof {
                    valid_utf8_concat(nd, ext_part@);
                }
            } else {
                proof {
                    assert(out@ =~= nd + Seq::<u8>::empty());
                }
            }
        }
        proof {
            assert(out@ =~= self.spec_name());
        }
        out
    }

    /// The entry decoded from the 32 bytes of `buf` at `off`.
    pub fn read_from(buf: &[u8], off: usize) -> (r: Self)
        requires
            off + 32 <= buf@.len(),
        ensures
            r.spec_bytes() == buf@.subrange(off as int, off + 32),
    {
        let buf_len = buf.len();
        let mut name = [0u8; 8];
        let mut i: usize = 0;
        while i < 8
            invariant
                i <= 8,
                off + 32 <= buf@.len(),
                buf_len == buf@.len(),
                forall|j: int| 0 <= j < i ==> name@[j] == buf@[off + j],
            decreases 8 - i,
        {
            name[i] = buf[off + i];
            i = i + 1;
        }
        let mut ext = [0u8; 3];
        let mut i: usize = 0;
        while i < 3
            invariant
                i <= 3,
                off + 32 <= buf@.len(),
                buf_len == buf@.len(),
                forall|j: int| 0 <= j < i ==> ext@[j] == buf@[off + 8 + j],
            decreases 3 - i,
        {
            ext[i] = buf[off + 8 + i];
            i = i + 1;
        }
        let mut reserved = [0u8; 10];
        let mut i: usize = 0;
        while i < 10
            invariant
                i <= 10,
                off + 32 <= buf@.len(),
                buf_len == buf@.len(),
                forall|j: int| 0 <= j < i ==> reserved@[j] == buf@[off + 12 + j],
            decreases 10 - i,
        {
            reserved[i] = buf[off + 12 + i];
            i = i + 1;
        }
        let time = u16_from_le_bytes(slice_subrange(buf, off + 22, off + 24));
        let date = u16_from_le_bytes(slice_subrange(buf, off + 24, off + 26));
        let start_cluster = u16_from_le_bytes(slice_subrange(buf, off + 26, off + 28));
        let file_size = u32_from_le_bytes(slice_subrange(buf, off + 28, off + 32));
        let r = DirEntry83 {
            name,
            ext,
            attributes: buf[off + 11],
            reserved,
            time,
            date,
            start_cluster,
            file_size,
        };
        proof {
            let s = buf@.subrange(off as int, off + 32);
            lemma_le16_bytes(s.subrange(22, 24));
            lemma_le16_bytes(s.subrange(24, 26));
            lemma_le16_bytes(s.subrange(26, 28));
            lemma_le32_bytes(s.subrange(28, 32));
            assert(buf@.subrange(off + 22, off + 24) =~= s.subrange(22, 24));
            assert(buf@.subrange(off + 24, off + 26) =~= s.subrange(24, 26));
            assert(buf@.subrange(off + 26, off + 28) =~= s.subrange(26, 28));
            assert(buf@.subrange(off + 28, off + 32) =~= s.subrange(28, 32));
            assert(r.spec_bytes() =~= s);
        }
        r
    }

    /// The 32 bytes of the entry on disk.
    pub fn to_bytes(&self) -> (r: Vec<u8>)
        ensures
            r@ == self.spec_bytes(),
    {
        let mut out: Vec<u8> = Vec::new();
        push_all(&mut out, array_as_slice(&self.name));
        push_all(&mut out, array_as_slice(&self.ext));
        out.push(self.attributes);
        push_all(&mut out, array_as_slice(&self.reserved));
        let t = u16_to_le_bytes(self.time);
        push_all(&mut out, t.as_slice());
        let d = u16_to_le_bytes(self.date);
        push_all(&mut out, d.as_slice());
        let c = u16_to_le_bytes(self.start_cluster);
        push_all(&mut out, c.as_slice());
        let z = u32_to_le_bytes(self.file_size);
        push_all(&mut out, z.as_slice());
        proof {
            assert(out@ =~= self.spec_bytes());
        }
        out
    }

    /// Writes the entry's 32 bytes into `buf` at `off`, leaving the other
    /// bytes alone.
    pub fn write_to(&self, buf: &mut [u8], off: usize)
        requires
            off + 32 <= old(buf)@.len(),
        ensures
            final(buf)@ == old(buf)@.subrange(0, off as int) + self.spec_bytes() + old(buf)@.subrange(
                off + 32,
                old(buf)@.len() as int,
            ),
    {
        let bytes = self.to_bytes();
        let buf_len = buf.len();
        proof {
            lemma_entry_bytes_len(*self);
        }
        let mut i: usize = 0;
        while i < 32
            invariant
                i <= 32,
                bytes@ == self.spec_bytes(),
                bytes@.len() == 32,
                buf@.len() == old(buf)@.len(),
                off + 32 <= buf@.len(),
                buf_len == buf@.len(),
                forall|j: int| 0 <= j < off ==> buf@[j] == old(buf)@[j],
                forall|j: int| off + 32 <= j < buf@.len() ==> buf@[j] == old(buf)@[j],
                forall|j: int| off <= j < off + i ==> buf@[j] == bytes@[j - off],
                forall|j: int| off + i <= j < off + 32 ==> buf@[j] == old(buf)@[j],
            decreases 32 - i,
        {
            buf[off + i] = bytes[i];
            i = i + 1;
        }
        proof {
            assert(buf@ =~= old(buf)@.subrange(0, off as int) + self.spec_bytes() + old(buf)@.subrange(
                off + 32,
                old(buf)@.len() as int,
            ));
        }
    }

    /// Whether the entry is marked deleted.
    pub fn is_deleted(&self) -> (r: bool)
        ensures
            r == self.spec_is_deleted(),
    {
        self.name[0] == DELETED_ENTRY_MARKER
    }

    /// Whether the entry is unused.
    pub fn is_free(&self) -> (r: bool)
        ensures
            r == self.spec_is_free(),
    {
        self.name[0] == 0x00
    }

    /// Whether the entry is a directory.
    pub fn is_directory(&self) -> (r: bool)
        ensures
            r == self.spec_is_directory(),
    {
        self.attributes & ATTR_DIRECTORY != 0
    }
}

/// An entry's encoding is 32 bytes long.
pub proof fn lemma_entry_bytes_len(e: DirEntry83)
    ensures
        e.spec_bytes().len() == 32,
        e.spec_bytes()[0] == e.name@[0],
        e.spec_bytes()[11] == e.attributes,
        e.spec_bytes().subrange(0, 8) == e.name@,
        e.spec_bytes().subrange(8, 11) == e.ext@,
        e.spec_bytes().subrange(12, 22) == e.reserved@,
        e.spec_bytes().subrange(22, 24) == spec_u16_to_le_bytes(e.time),
        e.spec_bytes().subrange(24, 26) == spec_u16_to_le_bytes(e.date),
        e.spec_bytes().subrange(26, 28) == spec_u16_to_le_bytes(e.start_cluster),
        e.spec_bytes().subrange(28, 32) == spec_u32_to_le_bytes(e.file_size),
{
    lemma_le16_bytes(spec_u16_to_le_bytes(e.time));
    vstd::bytes::lemma_auto_spec_u16_to_from_le_bytes();
    vstd::bytes::lemma_auto_spec_u32_to_from_le_bytes();
    assert(spec_u16_to_le_bytes(e.time).len() == 2);
    assert(spec_u16_to_le_bytes(e.date).len() == 2);
    assert(spec_u16_to_le_bytes(e.start_cluster).len() == 2);
    assert(spec_u32_to_le_bytes(e.file_size).len() == 4);
    assert(e.spec_bytes().subrange(0, 8) =~= e.name@);
    assert(e.spec_bytes().subrange(8, 11) =~= e.ext@);
    assert(e.spec_bytes().subrange(12, 22) =~= e.reserved@);
    assert(e.spec_bytes().subrange(22, 24) =~= spec_u16_to_le_bytes(e.time));
    assert(e.spec_bytes().subrange(24, 26) =~= spec_u16_to_le_bytes(e.date));
    assert(e.spec_bytes().subrange(26, 28) =~= spec_u16_to_le_bytes(e.start_cluster));
    assert(e.spec_bytes().subrange(28, 32) =~= spec_u32_to_le_bytes(e.file_size));
}

/// Two entries with the same bytes are the same entry.
pub proof fn lemma_entry_bytes_injective(a: DirEntry83, b: DirEntry83)
    requires
        a.spec_bytes() == b.spec_bytes(),
    ensures
        a == b,
{
    lemma_entry_bytes_len(a);
    lemma_entry_bytes_len(b);
    vstd::bytes::lemma_auto_spec_u16_to_from_le_bytes();
    vstd::bytes::lemma_auto_spec_u32_to_from_le_bytes();
    let x = a.spec_bytes();
    let y = b.spec_bytes();
    assert(spec_u16_to_le_bytes(a.time).len() == 2 && spec_u16_to_le_bytes(b.time).len() == 2);
    assert(spec_u16_to_le_bytes(a.date).len() == 2 && spec_u16_to_le_bytes(b.date).len() == 2);
    assert(a.name@ =~= b.name@);
    assert(a.name == b.name);
    assert(a.ext@ =~= b.ext@);
    assert(a.ext == b.ext);
    assert(a.reserved@ =~= x.subrange(12, 22));
    assert(b.reserved@ =~= y.subrange(12, 22));
    assert(a.reserved == b.reserved);
    assert(spec_u16_to_le_bytes(a.time) =~= x.subrange(22, 24));
    assert(spec_u16_to_le_bytes(b.time) =~= y.subrange(22, 24));
    assert(spec_u16_to_le_bytes(a.date) =~= x.subrange(24, 26));
    assert(spec_u16_to_le_bytes(b.date) =~= y.subrange(24, 26));
    assert(a.time == spec_u16_from_le_bytes(spec_u16_to_le_bytes(a.time)));
    assert(b.time == spec_u16_from_le_bytes(spec_u16_to_le_bytes(b.time)));
    assert(a.date == spec_u16_from_le_bytes(spec_u16_to_le_bytes(a.date)));
    assert(b.date == spec_u16_from_le_bytes(spec_u16_to_le_bytes(b.date)));
    assert(a.start_cluster == spec_u16_from_le_bytes(spec_u16_to_le_bytes(a.start_cluster)));
    assert(b.start_cluster == spec_u16_from_le_bytes(spec_u16_to_le_bytes(b.start_cluster)));
    assert(a.file_size == spec_u32_from_le_bytes(spec_u32_to_le_bytes(a.file_size)));
    assert(b.file_size == spec_u32_from_le_bytes(spec_u32_to_le_bytes(b.file_size)));
}

/// Reading an entry back from where it was written gives the entry:
/// `read_from` at `off` undoes `write_to` at `off`.
pub proof fn lemma_entry_roundtrip(e: DirEntry83, buf: Seq<u8>, off: int, decoded: DirEntry83)
    requires
        0 <= off,
        off + 32 <= buf.len(),
        decoded.spec_bytes() == (buf.subrange(0, off) + e.spec_bytes() + buf.subrange(off + 32, buf.len() as int)).subrange(
            off,
            off + 32,
        ),
    ensures
        decoded == e,
{
    lemma_entry_bytes_len(e);
    assert((buf.subrange(0, off) + e.spec_bytes() + buf.subrange(off + 32, buf.len() as int)).subrange(off, off + 32)
        =~= e.spec_bytes());
    lemma_entry_bytes_injective(decoded, e);
}

} // verus!
