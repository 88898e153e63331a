//! File systems over block devices.

pub mod block;
pub mod fat16;

use vstd::prelude::*;

verus! {

/// Errors of the file system operations.
#[derive(Debug, Clone, Copy, PartialEq, Eq, Structural)]
pub enum FsError {
    NotFound,
    AlreadyExists,
    InvalidName,
    IOError,
    NotSupported,
    DirectoryNotEmpty,
    InvalidOffset,
    NoSpace,
}

/// A device that stores fixed-size blocks and can read and write them.
pub trait BlockDevice {
    /// The contents of every block, in order.
    spec fn blocks(&self) -> Seq<Seq<u8>>;

    /// The size of every block in bytes.
    spec fn spec_block_size(&self) -> nat;

    /// Whether the device fails only where it must: a read or a write
    /// succeeds exactly when the block exists and the buffer has the block
    /// size, and fails otherwise with `IOError`. A device that may fail on
    /// its own (hardware, a bus) makes no such claim.
    spec fn reliable(&self) -> bool;

    /// Copies block `block_num` into `buf`. On success the block exists and
    /// `buf` holds its bytes; on failure `buf` is left alone.
    fn read_block(&self, block_num: u64, buf: &mut [u8]) -> (r: Result<(), FsError>)
        ensures
            final(buf)@.len() == old(buf)@.len(),
            r is Ok ==> block_num < self.blocks().len() && final(buf)@ == self.blocks()[block_num as int],
            r is Err ==> final(buf)@ == old(buf)@,
            self.reliable() ==> (r is Ok <==> block_num < self.blocks().len() && old(buf)@.len()
                == self.spec_block_size()),
            self.reliable() && r is Err ==> r == Err::<(), FsError>(FsError::IOError),
    ;

    /// Writes `buf` over block `block_num`. On success the block exists, `buf`
    /// has the block size and only that block changes; on failure nothing
    /// changes.
    fn write_block(&mut self, block_num: u64, buf: &[u8]) -> (r: Result<(), FsError>)
        ensures
            final(self).spec_block_size() == old(self).spec_block_size(),
            r is Ok ==> block_num < old(self).blocks().len() && buf@.len() == old(self).spec_block_size()
                && final(self).blocks() == old(self).blocks().update(block_num as int, buf@),
            r is Err ==> final(self).blocks() == old(self).blocks(),
            final(self).reliable() == old(self).reliable(),
            old(self).reliable() ==> (r is Ok <==> block_num < old(self).blocks().len() && buf@.len()
                == old(self).spec_block_size()),
            old(self).reliable() && r is Err ==> r == Err::<(), FsError>(FsError::IOError),
    ;

    /// The size of every block in bytes.
    fn block_size(&self) -> (r: usize)
        ensures
            r == self.spec_block_size(),
    ;

    /// The number of blocks.
    fn total_blocks(&self) -> (r: u64)
        ensures
            r == self.blocks().len(),
    ;
}

/// An open file whose contents live on a block device.
pub trait File {
    /// Whether the file can be read from its position.
    spec fn ready_to_read(&self) -> bool;

    /// Whether `len` bytes can be written at its position.
    spec fn ready_to_write(&self, len: nat) -> bool;

    /// The position in the file.
    spec fn spec_position(&self) -> u64;

    /// Reads from the position into `buf`; returns how many bytes were read.
    fn read_with_device<D: BlockDevice>(&mut self, device: &mut D, buf: &mut [u8]) -> (r: Result<
        usize,
        FsError,
    >)
        requires
            old(self).ready_to_read(),
        ensures
            final(device).reliable() == old(device).reliable(),
            final(self).ready_to_read(),
            r matches Ok(n) ==> n <= old(buf)@.len() && final(self).spec_position() == old(self).spec_position() + n,
    ;

    /// Writes `buf` at the position; returns how many bytes were written.
    fn write_with_device<D: BlockDevice>(&mut self, device: &mut D, buf: &[u8]) -> (r: Result<
        usize,
        FsError,
    >)
        requires
            old(self).ready_to_write(buf@.len()),
        ensures
            final(device).reliable() == old(device).reliable(),
            r matches Ok(n) ==> n == buf@.len() && final(self).spec_position() == old(self).spec_position() + n,
    ;

    /// Moves the position; returns the new one.
    fn seek(&mut self, pos: SeekFrom) -> (r: Result<u64, FsError>)
        ensures
            r matches Ok(p) ==> final(self).spec_position() == p,
            r is Err ==> final(self).spec_position() == old(self).spec_position(),
    ;

    /// Writes out whatever is buffered.
    fn flush(&mut self) -> (r: Result<(), FsError>);

    /// The size of the file in bytes.
    fn size(&self) -> u64;
}

/// A file system: files and directories named by `/`-separated paths.
pub trait FileSystem {
    /// The file system's invariant.
    spec fn fs_wf(&self) -> bool;

    /// How many descriptors have been handed out.
    spec fn fd_count(&self) -> nat;

    /// Whether descriptor `fd` is open.
    spec fn fd_open(&self, fd: usize) -> bool;

    /// Creates an empty file.
    fn create_file(&mut self, path: &str) -> (r: Result<(), FsError>)
        requires
            old(self).fs_wf(),
        ensures
            final(self).fs_wf(),
            final(self).fd_count() == old(self).fd_count(),
    ;

    /// Creates an empty directory.
    fn create_dir(&mut self, path: &str) -> (r: Result<(), FsError>)
        requires
            old(self).fs_wf(),
        ensures
            final(self).fs_wf(),
            final(self).fd_count() == old(self).fd_count(),
    ;

    /// Removes a file.
    fn remove_file(&mut self, path: &str) -> (r: Result<(), FsError>)
        requires
            old(self).fs_wf(),
        ensures
            final(self).fs_wf(),
            final(self).fd_count() == old(self).fd_count(),
    ;

    /// Removes an empty directory.
    fn remove_dir(&mut self, path: &str) -> (r: Result<(), FsError>)
        requires
            old(self).fs_wf(),
        ensures
            final(self).fs_wf(),
            final(self).fd_count() == old(self).fd_count(),
    ;

    /// Opens a file and returns its descriptor.
    fn open_file(&mut self, path: &str) -> (r: Result<usize, FsError>)
        requires
            old(self).fs_wf(),
        ensures
            final(self).fs_wf(),
            final(self).fd_count() >= old(self).fd_count(),
            r matches Ok(fd) ==> fd < final(self).fd_count() && final(self).fd_open(fd),
    ;

    /// Closes an open descriptor.
    fn close_file(&mut self, fd: usize)
        requires
            old(self).fs_wf(),
            old(self).fd_open(fd),
        ensures
            final(self).fs_wf(),
            final(self).fd_count() == old(self).fd_count(),
            !final(self).fd_open(fd),
    ;

    /// Writes `buf` at the position of descriptor `fd`.
    fn write_file(&mut self, fd: usize, buf: &[u8]) -> (r: Result<usize, FsError>)
        requires
            old(self).fs_wf(),
            fd < old(self).fd_count(),
        ensures
            final(self).fs_wf(),
            final(self).fd_count() == old(self).fd_count(),
            r matches Ok(n) ==> n == buf@.len(),
    ;

    /// Moves the position of descriptor `fd`.
    fn seek_file(&mut self, fd: usize, pos: SeekFrom) -> (r: Result<u64, FsError>)
        requires
            old(self).fs_wf(),
            fd < old(self).fd_count(),
        ensures
            final(self).fs_wf(),
            final(self).fd_count() == old(self).fd_count(),
    ;

    /// Reads from the position of descriptor `fd` into `buf`.
    fn read_file(&mut self, fd: usize, buf: &mut [u8]) -> (r: Result<usize, FsError>)
        requires
            old(self).fs_wf(),
            fd < old(self).fd_count(),
        ensures
            final(self).fs_wf(),
            final(self).fd_count() == old(self).fd_count(),
            r matches Ok(n) ==> n <= old(buf)@.len(),
    ;

    /// Lists a directory.
    fn read_dir(&self, path: &str) -> (r: Result<Vec<DirEntry>, FsError>)
        requires
            self.fs_wf(),
    ;

    /// The metadata of a file or directory.
    fn metadata(&self, path: &str) -> (r: Result<FileMetadata, FsError>)
        requires
            self.fs_wf(),
    ;

    /// Moves a file or directory.
    fn rename(&mut self, from: &str, to: &str) -> (r: Result<(), FsError>)
        requires
            old(self).fs_wf(),
        ensures
            final(self).fs_wf(),
            final(self).fd_count() == old(self).fd_count(),
    ;
}

/// An entry of a directory listing.
#[derive(Debug, Clone)]
pub struct DirEntry {
    pub name: String,
    pub metadata: FileMetadata,
}

/// File metadata information.
#[derive(Debug, Clone, Copy, PartialEq, Eq, Structural)]
pub struct FileMetadata {
    pub size: u64,
    pub is_dir: bool,
    pub created: u64,
    pub modified: u64,
    pub permissions: FilePermissions,
}

#[derive(Debug, Clone, Copy, PartialEq, Eq, Structural)]
pub struct FilePermissions {
    pub readable: bool,
    pub writable: bool,
    pub executable: bool,
}

/// Seek positions for file operations.
#[derive(Debug, Clone, Copy, PartialEq, Eq, Structural)]
pub enum SeekFrom {
    Start(u64),
    Current(i64),
    End(i64),
}

/// The blocks after the successful writes `writes` (block number and
/// contents, in order) on `blocks`, as `write_block` says each one does.
pub open spec fn apply_writes(blocks: Seq<Seq<u8>>, writes: Seq<(int, Seq<u8>)>) -> Seq<Seq<u8>>
    decreases writes.len(),
{
    if writes.len() == 0 {
        blocks
    } else {
        apply_writes(blocks, writes.drop_last()).update(writes.last().0, writes.last().1)
    }
}

/// What the last of `writes` to block `n` wrote, or the block as it was
/// when none wrote it.
pub open spec fn last_written(blocks: Seq<Seq<u8>>, writes: Seq<(int, Seq<u8>)>, n: int) -> Seq<u8>
    decreases writes.len(),
{
    if writes.len() == 0 {
        blocks[n]
    } else if writes.last().0 == n {
        writes.last().1
    } else {
        last_written(blocks, writes.drop_last(), n)
    }
}

/// After any sequence of successful writes, a block reads back what the
/// last write to it wrote, or what it held when none did; the number of
/// blocks does not change.
pub proof fn lemma_reads_after_writes(blocks: Seq<Seq<u8>>, writes: Seq<(int, Seq<u8>)>, n: int)
    requires
        0 <= n < blocks.len(),
        forall|k: int| 0 <= k < writes.len() ==> 0 <= (#[trigger] writes[k]).0 < blocks.len(),
    ensures
        apply_writes(blocks, writes).len() == blocks.len(),
        apply_writes(blocks, writes)[n] == last_written(blocks, writes, n),
    decreases writes.len(),
{
    if writes.len() > 0 {
        let w = writes.drop_last();
        assert forall|k: int| 0 <= k < w.len() implies 0 <= (#[trigger] w[k]).0 < blocks.len() by {
            assert(w[k] == writes[k]);
        }
        lemma_reads_after_writes(blocks, w, n);
        assert(writes.last() == writes[writes.len() - 1]);
    }
}

/// What a block device gives back for a block is what was last written to
/// it; the other blocks keep their contents.
pub proof fn lemma_block_read_after_write(blocks: Seq<Seq<u8>>, n: int, data: Seq<u8>, other: int)
    requires
        0 <= n < blocks.len(),
        0 <= other < blocks.len(),
        other != n,
    ensures
        blocks.update(n, data)[n] == data,
        blocks.update(n, data)[other] == blocks[other],
{
}

} // verus!
