//! In-memory block device.

use crate::filesys::{BlockDevice, FsError};
use vstd::prelude::*;
use vstd::slice::SliceAdditionalExecFns;

verus! {

/// Block device that stores its blocks in memory.
pub struct MemoryBlockDevice {
    /// Blocks of data, each `block_size` bytes.
    blocks: Vec<Vec<u8>>,
    /// Size of each block in bytes.
    block_size: usize,
}

impl MemoryBlockDevice {
    /// Every block has the block size.
    #[verifier::type_invariant]
    pub closed spec fn wf(&self) -> bool {
        forall|i: int| 0 <= i < self.blocks@.len() ==> (#[trigger] self.blocks@[i])@.len() == self.block_size
    }

    /// Creates a device of `total_blocks` zeroed blocks of `block_size` bytes.
    pub fn new(total_blocks: u64, block_size: usize) -> (r: Self)
        requires
            total_blocks <= usize::MAX,
        ensures
            r.spec_block_size() == block_size,
            r.blocks() == Seq::new(total_blocks as nat, |i: int| Seq::new(block_size as nat, |j: int| 0u8)),
    {
        let mut blocks: Vec<Vec<u8>> = Vec::new();
        let mut i: u64 = 0;
        while i < total_blocks
            invariant
                i <= total_blocks,
                blocks@.len() == i,
                forall|k: int| 0 <= k < i ==> (#[trigger] blocks@[k])@ == Seq::new(block_size as nat, |j: int| 0u8),
            decreases total_blocks - i,
        {
            let block = vec![0u8; block_size];
            proof {
                assert(block@ =~= Seq::new(block_size as nat, |j: int| 0u8));
            }
            blocks.push(block);
            i = i + 1;
        }
        let r = Self { blocks, block_size };
        proof {
            assert(r.blocks() =~= Seq::new(total_blocks as nat, |i: int| Seq::new(block_size as nat, |j: int| 0u8)));
        }
        r
    }

    /// Accepts a block number of the device; refuses others with `IOError`.
    fn validate_block(&self, block_num: u64) -> (r: Result<(), FsError>)
        ensures
            r is Ok <==> block_num < self.blocks@.len(),
            r is Err ==> r == Err::<(), FsError>(FsError::IOError),
    {
        if block_num >= self.blocks.len() as u64 {
            return Err(FsError::IOError);
        }
        Ok(())
    }

    /// Accepts a buffer of the block size; refuses others with `IOError`.
    fn validate_buffer(&self, buf: &[u8]) -> (r: Result<(), FsError>)
        ensures
            r is Ok <==> buf@.len() == self.block_size,
            r is Err ==> r == Err::<(), FsError>(FsError::IOError),
    {
        if buf.len() != self.block_size {
            return Err(FsError::IOError);
        }
        Ok(())
    }
}

impl BlockDevice for MemoryBlockDevice {
    closed spec fn blocks(&self) -> Seq<Seq<u8>> {
        self.blocks@.map_values(|b: Vec<u8>| b@)
    }

    closed spec fn spec_block_size(&self) -> nat {
        self.block_size as nat
    }

    /// A block in memory fails only when it is missing or the buffer has
    /// another size.
    open spec fn reliable(&self) -> bool {
        true
    }

    /// Reads a block into a buffer of the block size; a missing block or a
    /// buffer of another size is refused with `IOError`.
    fn read_block(&self, block_num: u64, buf: &mut [u8]) -> (r: Result<(), FsError>)
        ensures
            r is Ok <==> block_num < self.blocks().len() && old(buf)@.len() == self.spec_block_size(),
            r is Err ==> r == Err::<(), FsError>(FsError::IOError),
    {
        proof {
            use_type_invariant(self);
        }
        self.validate_block(block_num)?;
        self.validate_buffer(buf)?;
        let _count = self.blocks.len();
        let idx = block_num as usize;
        assert(idx == block_num);
        let block = &self.blocks[idx];
        proof {
            assert(self.blocks()[block_num as int] == self.blocks@[block_num as int]@);
        }
        let mut i: usize = 0;
        while i < buf.len()
            invariant
                i <= buf@.len(),
                buf@.len() == block@.len(),
                block@ == self.blocks()[block_num as int],
                forall|j: int| 0 <= j < i ==> buf@[j] == block@[j],
            decreases buf@.len() - i,
        {
            buf[i] = block[i];
            i = i + 1;
        }
        proof {
            assert(buf@ =~= self.blocks()[block_num as int]);
        }
        Ok(())
    }

    /// Writes a buffer of the block size over a block; a missing block or a
    /// buffer of another size is refused with `IOError`.
    fn write_block(&mut self, block_num: u64, buf: &[u8]) -> (r: Result<(), FsError>)
        ensures
            r is Ok <==> block_num < old(self).blocks().len() && buf@.len() == old(self).spec_block_size(),
            r is Err ==> r == Err::<(), FsError>(FsError::IOError),
    {
        proof {
            use_type_invariant(&*self);
        }
        self.validate_block(block_num)?;
        self.validate_buffer(buf)?;
        let ghost before = self.blocks();
        let mut block: Vec<u8> = Vec::new();
        let mut i: usize = 0;
        while i < buf.len()
            invariant
                i <= buf@.len(),
                block@ == buf@.take(i as int),
            decreases buf@.len() - i,
        {
            block.push(buf[i]);
            proof {
                assert(block@ =~= buf@.take(i as int + 1));
            }
            i = i + 1;
        }
        proof {
            assert(block@ =~= buf@);
        }
        let mut blocks: Vec<Vec<u8>> = Vec::new();
        core::mem::swap(&mut blocks, &mut self.blocks);
        let _count = blocks.len();
        let idx = block_num as usize;
        assert(idx == block_num);
        blocks.set(idx, block);
        self.blocks = blocks;
        proof {
            assert(self.blocks() =~= before.update(block_num as int, buf@));
        }
        Ok(())
    }

    fn block_size(&self) -> (r: usize) {
        self.block_size
    }

    fn total_blocks(&self) -> (r: u64) {
        self.blocks.len() as u64
    }
}

} // verus!
