//! FAT16 file allocation table entry.

use vstd::prelude::*;

verus! {

/// A 16-bit FAT entry: the next cluster of a chain, or a special value
/// (0 = free, 0xFFF8 and above = end of chain).
#[derive(Debug, Clone, Copy, PartialEq, Eq, Structural)]
pub struct FatEntry {
    pub cluster: u16,
}

impl FatEntry {
    /// Whether this entry ends a cluster chain.
    pub fn is_end_of_chain(&self) -> (r: bool)
        ensures
            r == (self.cluster >= 0xFFF8),
    {
        self.cluster >= 0xFFF8
    }

    /// Whether this cluster is unused.
    pub fn is_free(&self) -> (r: bool)
        ensures
            r == (self.cluster == 0),
    {
        self.cluster == 0
    }
}

} // verus!
