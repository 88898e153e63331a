//! Physical frame allocation.

pub mod bitmap_frame_allocator;
pub mod boot_frame_allocator;
pub mod tlb;

use vstd::prelude::*;

verus! {

/// A region of the physical memory map handed over by the boot loader.
#[derive(Debug, Clone, Copy, PartialEq, Eq, Structural)]
pub struct MemoryRegion {
    /// First address of the region.
    pub base: u64,
    /// Length of the region in bytes.
    pub length: u64,
    /// Whether the boot loader marks the region as usable memory.
    pub usable: bool,
}

} // verus!
