//! Sizes and limits shared across the kernel.

use vstd::prelude::*;

verus! {

/// Size of a memory page in bytes.
pub const PAGE_SIZE: usize = 4096;

/// Size of a physical memory frame in bytes.
pub const FRAME_SIZE: usize = 4096;

/// Initial size of the kernel heap (1 MB).
pub const HEAP_SIZE: usize = 1048576;

/// Starting virtual address of the kernel heap.
pub const HEAP_START: u64 = 0x0000_4444_4444_0000;

/// Maximum number of frames that the boot allocator hands out.
pub const MAX_ALLOCATED_FRAMES: usize = 512;

/// Size of each bitmap entry in bits.
pub const BITMAP_ENTRY_SIZE: usize = 64;

/// Value representing a fully allocated bitmap entry.
pub const FULL_BITMAP_ENTRY: u64 = 0xFFFF_FFFF_FFFF_FFFF;

/// Maximum number of events that can be queued in the system.
pub const MAX_EVENTS: usize = 256;

/// Number of priority levels for event processing; a lower level runs first.
pub const NUM_EVENT_PRIORITIES: usize = 4;

/// Event-clock ticks an event may wait in a queue before it moves up a level.
pub const PRIORITY_INC_DELAY: u64 = 5;

/// Top of the user stack of a new process.
pub const STACK_START: u64 = 0x7000_0000_0000;

/// Size of the user stack of a new process (two pages).
pub const STACK_SIZE: usize = 8192;

/// Syscall numbers.
pub const SYSCALL_EXIT: u32 = 1;
pub const SYSCALL_NANOSLEEP: u32 = 2;
pub const SYSCALL_PRINT: u32 = 3;
pub const SYSCALL_MMAP: u32 = 4;
pub const SYSCALL_FORK: u32 = 5;

/// First virtual address handed out by `mmap`.
pub const START_MMAP_ADDRESS: u64 = 0x0900_0000_0000;

/// Interrupts per second of each core's timer.
pub const TIMER_FREQUENCY: u32 = 1000;

/// Nanoseconds between two timer interrupts.
pub const NANOS_PER_TICK: u64 = 1_000_000;

/// Vector of the timer interrupt.
pub const TIMER_VECTOR: u8 = 32;

/// Vector of the system-call interrupt.
pub const SYSCALL_HANDLER: u8 = 0x80;

} // verus!
