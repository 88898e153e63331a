//! The decisions of the interrupt handlers: whether a page fault is the
//! user stack growing, and which system call the registers a process saved
//! ask for.

use crate::constants::{SYSCALL_EXIT, SYSCALL_NANOSLEEP, SYSCALL_PRINT};
use vstd::prelude::*;

verus! {

/// Bytes below the stack pointer a fault may lie and still count as the
/// stack growing.
pub const STACK_GROWTH_SLACK: u64 = 64;

/// Whether a page fault at `faulting_address`, taken with the stack pointer
/// at `stack_pointer`, is the stack growing: the address lies no more than
/// `STACK_GROWTH_SLACK` bytes below the stack pointer, or above it, and
/// below the kernel's direct map of physical memory at `hhdm_offset`.
pub fn page_fault_grows_stack(stack_pointer: u64, faulting_address: u64, hhdm_offset: u64) -> (r: bool)
    requires
        stack_pointer >= STACK_GROWTH_SLACK,
    ensures
        r == (stack_pointer - STACK_GROWTH_SLACK <= faulting_address && faulting_address
            < hhdm_offset),
{
    stack_pointer - STACK_GROWTH_SLACK <= faulting_address && faulting_address < hhdm_offset
}

/// A system call, with the arguments it uses.
#[derive(Debug, Clone, Copy, PartialEq, Eq, Structural)]
pub enum Syscall {
    /// End the calling process.
    Exit,
    /// Print a greeting.
    Print,
    /// Put the calling process to sleep for `nanos` nanoseconds.
    Nanosleep { nanos: u64 },
}

/// Words the system-call entry saves on the stack: the fifteen
/// general-purpose registers, `rax` first.
pub const SAVED_REGISTER_WORDS: usize = 15;

/// The system call that the registers saved by the system-call entry ask
/// for, `saved[0]` being `rax`: the call number is the low 32 bits of
/// `rax`, and the first argument is `rdi`, saved at `saved[5]`. Nothing
/// for an unknown number.
pub fn decode_syscall(saved: &[u64]) -> (r: Option<Syscall>)
    requires
        saved@.len() >= SAVED_REGISTER_WORDS,
    ensures
        r == if saved@[0] % 0x1_0000_0000 == SYSCALL_EXIT {
            Some(Syscall::Exit)
        } else if saved@[0] % 0x1_0000_0000 == SYSCALL_PRINT {
            Some(Syscall::Print)
        } else if saved@[0] % 0x1_0000_0000 == SYSCALL_NANOSLEEP {
            Some(Syscall::Nanosleep { nanos: saved@[5] })
        } else {
            None
        },
{
    let word = saved[0];
    let number = word as u32;
    assert(word as u32 == word % 0x1_0000_0000) by (bit_vector);
    if number == SYSCALL_EXIT {
        Some(Syscall::Exit)
    } else if number == SYSCALL_PRINT {
        Some(Syscall::Print)
    } else if number == SYSCALL_NANOSLEEP {
        Some(Syscall::Nanosleep { nanos: saved[5] })
    } else {
        None
    }
}

} // verus!
