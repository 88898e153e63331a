//! Verified core of the TAOS kernel: the logic that decides, computes and
//! encodes, separated from the code that touches hardware.

pub mod constants;
pub mod filesys;
pub mod ipc;
pub mod memory;
pub mod syscalls;
pub mod interrupts;
pub mod processes;
pub mod events;
pub mod devices;
pub mod qemu;
