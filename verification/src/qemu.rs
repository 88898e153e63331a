//! How the kernel tells the emulator it runs in how its tests went.

use vstd::prelude::*;

verus! {

/// I/O port of the emulator's exit device.
pub const QEMU_EXIT_PORT: u16 = 0xf4;

/// The outcome of a test run, as reported to the emulator.
#[derive(Debug, Clone, Copy, PartialEq, Eq, Structural)]
pub enum QemuExitCode {
    Success,
    Failed,
}

impl QemuExitCode {
    /// The word written to the exit device.
    pub fn code(self) -> (r: u32)
        ensures
            r == match self {
                QemuExitCode::Success => 0x10u32,
                QemuExitCode::Failed => 0x11u32,
            },
    {
        match self {
            QemuExitCode::Success => 0x10,
            QemuExitCode::Failed => 0x11,
        }
    }
}

} // verus!
