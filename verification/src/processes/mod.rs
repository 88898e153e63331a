//! Processes: their registers, their states and how their programs are
//! laid out in memory.

pub mod loader;
pub mod process;
pub mod registers;

use vstd::prelude::*;

verus! {

/// Whether bringing up core `cpu_id` creates the placeholder process: only
/// the first core does.
pub fn init(cpu_id: u32) -> (r: bool)
    ensures
        r == (cpu_id == 0),
{
    cpu_id == 0
}

} // verus!
