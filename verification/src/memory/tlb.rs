//! Shooting down a stale translation on every other core: which cores are
//! told to flush which address.

use crate::interrupts::x2apic::MAX_CORES;
use vstd::prelude::*;

verus! {

/// The cores a shootdown from `current_core` interrupts, in order: every
/// core but the current one.
pub open spec fn shootdown_targets(current_core: usize) -> Seq<u32> {
    Seq::new(
        if current_core < MAX_CORES {
            (MAX_CORES - 1) as nat
        } else {
            MAX_CORES as nat
        },
        |k: int|
            if k < current_core {
                k as u32
            } else {
                (k + 1) as u32
            },
    )
}

/// Where core `c` stands among the cores a shootdown from `current_core`
/// interrupts.
pub open spec fn target_index(current_core: usize, c: int) -> int {
    if c < current_core {
        c
    } else {
        c - 1
    }
}

/// The cores a shootdown interrupts are exactly the cores other than the
/// current one, each once, in increasing order.
pub proof fn lemma_shootdown_targets(current_core: usize)
    ensures
        forall|c: int|
            0 <= c < MAX_CORES && c != current_core ==> {
                let k = #[trigger] target_index(current_core, c);
                0 <= k < shootdown_targets(current_core).len() && shootdown_targets(current_core)[k] == c
            },
        forall|k: int|
            0 <= k < shootdown_targets(current_core).len() ==> #[trigger] shootdown_targets(current_core)[k]
                < MAX_CORES && shootdown_targets(current_core)[k] != current_core,
        forall|a: int, b: int|
            0 <= a < b < shootdown_targets(current_core).len() ==> shootdown_targets(current_core)[a]
                < shootdown_targets(current_core)[b],
{
}

/// Records `vaddr` as the address every core but `current_core` must
/// flush, in `addresses`, which holds one address per core, and gives the
/// cores to send the shootdown interrupt to, in order.
pub fn tlb_shootdown(addresses: &mut Vec<u64>, current_core: usize, vaddr: u64) -> (r: Vec<u32>)
    requires
        old(addresses)@.len() == MAX_CORES,
    ensures
        final(addresses)@.len() == MAX_CORES,
        forall|i: int|
            0 <= i < MAX_CORES ==> #[trigger] final(addresses)@[i] == if i == current_core {
                old(addresses)@[i]
            } else {
                vaddr
            },
        r@ == shootdown_targets(current_core),
{
    let mut targets: Vec<u32> = Vec::new();
    let mut core: usize = 0;
    while core < MAX_CORES
        invariant
            core <= MAX_CORES,
            addresses@.len() == MAX_CORES,
            forall|i: int|
                0 <= i < MAX_CORES ==> #[trigger] addresses@[i] == if i < core && i
                    != current_core {
                    vaddr
                } else {
                    old(addresses)@[i]
                },
            targets@.len() == if current_core < core {
                core - 1
            } else {
                core as int
            },
            forall|k: int|
                0 <= k < targets@.len() ==> #[trigger] targets@[k] == if k < current_core {
                    k as u32
                } else {
                    (k + 1) as u32
                },
        decreases MAX_CORES - core,
    {
        if core != current_core {
            addresses.set(core, vaddr);
            targets.push(core as u32);
        }
        core = core + 1;
    }
    assert(targets@ =~= shootdown_targets(current_core));
    targets
}

} // verus!
