//! Process states, process control blocks and the process table.
//!
//! The table hands out process identifiers from a counter that starts at 1,
//! so that 0 never names a process, and keeps the blocks ordered by
//! identifier.

use crate::processes::registers::Registers;
use vstd::prelude::*;

verus! {

/// Where a process is in its life.
#[derive(Debug, Clone, Copy, PartialEq, Eq, Structural)]
pub enum ProcessState {
    New,
    Ready,
    Running,
    Blocked,
    Terminated,
}

/// What the kernel keeps of a process.
#[derive(Clone, Copy, PartialEq, Eq, Structural)]
pub struct PCB {
    /// The process identifier.
    pub pid: u32,
    /// Where the process is in its life.
    pub state: ProcessState,
    /// The kernel stack pointer to return to when the process leaves.
    pub kernel_rsp: u64,
    /// The kernel instruction pointer to return to when the process leaves.
    pub kernel_rip: u64,
    /// The registers the process starts or resumes with.
    pub registers: Registers,
    /// Physical address of the process' top-level page table.
    pub pml4_frame: u64,
}

/// Flags of a new process: interrupts enabled, and the bit that is always
/// set.
pub const INITIAL_RFLAGS: u64 = 0x202;

/// The registers of a new process: all zero but the stack pointer, the
/// instruction pointer and the flags.
pub open spec fn spec_initial_registers(stack_top: u64, entry_point: u64) -> Registers {
    Registers {
        rax: 0,
        rbx: 0,
        rcx: 0,
        rdx: 0,
        rsi: 0,
        rdi: 0,
        r8: 0,
        r9: 0,
        r10: 0,
        r11: 0,
        r12: 0,
        r13: 0,
        r14: 0,
        r15: 0,
        rbp: 0,
        rsp: stack_top,
        rip: entry_point,
        rflags: INITIAL_RFLAGS,
    }
}

/// The block of a process just created.
pub open spec fn spec_new_pcb(pid: u32, stack_top: u64, entry_point: u64, pml4_frame: u64) -> PCB {
    PCB {
        pid,
        state: ProcessState::New,
        kernel_rsp: 0,
        kernel_rip: 0,
        registers: spec_initial_registers(stack_top, entry_point),
        pml4_frame,
    }
}

fn initial_registers(stack_top: u64, entry_point: u64) -> (r: Registers)
    ensures
        r == spec_initial_registers(stack_top, entry_point),
{
    let mut r = Registers::new();
    r.rsp = stack_top;
    r.rip = entry_point;
    r.rflags = INITIAL_RFLAGS;
    r
}

/// Whether some block of `s` is that of process `pid`.
pub open spec fn has_pid(s: Seq<PCB>, pid: u32) -> bool {
    exists|i: int| 0 <= i < s.len() && #[trigger] s[i].pid == pid
}

/// The block of process `pid` in `s`, if there is one.
pub open spec fn pcb_lookup(s: Seq<PCB>, pid: u32) -> Option<PCB> {
    if has_pid(s, pid) {
        Some(s[choose|i: int| 0 <= i < s.len() && #[trigger] s[i].pid == pid])
    } else {
        None
    }
}

/// Whether the identifiers of `s` strictly increase.
pub open spec fn pids_increasing(s: Seq<PCB>) -> bool {
    forall|i: int, j: int| 0 <= i < j < s.len() ==> #[trigger] s[i].pid < #[trigger] s[j].pid
}

proof fn lemma_lookup_at(s: Seq<PCB>, i: int)
    requires
        pids_increasing(s),
        0 <= i < s.len(),
    ensures
        pcb_lookup(s, s[i].pid) == Some(s[i]),
{
    let pid = s[i].pid;
    assert(has_pid(s, pid));
    let k = choose|k: int| 0 <= k < s.len() && #[trigger] s[k].pid == pid;
    if k < i {
        assert(s[k].pid < s[i].pid);
    } else if i < k {
        assert(s[i].pid < s[k].pid);
    }
}

proof fn lemma_lookup_push(s: Seq<PCB>, p: PCB, q: u32)
    requires
        pids_increasing(s),
        q != p.pid,
    ensures
        pcb_lookup(s.push(p), q) == pcb_lookup(s, q),
{
    let t = s.push(p);
    if has_pid(t, q) {
        let k = choose|k: int| 0 <= k < t.len() && #[trigger] t[k].pid == q;
        assert(k < s.len());
        assert(s[k].pid == q);
        lemma_lookup_at(s, k);
    } else {
        if has_pid(s, q) {
            let k = choose|k: int| 0 <= k < s.len() && #[trigger] s[k].pid == q;
            assert(t[k].pid == q);
        }
    }
}

proof fn lemma_lookup_update(s: Seq<PCB>, i: int, p: PCB, q: u32)
    requires
        pids_increasing(s),
        0 <= i < s.len(),
        p.pid == s[i].pid,
    ensures
        pids_increasing(s.update(i, p)),
        pcb_lookup(s.update(i, p), q) == if q == p.pid {
            Some(p)
        } else {
            pcb_lookup(s, q)
        },
{
    let t = s.update(i, p);
    assert(pids_increasing(t)) by {
        assert forall|a: int, b: int| 0 <= a < b < t.len() implies #[trigger] t[a].pid
            < #[trigger] t[b].pid by {
            assert(s[a].pid < s[b].pid);
        }
    }
    if q == p.pid {
        lemma_lookup_at(t, i);
    } else if has_pid(t, q) {
        let k = choose|k: int| 0 <= k < t.len() && #[trigger] t[k].pid == q;
        assert(k != i);
        assert(s[k].pid == q);
        lemma_lookup_at(s, k);
        lemma_lookup_at(t, k);
    } else if has_pid(s, q) {
        let k = choose|k: int| 0 <= k < s.len() && #[trigger] s[k].pid == q;
        assert(k != i);
        assert(t[k].pid == q);
    }
}

proof fn lemma_lookup_remove(s: Seq<PCB>, i: int, q: u32)
    requires
        pids_increasing(s),
        0 <= i < s.len(),
    ensures
        pids_increasing(s.remove(i)),
        pcb_lookup(s.remove(i), q) == if q == s[i].pid {
            None
        } else {
            pcb_lookup(s, q)
        },
{
    let t = s.remove(i);
    assert(pids_increasing(t)) by {
        assert forall|a: int, b: int| 0 <= a < b < t.len() implies #[trigger] t[a].pid
            < #[trigger] t[b].pid by {
            let a0 = if a < i { a } else { a + 1 };
            let b0 = if b < i { b } else { b + 1 };
            assert(t[a] == s[a0]);
            assert(t[b] == s[b0]);
            assert(s[a0].pid < s[b0].pid);
        }
    }
    if has_pid(t, q) {
        let k = choose|k: int| 0 <= k < t.len() && #[trigger] t[k].pid == q;
        let k0 = if k < i { k } else { k + 1 };
        assert(t[k] == s[k0]);
        if q == s[i].pid {
            assert(k0 != i);
            if k0 < i {
                assert(s[k0].pid < s[i].pid);
            } else {
                assert(s[i].pid < s[k0].pid);
            }
        } else {
            lemma_lookup_at(s, k0);
            lemma_lookup_at(t, k);
        }
    } else if has_pid(s, q) {
        let k = choose|k: int| 0 <= k < s.len() && #[trigger] s[k].pid == q;
        if k != i {
            let k1 = if k < i { k } else { k - 1 };
            assert(t[k1] == s[k]);
            assert(t[k1].pid == q);
        }
    }
}

/// The process table: the blocks of the live processes, ordered by
/// identifier, and the identifier the next process gets.
pub struct ProcessTable {
    next_pid: u32,
    pcbs: Vec<PCB>,
}

impl ProcessTable {
    /// The identifier the next process gets.
    pub closed spec fn spec_next_pid(&self) -> u32 {
        self.next_pid
    }

    /// The blocks of the live processes, ordered by identifier.
    pub closed spec fn spec_entries(&self) -> Seq<PCB> {
        self.pcbs@
    }

    /// The identifiers in the table strictly increase, and each lies
    /// between 1 and the next identifier to give out.
    pub open spec fn wf(&self) -> bool {
        &&& 1 <= self.spec_next_pid()
        &&& pids_increasing(self.spec_entries())
        &&& forall|i: int|
            0 <= i < self.spec_entries().len() ==> 1 <= #[trigger] self.spec_entries()[i].pid
                < self.spec_next_pid()
    }

    /// The block of process `pid`, if it is in the table.
    pub open spec fn lookup(&self, pid: u32) -> Option<PCB> {
        pcb_lookup(self.spec_entries(), pid)
    }

    /// An empty table whose first process gets identifier 1.
    pub fn new() -> (r: Self)
        ensures
            r.wf(),
            r.spec_next_pid() == 1,
            r.spec_entries() == Seq::<PCB>::empty(),
    {
        ProcessTable { next_pid: 1, pcbs: Vec::new() }
    }

    /// The identifier the next process gets.
    pub fn next_pid(&self) -> (r: u32)
        ensures
            r == self.spec_next_pid(),
    {
        self.next_pid
    }

    /// The blocks of the live processes, ordered by identifier.
    pub fn entries(&self) -> (r: &Vec<PCB>)
        ensures
            r@ == self.spec_entries(),
    {
        &self.pcbs
    }

    fn index_of(&self, pid: u32) -> (r: Option<usize>)
        requires
            self.wf(),
        ensures
            match r {
                Some(i) => i < self.spec_entries().len() && self.spec_entries()[i as int].pid
                    == pid,
                None => !has_pid(self.spec_entries(), pid),
            },
    {
        let mut i: usize = 0;
        while i < self.pcbs.len()
            invariant
                i <= self.pcbs@.len(),
                forall|k: int| 0 <= k < i ==> #[trigger] self.pcbs@[k].pid != pid,
            decreases self.pcbs@.len() - i,
        {
            if self.pcbs[i].pid == pid {
                return Some(i);
            }
            i = i + 1;
        }
        None
    }

    /// The block of process `pid`, if it is in the table.
    pub fn get(&self, pid: u32) -> (r: Option<PCB>)
        requires
            self.wf(),
        ensures
            r == self.lookup(pid),
    {
        match self.index_of(pid) {
            Some(i) => {
                proof {
                    lemma_lookup_at(self.spec_entries(), i as int);
                }
                Some(self.pcbs[i])
            },
            None => None,
        }
    }

    /// Registers a new process that starts at `entry_point` with its stack
    /// pointer at `stack_top` and its page tables at `pml4_frame`, in state
    /// `New`, under the next identifier, which it returns.
    pub fn create_process(&mut self, stack_top: u64, entry_point: u64, pml4_frame: u64) -> (r: u32)
        requires
            old(self).wf(),
            old(self).spec_next_pid() < u32::MAX,
        ensures
            final(self).wf(),
            r == old(self).spec_next_pid(),
            final(self).spec_next_pid() == r + 1,
            old(self).lookup(r) is None,
            final(self).lookup(r) == Some(spec_new_pcb(r, stack_top, entry_point, pml4_frame)),
            forall|q: u32| q != r ==> #[trigger] final(self).lookup(q) == old(self).lookup(q),
            final(self).spec_entries() == old(self).spec_entries().push(
                spec_new_pcb(r, stack_top, entry_point, pml4_frame),
            ),
    {
        let pid = self.next_pid;
        let pcb = PCB {
            pid,
            state: ProcessState::New,
            kernel_rsp: 0,
            kernel_rip: 0,
            registers: initial_registers(stack_top, entry_point),
            pml4_frame,
        };
        let ghost s0 = self.pcbs@;
        proof {
            if has_pid(s0, pid) {
                let k = choose|k: int| 0 <= k < s0.len() && #[trigger] s0[k].pid == pid;
                assert(s0[k].pid < self.next_pid);
            }
        }
        self.pcbs.push(pcb);
        self.next_pid = pid + 1;
        proof {
            let s1 = self.pcbs@;
            assert(pids_increasing(s1)) by {
                assert forall|a: int, b: int| 0 <= a < b < s1.len() implies #[trigger] s1[a].pid
                    < #[trigger] s1[b].pid by {
                    if b == s0.len() {
                        assert(s0[a].pid < pid);
                    } else {
                        assert(s0[a].pid < s0[b].pid);
                    }
                }
            }
            lemma_lookup_at(s1, s0.len() as int);
            assert forall|q: u32| q != pid implies #[trigger] pcb_lookup(s1, q) == pcb_lookup(
                s0,
                q,
            ) by {
                lemma_lookup_push(s0, pcb, q);
            }
        }
        pid
    }

    /// Marks process `pid` as running and gives back its block, with the
    /// registers and page tables it is to run with.
    pub fn start_running(&mut self, pid: u32) -> (r: PCB)
        requires
            old(self).wf(),
            old(self).lookup(pid) is Some,
        ensures
            final(self).wf(),
            final(self).spec_next_pid() == old(self).spec_next_pid(),
            r == (PCB { state: ProcessState::Running, ..old(self).lookup(pid)->0 }),
            final(self).lookup(pid) == Some(r),
            forall|q: u32| q != pid ==> #[trigger] final(self).lookup(q) == old(self).lookup(q),
    {
        let i = self.index_of(pid).unwrap();
        proof {
            lemma_lookup_at(self.spec_entries(), i as int);
        }
        let mut p = self.pcbs[i];
        p.state = ProcessState::Running;
        let ghost s0 = self.pcbs@;
        self.pcbs.set(i, p);
        proof {
            assert forall|q: u32| true implies #[trigger] pcb_lookup(self.pcbs@, q) == if q
                == p.pid {
                Some(p)
            } else {
                pcb_lookup(s0, q)
            } by {
                lemma_lookup_update(s0, i as int, p, q);
            }
            lemma_lookup_update(s0, i as int, p, pid);
            assert forall|k: int| 0 <= k < self.pcbs@.len() implies 1 <= #[trigger] self.pcbs@[k].pid
                < self.next_pid by {
                assert(self.pcbs@[k].pid == s0[k].pid);
            }
        }
        p
    }

    /// Records where the kernel resumes when process `pid` leaves.
    pub fn set_kernel_return(&mut self, pid: u32, kernel_rsp: u64, kernel_rip: u64)
        requires
            old(self).wf(),
            old(self).lookup(pid) is Some,
        ensures
            final(self).wf(),
            final(self).spec_next_pid() == old(self).spec_next_pid(),
            final(self).lookup(pid) == Some(
                PCB { kernel_rsp, kernel_rip, ..old(self).lookup(pid)->0 },
            ),
            forall|q: u32| q != pid ==> #[trigger] final(self).lookup(q) == old(self).lookup(q),
    {
        let i = self.index_of(pid).unwrap();
        proof {
            lemma_lookup_at(self.spec_entries(), i as int);
        }
        let mut p = self.pcbs[i];
        p.kernel_rsp = kernel_rsp;
        p.kernel_rip = kernel_rip;
        let ghost s0 = self.pcbs@;
        self.pcbs.set(i, p);
        proof {
            assert forall|q: u32| true implies #[trigger] pcb_lookup(self.pcbs@, q) == if q
                == p.pid {
                Some(p)
            } else {
                pcb_lookup(s0, q)
            } by {
                lemma_lookup_update(s0, i as int, p, q);
            }
            lemma_lookup_update(s0, i as int, p, pid);
            assert forall|k: int| 0 <= k < self.pcbs@.len() implies 1 <= #[trigger] self.pcbs@[k].pid
                < self.next_pid by {
                assert(self.pcbs@[k].pid == s0[k].pid);
            }
        }
    }

    /// Ends process `pid`: takes its block out of the table and gives it
    /// back marked terminated, with the kernel stack and instruction
    /// pointers to resume at. Identifier 0 names no process.
    pub fn exit_process(&mut self, pid: u32) -> (r: PCB)
        requires
            old(self).wf(),
            pid != 0,
            old(self).lookup(pid) is Some,
        ensures
            final(self).wf(),
            final(self).spec_next_pid() == old(self).spec_next_pid(),
            r == (PCB { state: ProcessState::Terminated, ..old(self).lookup(pid)->0 }),
            final(self).lookup(pid) is None,
            forall|q: u32| q != pid ==> #[trigger] final(self).lookup(q) == old(self).lookup(q),
    {
        let i = self.index_of(pid).unwrap();
        proof {
            lemma_lookup_at(self.spec_entries(), i as int);
        }
        let ghost s0 = self.pcbs@;
        let mut p = self.pcbs.remove(i);
        p.state = ProcessState::Terminated;
        proof {
            assert forall|q: u32| true implies #[trigger] pcb_lookup(self.pcbs@, q) == if q
                == pid {
                None
            } else {
                pcb_lookup(s0, q)
            } by {
                lemma_lookup_remove(s0, i as int, q);
            }
            lemma_lookup_remove(s0, i as int, pid);
            assert forall|k: int| 0 <= k < self.pcbs@.len() implies 1 <= #[trigger] self.pcbs@[k].pid
                < self.next_pid by {
                let k0 = if k < i { k } else { k + 1 };
                assert(self.pcbs@[k] == s0[k0]);
            }
        }
        p
    }

    /// Hands out the identifier of a child of process `parent_pid`; the
    /// table itself stays as it is.
    pub fn fork(&mut self, parent_pid: u32) -> (r: u32)
        requires
            old(self).wf(),
            old(self).lookup(parent_pid) is Some,
            old(self).spec_next_pid() < u32::MAX,
        ensures
            final(self).wf(),
            r == old(self).spec_next_pid(),
            final(self).spec_next_pid() == r + 1,
            final(self).spec_entries() == old(self).spec_entries(),
    {
        let pid = self.next_pid;
        self.next_pid = pid + 1;
        pid
    }
}

/// Creating a process and then ending it leaves every identifier naming
/// what it named before.
pub proof fn lemma_create_then_exit(
    before: ProcessTable,
    created: ProcessTable,
    after: ProcessTable,
    pid: u32,
    stack_top: u64,
    entry_point: u64,
    pml4_frame: u64,
)
    requires
        before.wf(),
        pid == before.spec_next_pid(),
        created.spec_entries() == before.spec_entries().push(
            spec_new_pcb(pid, stack_top, entry_point, pml4_frame),
        ),
        after.lookup(pid) is None,
        forall|q: u32| q != pid ==> #[trigger] after.lookup(q) == created.lookup(q),
    ensures
        forall|q: u32| #[trigger] after.lookup(q) == before.lookup(q),
{
    let s0 = before.spec_entries();
    if has_pid(s0, pid) {
        let k = choose|k: int| 0 <= k < s0.len() && #[trigger] s0[k].pid == pid;
        assert(s0[k].pid < before.spec_next_pid());
    }
    assert forall|q: u32| #[trigger] after.lookup(q) == before.lookup(q) by {
        if q != pid {
            lemma_lookup_push(s0, spec_new_pcb(pid, stack_top, entry_point, pml4_frame), q);
        }
    }
}

} // verus!
