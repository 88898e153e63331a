//! Cooperative scheduling of events (tasks) on one core: priority queues,
//! ageing, sleepers and the bookkeeping of the run loop. The futures
//! themselves are polled by the caller; the runner decides which one.

pub mod event_runner;

use crate::constants::{NANOS_PER_TICK, NUM_EVENT_PRIORITIES};
use crate::events::event_runner::EventRunner;
use vstd::prelude::*;

verus! {

/// The number of whole timer ticks in `nanos` nanoseconds: how long a
/// sleep of `nanos` nanoseconds lasts on the system clock.
pub fn nanos_to_ticks(nanos: u64) -> (r: u64)
    ensures
        r == nanos / NANOS_PER_TICK,
{
    nanos / NANOS_PER_TICK
}

/// The priority and process of the event a core runs.
#[derive(Debug, Clone, Copy, PartialEq, Eq, Structural)]
pub struct EventInfo {
    pub priority: usize,
    pub pid: u32,
}

/// The process of the event `runner` is running, or 0 when none.
pub fn current_running_event_pid(runner: &EventRunner) -> (r: u32)
    ensures
        r == (match runner.spec_current() {
            Some(e) => e.pid,
            None => 0,
        }),
{
    match runner.current_running_event() {
        Some(e) => e.pid,
        None => 0,
    }
}

/// The priority of the event `runner` is running, or the lowest priority
/// when none.
pub fn current_running_event_priority(runner: &EventRunner) -> (r: usize)
    ensures
        r == (match runner.spec_current() {
            Some(e) => e.priority,
            None => (NUM_EVENT_PRIORITIES - 1) as usize,
        }),
        runner.spec_current() is None ==> r < NUM_EVENT_PRIORITIES,
        runner.records_ok() ==> r < NUM_EVENT_PRIORITIES,
{
    match runner.current_running_event() {
        Some(e) => e.priority,
        None => NUM_EVENT_PRIORITIES - 1,
    }
}

/// Advances the system clock of `runner` by one tick.
pub fn inc_runner_clock(runner: &mut EventRunner)
    requires
        old(runner).spec_system_clock() < u64::MAX,
    ensures
        final(runner).spec_system_clock() == old(runner).spec_system_clock() + 1,
        final(runner).unchanged_but_system_clock(*old(runner)),
{
    runner.inc_system_clock();
}

/// The system clock of `runner`.
pub fn runner_timestamp(runner: &EventRunner) -> (r: u64)
    ensures
        r == runner.spec_system_clock(),
{
    runner.system_clock()
}

/// The priority and process of the event `runner` is running; the lowest
/// priority and process 0 when none.
pub fn current_running_event_info(runner: &EventRunner) -> (r: EventInfo)
    ensures
        r == (match runner.spec_current() {
            Some(e) => EventInfo { priority: e.priority, pid: e.pid },
            None => EventInfo { priority: (NUM_EVENT_PRIORITIES - 1) as usize, pid: 0 },
        }),
{
    match runner.current_running_event() {
        Some(e) => EventInfo { priority: e.priority, pid: e.pid },
        None => EventInfo { priority: NUM_EVENT_PRIORITIES - 1, pid: 0 },
    }
}

} // verus!
