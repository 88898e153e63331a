//! The event runner of one core.

use crate::constants::{NUM_EVENT_PRIORITIES, PRIORITY_INC_DELAY};
use vstd::prelude::*;

verus! {

/// What the runner knows of an event: its id, its process (0 for the
/// kernel), its priority level, when it was last queued, and the queue it
/// goes back to when woken.
#[derive(Debug, Clone, Copy, PartialEq, Eq, Structural)]
pub struct EventRecord {
    pub eid: u64,
    pub pid: u32,
    pub priority: usize,
    pub scheduled_timestamp: u64,
    pub rewake_level: usize,
}

/// An event asleep until the system clock reaches `target_timestamp`.
#[derive(Debug, Clone, Copy, PartialEq, Eq, Structural)]
pub struct SleepRecord {
    pub target_timestamp: u64,
    pub event: EventRecord,
}

/// Whether sleeper `a` wakes no later than `b`: an earlier target first, and
/// among equal targets the larger event id first.
pub open spec fn wakes_first(a: SleepRecord, b: SleepRecord) -> bool {
    a.target_timestamp < b.target_timestamp || (a.target_timestamp == b.target_timestamp
        && a.event.eid >= b.event.eid)
}

/// Whether `k` is the sleeper of `s` to wake next.
pub open spec fn is_next_sleeper(s: Seq<SleepRecord>, k: int) -> bool {
    0 <= k < s.len() && forall|j: int| 0 <= j < s.len() ==> wakes_first(s[k], #[trigger] s[j])
}

/// `s` without the occurrences of `x`.
pub open spec fn without(s: Seq<u64>, x: u64) -> Seq<u64>
    decreases s.len(),
{
    if s.len() == 0 {
        s
    } else {
        let prev = without(s.drop_last(), x);
        if s.last() == x {
            prev
        } else {
            prev.push(s.last())
        }
    }
}

/// One step of ageing: when the event at the front of level `i` has waited
/// `PRIORITY_INC_DELAY` ticks of `clock`, it moves to the back of level
/// `i - 1`, with that priority and the current time.
pub open spec fn age_level(qs: Seq<Seq<EventRecord>>, i: int, clock: u64) -> Seq<Seq<EventRecord>> {
    if qs[i].len() > 0 && qs[i][0].scheduled_timestamp + PRIORITY_INC_DELAY <= clock {
        let e = qs[i][0];
        let moved = EventRecord { priority: (i - 1) as usize, scheduled_timestamp: clock, ..e };
        qs.update(i, qs[i].drop_first()).update(i - 1, qs[i - 1].push(moved))
    } else {
        qs
    }
}

/// The queues after ageing levels 1, 2 and 3, in that order.
pub open spec fn spec_reprioritized(qs: Seq<Seq<EventRecord>>, clock: u64) -> Seq<Seq<EventRecord>> {
    age_level(age_level(age_level(qs, 1, clock), 2, clock), 3, clock)
}

/// Whether the event at the front of level `l` has waited there long enough
/// to move up: `PRIORITY_INC_DELAY` ticks of `clock` since it was stamped.
/// Level 0 is the highest and never moves up.
pub open spec fn waited(qs: Seq<Seq<EventRecord>>, l: int, clock: u64) -> bool {
    1 <= l < NUM_EVENT_PRIORITIES && qs[l].len() > 0 && qs[l][0].scheduled_timestamp + PRIORITY_INC_DELAY
        <= clock
}

/// What ageing at `clock` does to each level `l`: its front leaves it when
/// it has waited long enough, and joins the back of level `l - 1` with that
/// priority and stamped with `clock`, so it moves again only after another
/// `PRIORITY_INC_DELAY` ticks; every other event keeps its record, its
/// level and its order, and a front that has not waited stays in front.
pub proof fn lemma_ageing(qs: Seq<Seq<EventRecord>>, clock: u64)
    requires
        qs.len() == NUM_EVENT_PRIORITIES,
    ensures
        ({
            let a = spec_reprioritized(qs, clock);
            &&& a.len() == NUM_EVENT_PRIORITIES
            &&& forall|l: int|
                #![trigger a[l]]
                0 <= l < NUM_EVENT_PRIORITIES ==> {
                    let out: int = if waited(qs, l, clock) { 1 } else { 0 };
                    let inn: int = if waited(qs, l + 1, clock) { 1 } else { 0 };
                    &&& a[l].len() == qs[l].len() - out + inn
                    &&& forall|k: int| 0 <= k < qs[l].len() - out ==> #[trigger] a[l][k] == qs[l][k + out]
                    &&& waited(qs, l + 1, clock) ==> a[l].last() == (EventRecord {
                        priority: l as usize,
                        scheduled_timestamp: clock,
                        ..qs[l + 1][0]
                    })
                    &&& qs[l].len() > 0 && !waited(qs, l, clock) ==> a[l][0] == qs[l][0]
                }
        }),
{
    let a1 = age_level(qs, 1, clock);
    let a2 = age_level(a1, 2, clock);
    let a3 = age_level(a2, 3, clock);
    assert(a1[2] == qs[2] && a1[3] == qs[3]);
    assert(a2[3] == qs[3] && a2[0] == a1[0]);
    assert(a3[0] == a2[0] && a3[1] == a2[1]);
    assert(waited(a1, 2, clock) == waited(qs, 2, clock));
    assert(waited(a2, 3, clock) == waited(qs, 3, clock));
    if waited(qs, 1, clock) {
        assert(a1[1] =~= qs[1].drop_first());
    } else {
        assert(a1[1] == qs[1]);
    }
    if waited(qs, 2, clock) {
        assert(a2[2] =~= qs[2].drop_first());
        assert(a2[1] == a1[1].push(EventRecord { priority: 1usize, scheduled_timestamp: clock, ..qs[2][0] }));
    } else {
        assert(a2[2] == qs[2] && a2[1] == a1[1]);
    }
    if waited(qs, 3, clock) {
        assert(a3[3] =~= qs[3].drop_first());
        assert(a3[2] == a2[2].push(EventRecord { priority: 2usize, scheduled_timestamp: clock, ..qs[3][0] }));
    } else {
        assert(a3[3] == qs[3] && a3[2] == a2[2]);
    }
    assert(!waited(qs, 0, clock) && !waited(qs, 4, clock));
}

/// Index of the first non-empty queue, or the number of queues when all
/// are empty.
pub open spec fn first_nonempty(qs: Seq<Seq<EventRecord>>) -> int {
    if qs[0].len() > 0 {
        0
    } else if qs[1].len() > 0 {
        1
    } else if qs[2].len() > 0 {
        2
    } else if qs[3].len() > 0 {
        3
    } else {
        4
    }
}

/// The queue the next event comes from is the highest-priority one that
/// holds an event: every queue before it is empty, and it is not.
pub proof fn lemma_first_nonempty(qs: Seq<Seq<EventRecord>>)
    requires
        qs.len() == NUM_EVENT_PRIORITIES,
    ensures
        0 <= first_nonempty(qs) <= NUM_EVENT_PRIORITIES,
        forall|l: int| 0 <= l < first_nonempty(qs) ==> #[trigger] qs[l].len() == 0,
        first_nonempty(qs) < NUM_EVENT_PRIORITIES ==> qs[first_nonempty(qs)].len() > 0,
{
}

/// The sleeper woken next has the earliest target of all sleepers, and
/// among those with that target the largest event id.
pub proof fn lemma_next_sleeper(s: Seq<SleepRecord>, k: int)
    requires
        is_next_sleeper(s, k),
    ensures
        forall|j: int| 0 <= j < s.len() ==> s[k].target_timestamp <= #[trigger] s[j].target_timestamp,
        forall|j: int|
            0 <= j < s.len() && #[trigger] s[j].target_timestamp == s[k].target_timestamp ==> s[j].event.eid
                <= s[k].event.eid,
{
    assert forall|j: int| 0 <= j < s.len() implies s[k].target_timestamp <= #[trigger] s[j].target_timestamp by {
        assert(wakes_first(s[k], s[j]));
    }
    assert forall|j: int|
        0 <= j < s.len() && #[trigger] s[j].target_timestamp == s[k].target_timestamp implies s[j].event.eid
            <= s[k].event.eid by {
        assert(wakes_first(s[k], s[j]));
    }
}

/// The event taken next from queues `qs` aged at `clock`: the front of the
/// first non-empty queue.
pub open spec fn spec_next_of(qs: Seq<Seq<EventRecord>>, clock: u64) -> EventRecord {
    let aged = spec_reprioritized(qs, clock);
    aged[first_nonempty(aged)][0]
}

proof fn lemma_age_keeps_nonempty(qs: Seq<Seq<EventRecord>>, i: int, clock: u64)
    requires
        qs.len() == NUM_EVENT_PRIORITIES,
        1 <= i < NUM_EVENT_PRIORITIES,
        first_nonempty(qs) < 4,
    ensures
        age_level(qs, i, clock).len() == NUM_EVENT_PRIORITIES,
        first_nonempty(age_level(qs, i, clock)) < 4,
{
    let a = age_level(qs, i, clock);
    if qs[i].len() > 0 && qs[i][0].scheduled_timestamp + PRIORITY_INC_DELAY <= clock {
        assert(a[i - 1].len() > 0);
    }
}

proof fn lemma_reprioritized_keeps_nonempty(qs: Seq<Seq<EventRecord>>, clock: u64)
    requires
        qs.len() == NUM_EVENT_PRIORITIES,
        first_nonempty(qs) < 4,
    ensures
        first_nonempty(spec_reprioritized(qs, clock)) < 4,
{
    lemma_age_keeps_nonempty(qs, 1, clock);
    lemma_age_keeps_nonempty(age_level(qs, 1, clock), 2, clock);
    lemma_age_keeps_nonempty(age_level(age_level(qs, 1, clock), 2, clock), 3, clock);
}

/// Whether the runner may hold `e` at event clock `clock`: `e` was stamped
/// at or before `clock`, and its priority level and the level it wakes into
/// exist.
pub open spec fn held_ok(e: EventRecord, clock: u64) -> bool {
    &&& e.scheduled_timestamp <= clock
    &&& e.priority < NUM_EVENT_PRIORITIES
    &&& e.rewake_level < NUM_EVENT_PRIORITIES
}

/// Whether the runner may hold every event of `qs` at `clock`.
pub open spec fn queued_by(qs: Seq<Seq<EventRecord>>, clock: u64) -> bool {
    forall|i: int, j: int|
        0 <= i < qs.len() && 0 <= j < qs[i].len() ==> held_ok(#[trigger] qs[i][j], clock)
}

/// Appending to a level an event the runner may hold at `clock` keeps
/// every queued event one it may hold.
proof fn lemma_push_queued_by(qs: Seq<Seq<EventRecord>>, l: int, e: EventRecord, clock: u64)
    requires
        queued_by(qs, clock),
        0 <= l < qs.len(),
        held_ok(e, clock),
    ensures
        queued_by(qs.update(l, qs[l].push(e)), clock),
{
    let q2 = qs.update(l, qs[l].push(e));
    assert forall|i: int, j: int| 0 <= i < q2.len() && 0 <= j < q2[i].len() implies held_ok(
    #[trigger] q2[i][j],
        clock,
    ) by {
        if i == l && j < qs[l].len() {
            assert(q2[i][j] == qs[l][j]);
        } else if i != l {
            assert(q2[i] == qs[i]);
        }
    }
}

/// What the run loop does next.
#[derive(Debug, Clone, Copy, PartialEq, Eq, Structural)]
pub enum RunStep {
    /// No event is queued: wake a sleeper if some are blocked, then halt
    /// until an interrupt.
    Idle,
    /// The event taken from the queues has completed already: drop it.
    Skip(EventRecord),
    /// Poll the future of this event.
    Poll(EventRecord),
}

/// The events of one core: a FIFO queue per priority level (level 0 runs
/// first), the ids of the events not yet completed, of those blocked, the
/// sleepers, the running event and two clocks.
pub struct EventRunner {
    event_queues: Vec<Vec<EventRecord>>,
    pending_events: Vec<u64>,
    blocked_events: Vec<u64>,
    sleeping_events: Vec<SleepRecord>,
    current_event: Option<EventRecord>,
    event_clock: u64,
    system_clock: u64,
    next_eid: u64,
}

impl EventRunner {
    /// The queues, level by level.
    pub closed spec fn spec_queues(&self) -> Seq<Seq<EventRecord>> {
        Seq::new(self.event_queues@.len(), |i: int| self.event_queues@[i]@)
    }

    /// Ids of the events not yet completed.
    pub closed spec fn spec_pending(&self) -> Seq<u64> {
        self.pending_events@
    }

    /// Ids of the blocked events.
    pub closed spec fn spec_blocked(&self) -> Seq<u64> {
        self.blocked_events@
    }

    /// The sleepers.
    pub closed spec fn spec_sleeping(&self) -> Seq<SleepRecord> {
        self.sleeping_events@
    }

    /// The running event.
    pub closed spec fn spec_current(&self) -> Option<EventRecord> {
        self.current_event
    }

    /// Counts the polls made.
    pub closed spec fn spec_event_clock(&self) -> u64 {
        self.event_clock
    }

    /// Counts timer ticks.
    pub closed spec fn spec_system_clock(&self) -> u64 {
        self.system_clock
    }

    /// The id the next event gets.
    pub closed spec fn spec_next_eid(&self) -> u64 {
        self.next_eid
    }

    /// There is one queue per priority level.
    pub closed spec fn wf(&self) -> bool {
        self.event_queues@.len() == NUM_EVENT_PRIORITIES
    }

    /// Every event the runner holds, queued, asleep or running, was stamped
    /// at or before the event clock (how long it has waited is the event
    /// clock minus its stamp), and its priority level and the level it wakes
    /// into exist.
    pub open spec fn records_ok(&self) -> bool {
        &&& queued_by(self.spec_queues(), self.spec_event_clock())
        &&& forall|k: int|
            0 <= k < self.spec_sleeping().len() ==> held_ok(
                (#[trigger] self.spec_sleeping()[k]).event,
                self.spec_event_clock(),
            )
        &&& self.spec_current() matches Some(e) ==> held_ok(e, self.spec_event_clock())
    }

    /// The pending and the blocked events are sets: no id occurs twice in
    /// either, and every pending id was handed out already.
    pub open spec fn ids_ok(&self) -> bool {
        &&& self.spec_pending().no_duplicates()
        &&& self.spec_blocked().no_duplicates()
        &&& forall|k: int| 0 <= k < self.spec_pending().len() ==> #[trigger] self.spec_pending()[k] < self.spec_next_eid()
    }

    /// Everything but the system clock is as in `other`.
    pub open spec fn unchanged_but_system_clock(&self, other: Self) -> bool {
        &&& self.wf() == other.wf()
        &&& self.spec_queues() == other.spec_queues()
        &&& self.spec_pending() == other.spec_pending()
        &&& self.spec_blocked() == other.spec_blocked()
        &&& self.spec_sleeping() == other.spec_sleeping()
        &&& self.spec_current() == other.spec_current()
        &&& self.spec_event_clock() == other.spec_event_clock()
        &&& self.spec_next_eid() == other.spec_next_eid()
    }

    /// A runner with no events and both clocks at zero.
    pub fn init() -> (r: Self)
        ensures
            r.ids_ok(),
            r.records_ok(),
            r.wf(),
            r.spec_queues() == Seq::new(4, |i: int| Seq::<EventRecord>::empty()),
            r.spec_pending().len() == 0,
            r.spec_blocked().len() == 0,
            r.spec_sleeping().len() == 0,
            r.spec_current() is None,
            r.spec_event_clock() == 0,
            r.spec_system_clock() == 0,
            r.spec_next_eid() == 0,
    {
        let mut queues: Vec<Vec<EventRecord>> = Vec::new();
        let mut i: usize = 0;
        while i < NUM_EVENT_PRIORITIES
            invariant
                i <= NUM_EVENT_PRIORITIES,
                queues@.len() == i,
                forall|k: int| 0 <= k < i ==> (#[trigger] queues@[k])@ == Seq::<EventRecord>::empty(),
            decreases NUM_EVENT_PRIORITIES - i,
        {
            queues.push(Vec::new());
            i = i + 1;
        }
        let r = EventRunner {
            event_queues: queues,
            pending_events: Vec::new(),
            blocked_events: Vec::new(),
            sleeping_events: Vec::new(),
            current_event: None,
            event_clock: 0,
            system_clock: 0,
            next_eid: 0,
        };
        proof {
            assert(r.spec_queues() =~= Seq::new(4, |i: int| Seq::<EventRecord>::empty()));
        }
        r
    }

    /// Appends `e` to the queue of `level`.
    fn enqueue(&mut self, level: usize, e: EventRecord)
        requires
            old(self).wf(),
            level < NUM_EVENT_PRIORITIES,
        ensures
            old(self).ids_ok() ==> final(self).ids_ok(),
            old(self).records_ok() && held_ok(e, old(self).spec_event_clock()) ==> final(self).records_ok(),
            final(self).wf(),
            final(self).spec_queues() == old(self).spec_queues().update(
                level as int,
                old(self).spec_queues()[level as int].push(e),
            ),
            final(self).spec_pending() == old(self).spec_pending(),
            final(self).spec_blocked() == old(self).spec_blocked(),
            final(self).spec_sleeping() == old(self).spec_sleeping(),
            final(self).spec_current() == old(self).spec_current(),
            final(self).spec_event_clock() == old(self).spec_event_clock(),
            final(self).spec_system_clock() == old(self).spec_system_clock(),
            final(self).spec_next_eid() == old(self).spec_next_eid(),
    {
        let mut q = self.event_queues.remove(level);
        q.push(e);
        self.event_queues.insert(level, q);
        proof {
            assert(self.spec_sleeping() =~= old(self).spec_sleeping());
            if old(self).records_ok() && held_ok(e, old(self).spec_event_clock()) {
                lemma_push_queued_by(old(self).spec_queues(), level as int, e, self.event_clock);
            }
            assert(self.spec_queues() =~= old(self).spec_queues().update(
                level as int,
                old(self).spec_queues()[level as int].push(e),
            ));
        }
    }

    /// Takes the event at the front of the queue of `level`, if any.
    fn try_pop(&mut self, level: usize) -> (r: Option<EventRecord>)
        requires
            old(self).wf(),
            level < NUM_EVENT_PRIORITIES,
        ensures
            old(self).ids_ok() ==> final(self).ids_ok(),
            final(self).wf(),
            old(self).spec_queues()[level as int].len() == 0 ==> r is None && final(self).spec_queues()
                == old(self).spec_queues(),
            old(self).spec_queues()[level as int].len() > 0 ==> r == Some(
                old(self).spec_queues()[level as int][0],
            ) && final(self).spec_queues() == old(self).spec_queues().update(
                level as int,
                old(self).spec_queues()[level as int].drop_first(),
            ),
            final(self).spec_pending() == old(self).spec_pending(),
            final(self).spec_blocked() == old(self).spec_blocked(),
            final(self).spec_sleeping() == old(self).spec_sleeping(),
            final(self).spec_current() == old(self).spec_current(),
            final(self).spec_event_clock() == old(self).spec_event_clock(),
            final(self).spec_system_clock() == old(self).spec_system_clock(),
            final(self).spec_next_eid() == old(self).spec_next_eid(),
    {
        let mut q = self.event_queues.remove(level);
        let r = if q.len() > 0 {
            Some(q.remove(0))
        } else {
            None
        };
        self.event_queues.insert(level, q);
        proof {
            if r is Some {
                assert(self.spec_queues() =~= old(self).spec_queues().update(
                    level as int,
                    old(self).spec_queues()[level as int].drop_first(),
                ));
            } else {
                assert(self.spec_queues() =~= old(self).spec_queues());
            }
        }
        r
    }

    /// The timestamp of the event at the front of the queue of `level`.
    fn next_event_timestamp(&self, level: usize) -> (r: Option<u64>)
        requires
            self.wf(),
            level < NUM_EVENT_PRIORITIES,
        ensures
            self.spec_queues()[level as int].len() == 0 ==> r is None,
            self.spec_queues()[level as int].len() > 0 ==> r == Some(
                self.spec_queues()[level as int][0].scheduled_timestamp,
            ),
    {
        let q = &self.event_queues[level];
        if q.len() > 0 {
            Some(q[0].scheduled_timestamp)
        } else {
            None
        }
    }

    /// Queues a new event of process `pid` at priority `priority_level`;
    /// returns its id.
    pub fn schedule(&mut self, priority_level: usize, pid: u32) -> (r: u64)
        requires
            old(self).wf(),
            priority_level < NUM_EVENT_PRIORITIES,
            old(self).spec_next_eid() < u64::MAX,
        ensures
            old(self).ids_ok() ==> final(self).ids_ok(),
            old(self).records_ok() ==> final(self).records_ok(),
            final(self).wf(),
            r == old(self).spec_next_eid(),
            final(self).spec_next_eid() == old(self).spec_next_eid() + 1,
            final(self).spec_queues() == old(self).spec_queues().update(
                priority_level as int,
                old(self).spec_queues()[priority_level as int].push(
                    EventRecord {
                        eid: r,
                        pid,
                        priority: priority_level,
                        scheduled_timestamp: old(self).spec_event_clock(),
                        rewake_level: priority_level,
                    },
                ),
            ),
            final(self).spec_pending() == old(self).spec_pending().push(r),
            final(self).spec_blocked() == old(self).spec_blocked(),
            final(self).spec_sleeping() == old(self).spec_sleeping(),
            final(self).spec_current() == old(self).spec_current(),
            final(self).spec_event_clock() == old(self).spec_event_clock(),
            final(self).spec_system_clock() == old(self).spec_system_clock(),
    {
        let eid = self.next_eid;
        self.next_eid = eid + 1;
        let event = EventRecord {
            eid,
            pid,
            priority: priority_level,
            scheduled_timestamp: self.event_clock,
            rewake_level: priority_level,
        };
        proof {
            assert(self.spec_queues() =~= old(self).spec_queues());
            assert(self.spec_sleeping() =~= old(self).spec_sleeping());
        }
        self.enqueue(priority_level, event);
        let ghost queued = *self;
        self.pending_events.push(eid);
        proof {
            assert(self.spec_queues() =~= queued.spec_queues());
            assert(self.spec_sleeping() =~= queued.spec_sleeping());
        }
        eid
    }

    /// The running event.
    pub fn current_running_event(&self) -> (r: Option<EventRecord>)
        ensures
            r == self.spec_current(),
    {
        self.current_event
    }

    /// The system clock.
    pub fn system_clock(&self) -> (r: u64)
        ensures
            r == self.spec_system_clock(),
    {
        self.system_clock
    }

    /// Advances the system clock by one tick.
    pub fn inc_system_clock(&mut self)
        requires
            old(self).spec_system_clock() < u64::MAX,
        ensures
            old(self).ids_ok() ==> final(self).ids_ok(),
            old(self).records_ok() ==> final(self).records_ok(),
            final(self).spec_system_clock() == old(self).spec_system_clock() + 1,
            final(self).unchanged_but_system_clock(*old(self)),
    {
        self.system_clock = self.system_clock + 1;
        proof {
            assert(self.spec_queues() =~= old(self).spec_queues());
            assert(self.spec_sleeping() =~= old(self).spec_sleeping());
        }
    }

    /// Puts event `e` back on the queue it wakes into and unblocks it.
    pub fn wake(&mut self, e: EventRecord)
        requires
            old(self).wf(),
            e.rewake_level < NUM_EVENT_PRIORITIES,
        ensures
            old(self).ids_ok() ==> final(self).ids_ok(),
            old(self).records_ok() && held_ok(e, old(self).spec_event_clock()) ==> final(self).records_ok(),
            final(self).wf(),
            final(self).spec_queues() == old(self).spec_queues().update(
                e.rewake_level as int,
                old(self).spec_queues()[e.rewake_level as int].push(e),
            ),
            final(self).spec_blocked() == without(old(self).spec_blocked(), e.eid),
            final(self).spec_pending() == old(self).spec_pending(),
            final(self).spec_sleeping() == old(self).spec_sleeping(),
            final(self).spec_current() == old(self).spec_current(),
            final(self).spec_event_clock() == old(self).spec_event_clock(),
            final(self).spec_system_clock() == old(self).spec_system_clock(),
            final(self).spec_next_eid() == old(self).spec_next_eid(),
    {
        self.enqueue(e.rewake_level, e);
        let mut kept: Vec<u64> = Vec::new();
        let mut i: usize = 0;
        while i < self.blocked_events.len()
            invariant
                i <= self.blocked_events@.len(),
                self.blocked_events@ == old(self).spec_blocked(),
                kept@ == without(self.blocked_events@.take(i as int), e.eid),
            decreases self.blocked_events@.len() - i,
        {
            let x = self.blocked_events[i];
            proof {
                let s = self.blocked_events@.take(i + 1);
                assert(s.drop_last() =~= self.blocked_events@.take(i as int));
                assert(s =~= s.drop_last().push(x));
            }
            if x != e.eid {
                kept.push(x);
            }
            i = i + 1;
        }
        proof {
            assert(self.blocked_events@.take(i as int) =~= self.blocked_events@);
        }
        self.blocked_events = kept;
        proof {
            lemma_without(old(self).spec_blocked(), e.eid);
        }
    }

    /// Index of the sleeper to wake next, when there is one.
    fn next_sleeper(&self) -> (r: Option<usize>)
        ensures
            self.spec_sleeping().len() == 0 ==> r is None,
            self.spec_sleeping().len() > 0 ==> (r matches Some(k) && is_next_sleeper(
                self.spec_sleeping(),
                k as int,
            )),
    {
        let n = self.sleeping_events.len();
        if n == 0 {
            return None;
        }
        let mut best: usize = 0;
        let mut i: usize = 1;
        while i < n
            invariant
                n == self.sleeping_events@.len(),
                1 <= i <= n,
                best < i,
                forall|j: int| 0 <= j < i ==> wakes_first(self.sleeping_events@[best as int], #[trigger] self.sleeping_events@[j]),
            decreases n - i,
        {
            let a = self.sleeping_events[best];
            let b = self.sleeping_events[i];
            if b.target_timestamp < a.target_timestamp || (b.target_timestamp == a.target_timestamp
                && b.event.eid > a.event.eid) {
                best = i;
            }
            i = i + 1;
        }
        Some(best)
    }

    /// Wakes the sleeper whose time comes first, when the system clock has
    /// reached it.
    pub fn awake_next_sleeper(&mut self)
        requires
            old(self).wf(),
            forall|k: int| 0 <= k < old(self).spec_sleeping().len() ==> (#[trigger] old(self).spec_sleeping()[k]).event.rewake_level
                < NUM_EVENT_PRIORITIES,
        ensures
            old(self).ids_ok() ==> final(self).ids_ok(),
            old(self).records_ok() ==> final(self).records_ok(),
            final(self).wf(),
            forall|k: int| 0 <= k < final(self).spec_sleeping().len() ==> (#[trigger] final(self).spec_sleeping()[k]).event.rewake_level
                < NUM_EVENT_PRIORITIES,
            final(self).spec_pending() == old(self).spec_pending(),
            final(self).spec_current() == old(self).spec_current(),
            final(self).spec_event_clock() == old(self).spec_event_clock(),
            final(self).spec_system_clock() == old(self).spec_system_clock(),
            final(self).spec_next_eid() == old(self).spec_next_eid(),
            (forall|k: int| #![trigger old(self).spec_sleeping()[k]] is_next_sleeper(old(self).spec_sleeping(), k)
                ==> old(self).spec_sleeping()[k].target_timestamp > old(self).spec_system_clock())
                ==> final(self).spec_queues() == old(self).spec_queues() && final(self).spec_blocked()
                == old(self).spec_blocked() && final(self).spec_sleeping() == old(self).spec_sleeping(),
            (exists|k: int| #![trigger old(self).spec_sleeping()[k]] is_next_sleeper(old(self).spec_sleeping(), k)
                && old(self).spec_sleeping()[k].target_timestamp <= old(self).spec_system_clock())
                ==> final(self).spec_sleeping().len() + 1 == old(self).spec_sleeping().len(),
            final(self).spec_sleeping() != old(self).spec_sleeping() ==> exists|k: int|
                #![trigger old(self).spec_sleeping()[k]]
                {
                    let s = old(self).spec_sleeping()[k];
                    &&& is_next_sleeper(old(self).spec_sleeping(), k)
                    &&& s.target_timestamp <= old(self).spec_system_clock()
                    &&& final(self).spec_sleeping() == old(self).spec_sleeping().remove(k)
                    &&& final(self).spec_queues() == old(self).spec_queues().update(
                        s.event.rewake_level as int,
                        old(self).spec_queues()[s.event.rewake_level as int].push(s.event),
                    )
                    &&& final(self).spec_blocked() == without(old(self).spec_blocked(), s.event.eid)
                },
    {
        match self.next_sleeper() {
            Some(k) => {
                let sleeper = self.sleeping_events[k];
                if sleeper.target_timestamp <= self.system_clock {
                    proof {
                        assert(old(self).spec_sleeping()[k as int] == sleeper);
                    }
                    self.wake(sleeper.event);
                    self.sleeping_events.remove(k);
                    proof {
                        assert forall|j: int| 0 <= j < self.spec_sleeping().len() implies (
                        #[trigger] self.spec_sleeping()[j]).event.rewake_level < NUM_EVENT_PRIORITIES by {
                            if j < k {
                                assert(self.spec_sleeping()[j] == old(self).spec_sleeping()[j]);
                            } else {
                                assert(self.spec_sleeping()[j] == old(self).spec_sleeping()[j + 1]);
                            }
                        }
                        assert(self.spec_sleeping().len() < old(self).spec_sleeping().len());
                    }
                } else {
                    proof {
                        assert forall|j: int| #![trigger old(self).spec_sleeping()[j]] is_next_sleeper(
                            old(self).spec_sleeping(),
                            j,
                        ) implies old(self).spec_sleeping()[j].target_timestamp > old(self).spec_system_clock() by {
                            assert(wakes_first(old(self).spec_sleeping()[j], old(self).spec_sleeping()[k as int]));
                            assert(wakes_first(old(self).spec_sleeping()[k as int], old(self).spec_sleeping()[j]));
                        }
                    }
                }
            },
            None => {},
        }
    }

    /// Puts the running event to sleep for `ticks` ticks of the system clock:
    /// records a sleeper and blocks the event. Nothing when no event runs.
    pub fn nanosleep_current_event(&mut self, ticks: u64) -> (r: Option<SleepRecord>)
        requires
            old(self).wf(),
            old(self).spec_system_clock() + ticks <= u64::MAX,
        ensures
            old(self).ids_ok() ==> final(self).ids_ok(),
            old(self).records_ok() ==> final(self).records_ok(),
            final(self).wf(),
            old(self).spec_current() is None ==> r is None && final(self).spec_sleeping() == old(self).spec_sleeping()
                && final(self).spec_blocked() == old(self).spec_blocked(),
            old(self).spec_current() matches Some(e) ==> {
                let s = SleepRecord {
                    target_timestamp: (old(self).spec_system_clock() + ticks) as u64,
                    event: e,
                };
                &&& r == Some(s)
                &&& final(self).spec_sleeping() == old(self).spec_sleeping().push(s)
                &&& final(self).spec_blocked() == (if old(self).spec_blocked().contains(e.eid) {
                    old(self).spec_blocked()
                } else {
                    old(self).spec_blocked().push(e.eid)
                })
            },
            final(self).spec_queues() == old(self).spec_queues(),
            final(self).spec_pending() == old(self).spec_pending(),
            final(self).spec_current() == old(self).spec_current(),
            final(self).spec_event_clock() == old(self).spec_event_clock(),
            final(self).spec_system_clock() == old(self).spec_system_clock(),
            final(self).spec_next_eid() == old(self).spec_next_eid(),
    {
        let r = match self.current_event {
            Some(e) => {
                let sleep = SleepRecord { target_timestamp: self.system_clock + ticks, event: e };
                self.sleeping_events.push(sleep);
                insert_id(&mut self.blocked_events, e.eid);
                Some(sleep)
            },
            None => None,
        };
        proof {
            assert(self.spec_queues() =~= old(self).spec_queues());
            if old(self).records_ok() {
                assert forall|k: int| 0 <= k < self.spec_sleeping().len() implies held_ok(
                (#[trigger] self.spec_sleeping()[k]).event,
                    self.spec_event_clock(),
                ) by {
                    if k < old(self).spec_sleeping().len() {
                        assert(self.spec_sleeping()[k] == old(self).spec_sleeping()[k]);
                    }
                }
            }
        }
        r
    }

    /// Creates an event of process `pid` at priority `priority_level` that
    /// sleeps for `ticks` ticks before it is first queued.
    pub fn nanosleep_event(&mut self, priority_level: usize, pid: u32, ticks: u64) -> (r: SleepRecord)
        requires
            old(self).wf(),
            priority_level < NUM_EVENT_PRIORITIES,
            old(self).spec_next_eid() < u64::MAX,
            old(self).spec_system_clock() + ticks <= u64::MAX,
        ensures
            old(self).ids_ok() ==> final(self).ids_ok(),
            old(self).records_ok() ==> final(self).records_ok(),
            final(self).wf(),
            r == (SleepRecord {
                target_timestamp: (old(self).spec_system_clock() + ticks) as u64,
                event: EventRecord {
                    eid: old(self).spec_next_eid(),
                    pid,
                    priority: priority_level,
                    scheduled_timestamp: old(self).spec_event_clock(),
                    rewake_level: priority_level,
                },
            }),
            final(self).spec_sleeping() == old(self).spec_sleeping().push(r),
            final(self).spec_pending() == old(self).spec_pending().push(r.event.eid),
            final(self).spec_blocked() == (if old(self).spec_blocked().contains(r.event.eid) {
                old(self).spec_blocked()
            } else {
                old(self).spec_blocked().push(r.event.eid)
            }),
            final(self).spec_next_eid() == old(self).spec_next_eid() + 1,
            final(self).spec_queues() == old(self).spec_queues(),
            final(self).spec_current() == old(self).spec_current(),
            final(self).spec_event_clock() == old(self).spec_event_clock(),
            final(self).spec_system_clock() == old(self).spec_system_clock(),
    {
        let eid = self.next_eid;
        self.next_eid = eid + 1;
        let event = EventRecord {
            eid,
            pid,
            priority: priority_level,
            scheduled_timestamp: self.event_clock,
            rewake_level: priority_level,
        };
        let sleep = SleepRecord { target_timestamp: self.system_clock + ticks, event };
        self.sleeping_events.push(sleep);
        self.pending_events.push(eid);
        insert_id(&mut self.blocked_events, eid);
        proof {
            assert(self.spec_queues() =~= old(self).spec_queues());
            if old(self).records_ok() {
                assert forall|k: int| 0 <= k < self.spec_sleeping().len() implies held_ok(
                (#[trigger] self.spec_sleeping()[k]).event,
                    self.spec_event_clock(),
                ) by {
                    if k < old(self).spec_sleeping().len() {
                        assert(self.spec_sleeping()[k] == old(self).spec_sleeping()[k]);
                    }
                }
            }
        }
        sleep
    }

    /// Whether some event is blocked.
    pub fn have_blocked_events(&self) -> (r: bool)
        ensures
            r == (self.spec_blocked().len() > 0),
    {
        self.blocked_events.len() > 0
    }

    /// Whether some queue holds an event.
    pub fn have_unblocked_events(&self) -> (r: bool)
        requires
            self.wf(),
        ensures
            r == (first_nonempty(self.spec_queues()) < 4),
    {
        let mut i: usize = 0;
        while i < NUM_EVENT_PRIORITIES
            invariant
                self.wf(),
                i <= NUM_EVENT_PRIORITIES,
                forall|k: int| 0 <= k < i ==> self.spec_queues()[k].len() == 0,
            decreases NUM_EVENT_PRIORITIES - i,
        {
            if self.event_queues[i].len() > 0 {
                return true;
            }
            i = i + 1;
        }
        false
    }

    /// Whether event `eid` has not completed.
    pub fn contains_event(&self, eid: u64) -> (r: bool)
        ensures
            r == self.spec_pending().contains(eid),
    {
        contains_id(&self.pending_events, eid)
    }

    /// Ages the queues: for levels 1 to 3 in turn, the event at the front
    /// moves up one level when it has waited long enough.
    pub fn reprioritize(&mut self)
        requires
            old(self).wf(),
        ensures
            old(self).ids_ok() ==> final(self).ids_ok(),
            old(self).records_ok() ==> final(self).records_ok(),
            final(self).wf(),
            final(self).spec_queues() == spec_reprioritized(old(self).spec_queues(), old(self).spec_event_clock()),
            final(self).spec_pending() == old(self).spec_pending(),
            final(self).spec_blocked() == old(self).spec_blocked(),
            final(self).spec_sleeping() == old(self).spec_sleeping(),
            final(self).spec_current() == old(self).spec_current(),
            final(self).spec_event_clock() == old(self).spec_event_clock(),
            final(self).spec_system_clock() == old(self).spec_system_clock(),
            final(self).spec_next_eid() == old(self).spec_next_eid(),
    {
        self.age_level(1);
        self.age_level(2);
        self.age_level(3);
    }

    /// One step of ageing at `level`, as `age_level` says.
    fn age_level(&mut self, level: usize)
        requires
            old(self).wf(),
            1 <= level < NUM_EVENT_PRIORITIES,
        ensures
            old(self).ids_ok() ==> final(self).ids_ok(),
            old(self).records_ok() ==> final(self).records_ok(),
            final(self).wf(),
            final(self).spec_queues() == age_level(old(self).spec_queues(), level as int, old(self).spec_event_clock()),
            final(self).spec_pending() == old(self).spec_pending(),
            final(self).spec_blocked() == old(self).spec_blocked(),
            final(self).spec_sleeping() == old(self).spec_sleeping(),
            final(self).spec_current() == old(self).spec_current(),
            final(self).spec_event_clock() == old(self).spec_event_clock(),
            final(self).spec_system_clock() == old(self).spec_system_clock(),
            final(self).spec_next_eid() == old(self).spec_next_eid(),
    {
        match self.next_event_timestamp(level) {
            Some(scheduled_at) => {
                if self.event_clock >= PRIORITY_INC_DELAY && scheduled_at <= self.event_clock
                    - PRIORITY_INC_DELAY {
                    let moved = self.try_pop(level);
                    match moved {
                        Some(e) => {
                            let clock = self.event_clock;
                            self.enqueue(
                                level - 1,
                                EventRecord { priority: level - 1, scheduled_timestamp: clock, ..e },
                            );
                        },
                        None => {},
                    }
                }
            },
            None => {},
        }
    }

    /// The next event to run: wakes a due sleeper, ages the queues, then
    /// takes the front of the first non-empty queue.
    pub fn next_event(&mut self) -> (r: Option<EventRecord>)
        requires
            old(self).wf(),
            forall|k: int| 0 <= k < old(self).spec_sleeping().len() ==> (#[trigger] old(self).spec_sleeping()[k]).event.rewake_level
                < NUM_EVENT_PRIORITIES,
        ensures
            old(self).ids_ok() ==> final(self).ids_ok(),
            old(self).records_ok() ==> final(self).records_ok(),
            old(self).records_ok() ==> (r matches Some(e) ==> held_ok(e, old(self).spec_event_clock())),
            final(self).wf(),
            forall|k: int| 0 <= k < final(self).spec_sleeping().len() ==> (#[trigger] final(self).spec_sleeping()[k]).event.rewake_level
                < NUM_EVENT_PRIORITIES,
            final(self).spec_pending() == old(self).spec_pending(),
            final(self).spec_current() == old(self).spec_current(),
            final(self).spec_event_clock() == old(self).spec_event_clock(),
            final(self).spec_system_clock() == old(self).spec_system_clock(),
            final(self).spec_next_eid() == old(self).spec_next_eid(),
            (old(self).spec_sleeping().len() == 0) ==> ({
                let qs = spec_reprioritized(old(self).spec_queues(), old(self).spec_event_clock());
                let i = first_nonempty(qs);
                &&& i == 4 ==> r is None && final(self).spec_queues() == qs
                &&& i < 4 ==> r == Some(qs[i][0]) && final(self).spec_queues() == qs.update(i, qs[i].drop_first())
            }),
            first_nonempty(old(self).spec_queues()) < 4 ==> r is Some,
    {
        self.awake_next_sleeper();
        proof {
            if first_nonempty(old(self).spec_queues()) < 4 {
                if self.spec_sleeping() != old(self).spec_sleeping() {
                    let k = choose|k: int|
                        #![trigger old(self).spec_sleeping()[k]]
                        {
                            let s = old(self).spec_sleeping()[k];
                            &&& is_next_sleeper(old(self).spec_sleeping(), k)
                            &&& s.target_timestamp <= old(self).spec_system_clock()
                            &&& self.spec_sleeping() == old(self).spec_sleeping().remove(k)
                            &&& self.spec_queues() == old(self).spec_queues().update(
                                s.event.rewake_level as int,
                                old(self).spec_queues()[s.event.rewake_level as int].push(s.event),
                            )
                            &&& self.spec_blocked() == without(old(self).spec_blocked(), s.event.eid)
                        };
                    let l = old(self).spec_sleeping()[k].event.rewake_level as int;
                    assert(self.spec_queues()[l].len() > 0);
                }
                assert(first_nonempty(self.spec_queues()) < 4);
                lemma_reprioritized_keeps_nonempty(self.spec_queues(), self.spec_event_clock());
            }
        }
        self.reprioritize();
        let ghost qs = self.spec_queues();
        let ghost mid = *self;
        let mut i: usize = 0;
        let mut found: Option<EventRecord> = None;
        while i < NUM_EVENT_PRIORITIES && found.is_none()
            invariant
                self.wf(),
                i <= NUM_EVENT_PRIORITIES,
                found is None ==> self.spec_queues() == qs,
                found is None ==> forall|k: int| 0 <= k < i ==> qs[k].len() == 0,
                found matches Some(e) ==> i > 0 && first_nonempty(qs) == i - 1 && e == qs[i - 1][0]
                    && self.spec_queues() == qs.update(i - 1, qs[i - 1].drop_first()),
                self.spec_pending() == mid.spec_pending(),
                self.spec_blocked() == mid.spec_blocked(),
                self.spec_sleeping() == mid.spec_sleeping(),
                self.spec_current() == mid.spec_current(),
                self.spec_event_clock() == mid.spec_event_clock(),
                self.spec_system_clock() == mid.spec_system_clock(),
                self.spec_next_eid() == mid.spec_next_eid(),
            decreases NUM_EVENT_PRIORITIES - i,
        {
            found = self.try_pop(i);
            i = i + 1;
        }
        found
    }

    /// The first half of one turn of the run loop: with no queued event,
    /// `Idle`; else takes the next event and, when it has not completed,
    /// counts the poll and makes it the running event.
    pub fn start_next(&mut self) -> (r: RunStep)
        requires
            old(self).wf(),
            old(self).spec_event_clock() < u64::MAX,
            forall|k: int| 0 <= k < old(self).spec_sleeping().len() ==> (#[trigger] old(self).spec_sleeping()[k]).event.rewake_level
                < NUM_EVENT_PRIORITIES,
        ensures
            old(self).ids_ok() ==> final(self).ids_ok(),
            old(self).records_ok() ==> final(self).records_ok(),
            final(self).wf(),
            forall|k: int| 0 <= k < final(self).spec_sleeping().len() ==> (#[trigger] final(self).spec_sleeping()[k]).event.rewake_level
                < NUM_EVENT_PRIORITIES,
            first_nonempty(old(self).spec_queues()) == 4 ==> r == RunStep::Idle && *final(self) == *old(self),
            first_nonempty(old(self).spec_queues()) < 4 ==> r !is Idle,
            old(self).spec_sleeping().len() == 0 ==> (r matches RunStep::Poll(e) ==> e == spec_next_of(
                old(self).spec_queues(),
                old(self).spec_event_clock(),
            )),
            old(self).spec_sleeping().len() == 0 ==> (r matches RunStep::Skip(e) ==> e == spec_next_of(
                old(self).spec_queues(),
                old(self).spec_event_clock(),
            )),
            r matches RunStep::Poll(e) ==> final(self).spec_current() == Some(e) && old(self).spec_pending().contains(
                e.eid,
            ) && final(self).spec_event_clock() == old(self).spec_event_clock() + 1,
            r matches RunStep::Skip(e) ==> final(self).spec_current() is None && !old(self).spec_pending().contains(
                e.eid,
            ) && final(self).spec_event_clock() == old(self).spec_event_clock(),
            final(self).spec_pending() == old(self).spec_pending(),
            final(self).spec_system_clock() == old(self).spec_system_clock(),
            final(self).spec_next_eid() == old(self).spec_next_eid(),
    {
        if !self.have_unblocked_events() {
            return RunStep::Idle;
        }
        let next = self.next_event();
        let ghost after = self.spec_sleeping();
        let r = match next {
            Some(event) => {
                if self.contains_event(event.eid) {
                    self.event_clock = self.event_clock + 1;
                    self.current_event = Some(event);
                    RunStep::Poll(event)
                } else {
                    self.current_event = None;
                    RunStep::Skip(event)
                }
            },
            None => {
                self.current_event = None;
                RunStep::Idle
            },
        };
        assert(self.spec_sleeping() == after);
        r
    }

    /// The second half of one turn of the run loop, once the running event
    /// was polled: a completed event leaves the pending set; one still
    /// pending is stamped with the event clock and queued again at its
    /// priority unless it is blocked. No event runs afterwards.
    pub fn finish_poll(&mut self, ready: bool)
        requires
            old(self).wf(),
            old(self).spec_current() matches Some(e) ==> e.priority < NUM_EVENT_PRIORITIES,
        ensures
            old(self).ids_ok() ==> final(self).ids_ok(),
            old(self).records_ok() ==> final(self).records_ok(),
            final(self).wf(),
            final(self).spec_current() is None,
            final(self).spec_blocked() == old(self).spec_blocked(),
            final(self).spec_sleeping() == old(self).spec_sleeping(),
            final(self).spec_event_clock() == old(self).spec_event_clock(),
            final(self).spec_system_clock() == old(self).spec_system_clock(),
            final(self).spec_next_eid() == old(self).spec_next_eid(),
            old(self).spec_current() matches Some(e) ==> {
                &&& ready ==> final(self).spec_pending() == without(old(self).spec_pending(), e.eid)
                    && final(self).spec_queues() == old(self).spec_queues()
                &&& !ready && !old(self).spec_blocked().contains(e.eid) ==> final(self).spec_pending()
                    == old(self).spec_pending() && final(self).spec_queues() == old(self).spec_queues().update(
                    e.priority as int,
                    old(self).spec_queues()[e.priority as int].push(
                        EventRecord { scheduled_timestamp: old(self).spec_event_clock(), ..e },
                    ),
                )
                &&& !ready && old(self).spec_blocked().contains(e.eid) ==> final(self).spec_pending()
                    == old(self).spec_pending() && final(self).spec_queues() == old(self).spec_queues()
            },
            old(self).spec_current() is None ==> final(self).spec_pending() == old(self).spec_pending()
                && final(self).spec_queues() == old(self).spec_queues(),
    {
        match self.current_event {
            Some(event) => {
                if !ready {
                    let stamped = EventRecord { scheduled_timestamp: self.event_clock, ..event };
                    if !contains_id(&self.blocked_events, event.eid) {
                        self.enqueue(event.priority, stamped);
                    }
                } else {
                    remove_id(&mut self.pending_events, event.eid);
                }
            },
            None => {},
        }
        self.current_event = None;
        proof {
            assert(self.spec_sleeping() =~= old(self).spec_sleeping());
            if old(self).ids_ok() {
                if let Some(e) = old(self).spec_current() {
                    let pend = old(self).spec_pending();
                    lemma_without(pend, e.eid);
                    assert forall|k: int| 0 <= k < self.spec_pending().len() implies #[trigger] self.spec_pending()[k]
                        < self.spec_next_eid() by {
                        let v = self.spec_pending()[k];
                        if self.spec_pending() != pend {
                            assert(without(pend, e.eid).contains(v));
                            let j = choose|j: int| 0 <= j < pend.len() && pend[j] == v;
                            assert(pend[j] < old(self).spec_next_eid());
                        }
                    }
                }
            }
        }
    }
}

/// `without(s, x)` holds what `s` holds but `x`, and repeats nothing when
/// `s` repeats nothing.
pub proof fn lemma_without(s: Seq<u64>, x: u64)
    ensures
        forall|y: u64| #[trigger] without(s, x).contains(y) <==> (s.contains(y) && y != x),
        s.no_duplicates() ==> without(s, x).no_duplicates(),
    decreases s.len(),
{
    if s.len() == 0 {
        assert(without(s, x) == s);
    } else {
        let p = s.drop_last();
        lemma_without(p, x);
        let w = without(p, x);
        assert forall|y: u64| s.contains(y) <==> (p.contains(y) || y == s.last()) by {
            if s.contains(y) {
                let k = choose|k: int| 0 <= k < s.len() && s[k] == y;
                if k < s.len() - 1 {
                    assert(p[k] == y);
                }
            }
            if p.contains(y) {
                let k = choose|k: int| 0 <= k < p.len() && p[k] == y;
                assert(s[k] == y);
            }
            if y == s.last() {
                assert(s[s.len() - 1] == y);
            }
        }
        if s.last() != x {
            assert(without(s, x) == w.push(s.last()));
            assert forall|y: u64| w.push(s.last()).contains(y) <==> (w.contains(y) || y == s.last()) by {
                if w.push(s.last()).contains(y) {
                    let k = choose|k: int| 0 <= k < w.len() + 1 && w.push(s.last())[k] == y;
                    if k < w.len() {
                        assert(w[k] == y);
                    }
                }
                if w.contains(y) {
                    let k = choose|k: int| 0 <= k < w.len() && w[k] == y;
                    assert(w.push(s.last())[k] == y);
                }
                if y == s.last() {
                    assert(w.push(s.last())[w.len() as int] == y);
                }
            }
            if s.no_duplicates() {
                assert(p.no_duplicates()) by {
                    assert forall|i: int, j: int| 0 <= i < p.len() && 0 <= j < p.len() && i != j implies p[i]
                        != p[j] by {
                        assert(p[i] == s[i] && p[j] == s[j]);
                    }
                }
                assert(!p.contains(s.last())) by {
                    if p.contains(s.last()) {
                        let k = choose|k: int| 0 <= k < p.len() && p[k] == s.last();
                        assert(s[k] == s[s.len() - 1]);
                    }
                }
                let w2 = w.push(s.last());
                assert forall|i: int, j: int| 0 <= i < w2.len() && 0 <= j < w2.len() && i != j implies w2[i]
                    != w2[j] by {
                    if i == w.len() {
                        assert(w.contains(w2[j]));
                    } else if j == w.len() {
                        assert(w.contains(w2[i]));
                    }
                }
            }
        } else {
            assert(without(s, x) == w);
            if s.no_duplicates() {
                assert(p.no_duplicates()) by {
                    assert forall|i: int, j: int| 0 <= i < p.len() && 0 <= j < p.len() && i != j implies p[i]
                        != p[j] by {
                        assert(p[i] == s[i] && p[j] == s[j]);
                    }
                }
            }
        }
        assert forall|y: u64| #[trigger] without(s, x).contains(y) <==> (s.contains(y) && y != x) by {
            assert(w.contains(y) <==> (p.contains(y) && y != x));
            assert(s.contains(y) <==> (p.contains(y) || y == s.last()));
            if s.last() != x {
                assert(w.push(s.last()).contains(y) <==> (w.contains(y) || y == s.last()));
            }
        }
    }
}

/// Whether `v` holds `x`.
fn contains_id(v: &Vec<u64>, x: u64) -> (r: bool)
    ensures
        r == v@.contains(x),
{
    let mut i: usize = 0;
    while i < v.len()
        invariant
            i <= v@.len(),
            forall|k: int| 0 <= k < i ==> v@[k] != x,
        decreases v@.len() - i,
    {
        if v[i] == x {
            return true;
        }
        i = i + 1;
    }
    false
}

/// Adds `x` to `v` unless it is there.
fn insert_id(v: &mut Vec<u64>, x: u64)
    ensures
        final(v)@ == (if old(v)@.contains(x) { old(v)@ } else { old(v)@.push(x) }),
{
    if !contains_id(v, x) {
        v.push(x);
    }
}

/// Removes every occurrence of `x` from `v`.
fn remove_id(v: &mut Vec<u64>, x: u64)
    ensures
        final(v)@ == without(old(v)@, x),
{
    let mut kept: Vec<u64> = Vec::new();
    let mut i: usize = 0;
    while i < v.len()
        invariant
            i <= v@.len(),
            v@ == old(v)@,
            kept@ == without(v@.take(i as int), x),
        decreases v@.len() - i,
    {
        let y = v[i];
        proof {
            let s = v@.take(i + 1);
            assert(s.drop_last() =~= v@.take(i as int));
            assert(s =~= s.drop_last().push(y));
        }
        if y != x {
            kept.push(y);
        }
        i = i + 1;
    }
    proof {
        assert(v@.take(i as int) =~= v@);
    }
    *v = kept;
}

/// An event scheduled on a runner whose queues are empty is the next
/// event taken, whatever its priority: it has just been queued, so ageing
/// leaves it where it is.
pub proof fn lemma_schedule_then_next(qs: Seq<Seq<EventRecord>>, e: EventRecord, clock: u64)
    requires
        qs.len() == 4,
        forall|i: int| 0 <= i < 4 ==> (#[trigger] qs[i]).len() == 0,
        e.priority < 4,
        e.scheduled_timestamp == clock,
    ensures
        ({
            let queued = qs.update(e.priority as int, qs[e.priority as int].push(e));
            let aged = spec_reprioritized(queued, clock);
            &&& aged == queued
            &&& first_nonempty(aged) == e.priority
            &&& aged[e.priority as int][0] == e
        }),
{
    let queued = qs.update(e.priority as int, qs[e.priority as int].push(e));
    assert(queued[e.priority as int][0] == e);
    assert(age_level(queued, 1, clock) == queued);
    assert(age_level(queued, 2, clock) == queued);
    assert(age_level(queued, 3, clock) == queued);
}

/// Events of one level leave it in the order they joined it: taking the
/// front of a queue and appending to its back commute.
pub proof fn lemma_fifo(q: Seq<EventRecord>, e: EventRecord)
    requires
        q.len() > 0,
    ensures
        q.push(e)[0] == q[0],
        q.push(e).drop_first() == q.drop_first().push(e),
{
    assert(q.push(e).drop_first() =~= q.drop_first().push(e));
}

} // verus!
