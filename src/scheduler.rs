//! Dispatcher and resource lock manager of a fixed task set on one core.
//!
//! Pending tasks wait in `ready` in the order they became runnable. Tasks
//! that have started and not finished form `stack`: the last one runs, the
//! others were preempted and resume in turn. Held locks form `held`; each
//! raises the system priority to at least its resource's ceiling.
use vstd::prelude::*;
use crate::clock::{MonotonicClock, ClockModel, later_by, add_ticks, wrap_le, ticks_between};
use crate::delay_queue::{
    DelayQueue,
    QueueModel,
    TimerEntry,
    scheduled,
    popped,
    withdrawn,
    splits,
    lemma_without_task_bounded,
};

verus! {

#[derive(Clone, Copy, Debug, PartialEq, Eq)]
pub enum TaskState {
    Suspended,
    Runnable,
    Running,
}

/// Why a spawn was dropped.
#[derive(Clone, Copy, Debug, PartialEq, Eq)]
pub enum SpawnError {
    /// The task's dispatcher line already holds as many pending tasks as it
    /// can.
    CapacityExceeded,
}

/// A lock held by a running or preempted task: the resource, the task that
/// took it, and the system priority it raised execution to.
#[derive(Clone, Copy, Debug, PartialEq, Eq)]
pub struct Held {
    pub resource: usize,
    pub owner: usize,
    pub level: u8,
}

/// What a scheduler holds.
pub struct SchedModel {
    pub prio: Seq<u8>,
    pub line: Seq<usize>,
    pub ceilings: Seq<u8>,
    pub capacity: usize,
    pub ready: Seq<usize>,
    pub stack: Seq<usize>,
    pub held: Seq<Held>,
    pub values: Seq<i64>,
    pub dropped: u64,
    pub queue: QueueModel,
    pub clock: ClockModel,
}

/// No element occurs twice.
pub open spec fn distinct(s: Seq<usize>) -> bool {
    forall|i: int, j: int| 0 <= i < j < s.len() ==> s[i] != s[j]
}

/// Number of tasks in `ready` bound to dispatcher line `l`.
pub open spec fn backlog_of(ready: Seq<usize>, line: Seq<usize>, l: usize) -> nat
    decreases ready.len(),
{
    if ready.len() == 0 {
        0
    } else {
        backlog_of(ready.drop_last(), line, l) + if line[ready.last() as int] == l {
            1nat
        } else {
            0nat
        }
    }
}

/// `i` is the position in `ready` of the task to run next: no pending task
/// has a higher priority, and every earlier one has a lower priority.
pub open spec fn best_at(ready: Seq<usize>, prio: Seq<u8>, i: int) -> bool {
    &&& 0 <= i < ready.len()
    &&& forall|j: int| 0 <= j < ready.len() ==> prio[#[trigger] ready[j] as int] <= prio[ready[i] as int]
    &&& forall|j: int| 0 <= j < i ==> prio[#[trigger] ready[j] as int] < prio[ready[i] as int]
}

impl SchedModel {
    pub open spec fn num_tasks(self) -> nat {
        self.prio.len()
    }

    pub open spec fn wf(self) -> bool {
        &&& self.line.len() == self.prio.len()
        &&& self.values.len() == self.ceilings.len()
        &&& forall|i: int| 0 <= i < self.ready.len() ==> #[trigger] self.ready[i] < self.prio.len()
        &&& forall|i: int| 0 <= i < self.stack.len() ==> #[trigger] self.stack[i] < self.prio.len()
        &&& distinct(self.ready)
        &&& distinct(self.stack)
        &&& forall|i: int, j: int|
            0 <= i < self.ready.len() && 0 <= j < self.stack.len() ==> #[trigger] self.ready[i]
                != #[trigger] self.stack[j]
        &&& forall|i: int| 0 <= i < self.held.len() ==> {
            &&& (#[trigger] self.held[i]).resource < self.ceilings.len()
            &&& self.held[i].level >= self.ceilings[self.held[i].resource as int]
        }
        &&& forall|i: int, j: int|
            0 <= i <= j < self.held.len() ==> (#[trigger] self.held[i]).level <= (
            #[trigger] self.held[j]).level
        &&& self.queue.wf()
        &&& self.queue.now == self.clock.now
        &&& forall|i: int| 0 <= i < self.queue.entries.len() ==> (#[trigger] self.queue.entries[i]).task
            < self.prio.len()
    }

    /// Priority of the running task, zero when only idle runs.
    pub open spec fn running_priority(self) -> u8 {
        if self.stack.len() == 0 {
            0
        } else {
            self.prio[self.stack.last() as int]
        }
    }

    /// The system priority: the running task's priority, raised to the
    /// level of the innermost held lock.
    pub open spec fn system_priority(self) -> u8 {
        if self.held.len() == 0 || self.held.last().level <= self.running_priority() {
            self.running_priority()
        } else {
            self.held.last().level
        }
    }

    pub open spec fn running(self) -> Option<usize> {
        if self.stack.len() == 0 {
            None
        } else {
            Some(self.stack.last())
        }
    }

    pub open spec fn state(self, t: usize) -> TaskState {
        if self.running() == Some(t) {
            TaskState::Running
        } else if self.ready.contains(t) || self.stack.contains(t) {
            TaskState::Runnable
        } else {
            TaskState::Suspended
        }
    }

    /// Pending tasks on the dispatcher line of task `t`.
    pub open spec fn backlog(self, t: usize) -> nat {
        backlog_of(self.ready, self.line, self.line[t as int])
    }

    /// Whether the running task holds the lock of resource `r`.
    pub open spec fn holds_lock(self, r: usize) -> bool {
        exists|i: int|
            0 <= i < self.held.len() && (#[trigger] self.held[i]).resource == r && Some(
                self.held[i].owner,
            ) == self.running()
    }

    /// The model after spawning `t`, and the spawn's result: a task that is
    /// pending or started is left as it is; otherwise it is appended to the
    /// pending tasks, unless its line is full, in which case the spawn is
    /// dropped and counted.
    pub open spec fn spawned(self, t: usize) -> (SchedModel, Result<(), SpawnError>) {
        if self.ready.contains(t) || self.stack.contains(t) {
            (self, Ok(()))
        } else if self.backlog(t) >= self.capacity {
            (
                SchedModel {
                    dropped: if self.dropped == u64::MAX {
                        self.dropped
                    } else {
                        (self.dropped + 1) as u64
                    },
                    ..self
                },
                Err(SpawnError::CapacityExceeded),
            )
        } else {
            (SchedModel { ready: self.ready.push(t), ..self }, Ok(()))
        }
    }
}

/// The model after spawning each task of `ts` in turn.
pub open spec fn spawned_all(m: SchedModel, ts: Seq<usize>) -> SchedModel
    decreases ts.len(),
{
    if ts.len() == 0 {
        m
    } else {
        spawned_all(m, ts.drop_last()).spawned(ts.last()).0
    }
}

/// Whether `t` occurs in `v`.
fn contains(v: &Vec<usize>, t: usize) -> (r: bool)
    ensures
        r == v@.contains(t),
{
    let mut i: usize = 0;
    while i < v.len()
        invariant
            i <= v.len(),
            forall|j: int| 0 <= j < i ==> v@[j] != t,
        decreases v.len() - i,
    {
        if v[i] == t {
            return true;
        }
        i = i + 1;
    }
    false
}

/// `after` follows from `m` by one dispatch decision that returned
/// `started`: either the best pending task outranks the system priority and
/// moves from the pending tasks onto the running stack, or nothing changes.
pub open spec fn dispatched(m: SchedModel, after: SchedModel, started: Option<usize>) -> bool {
    match started {
        None => after == m && forall|i: int|
            best_at(m.ready, m.prio, i) ==> m.prio[m.ready[i] as int] <= m.system_priority(),
        Some(t) => exists|i: int|
            {
                &&& best_at(m.ready, m.prio, i)
                &&& m.ready[i] == t
                &&& m.prio[t as int] > m.system_priority()
                &&& after == SchedModel { ready: m.ready.remove(i), stack: m.stack.push(t), ..m }
            },
    }
}

/// `after` follows from `m` when its running task waits `ticks` ticks and
/// `waits` tells whether it went into the delay queue.
pub open spec fn delayed(m: SchedModel, ticks: u32, after: SchedModel, waits: bool) -> bool {
    let t = m.stack.last();
    let wake = later_by(m.clock.now, ticks as nat);
    let finished = SchedModel { stack: m.stack.drop_last(), clock: after.clock, ..m };
    &&& after.clock.now == m.clock.now
    &&& after.clock.started == m.clock.started
    &&& after.clock.tick_rate == m.clock.tick_rate
    &&& waits == !wrap_le(wake, m.clock.now)
    &&& exists|q1: QueueModel|
        #[trigger] withdrawn(m.queue, t, q1) && if waits {
            &&& scheduled(q1, t, wake, after.queue)
            &&& after == SchedModel { queue: after.queue, ..finished }
        } else {
            after == (SchedModel { queue: q1, ..finished }).spawned(t).0
        }
}

/// `after` follows from `m` when the clock moves forward `ticks` ticks and
/// the tasks `due` fire and are spawned in order.
pub open spec fn advanced(m: SchedModel, ticks: u32, after: SchedModel, due: Seq<usize>) -> bool {
    let now = later_by(m.clock.now, ticks as nat);
    exists|q1: QueueModel, clock: ClockModel|
        {
            &&& popped(m.queue, now, q1, due)
            &&& clock.now == now && clock.started == m.clock.started && clock.tick_rate
                == m.clock.tick_rate
            &&& after == spawned_all(SchedModel { queue: q1, clock: clock, ..m }, due)
        }
}

/// The tasks below `n` that are bound to line `l` and whose readiness flag
/// is set, in ascending order.
pub open spec fn bound_ready(line: Seq<usize>, flags: Seq<bool>, l: usize, n: nat) -> Seq<usize>
    decreases n,
{
    if n == 0 {
        Seq::empty()
    } else {
        let rest = bound_ready(line, flags, l, (n - 1) as nat);
        if line[n - 1] == l && flags[n - 1] {
            rest.push((n - 1) as usize)
        } else {
            rest
        }
    }
}

/// `r` is the pending task to run next in `m`, or `None` when nothing is
/// pending.
pub open spec fn selects(m: SchedModel, r: Option<usize>) -> bool {
    &&& r is None <==> m.ready.len() == 0
    &&& r matches Some(t) ==> exists|i: int| best_at(m.ready, m.prio, i) && m.ready[i] == t
}

/// Of two pending tasks, the one with the lower priority is neither
/// selected nor started while the other is pending.
pub proof fn lemma_higher_priority_first(
    m: SchedModel,
    a: usize,
    b: usize,
    r: Option<usize>,
    after: SchedModel,
    started: Option<usize>,
)
    requires
        m.wf(),
        m.ready.contains(a),
        m.ready.contains(b),
        m.prio[a as int] > m.prio[b as int],
        selects(m, r),
        dispatched(m, after, started),
    ensures
        r is Some,
        r != Some(b),
        started != Some(b),
{
    let ia = choose|ia: int| 0 <= ia < m.ready.len() && m.ready[ia] == a;
    if r == Some(b) {
        let i = choose|i: int| best_at(m.ready, m.prio, i) && m.ready[i] == b;
        assert(m.prio[m.ready[ia] as int] <= m.prio[m.ready[i] as int]);
    }
    if started == Some(b) {
        let i = choose|i: int| best_at(m.ready, m.prio, i) && m.ready[i] == b && m.prio[b as int] > m.system_priority()
            && after == SchedModel { ready: m.ready.remove(i), stack: m.stack.push(b), ..m };
        assert(m.prio[m.ready[ia] as int] <= m.prio[m.ready[i] as int]);
    }
}

/// While any task holds the lock of resource `r`, no task whose priority is
/// at most `r`'s ceiling is started: only tasks that never touch `r` can
/// preempt the holder.
pub proof fn lemma_lock_excludes_lower(m: SchedModel, r: usize, after: SchedModel, started: Option<usize>)
    requires
        m.wf(),
        exists|i: int| 0 <= i < m.held.len() && (#[trigger] m.held[i]).resource == r,
        dispatched(m, after, started),
    ensures
        started matches Some(t) ==> m.prio[t as int] > m.ceilings[r as int],
        after.held == m.held,
        after.values == m.values,
{
    let i = choose|i: int| 0 <= i < m.held.len() && (#[trigger] m.held[i]).resource == r;
    assert(m.held[i].level <= m.held[m.held.len() - 1].level);
    if started is Some {
        let t = started->Some_0;
        let k = choose|k: int| best_at(m.ready, m.prio, k) && m.ready[k] == t && m.prio[t as int] > m.system_priority()
            && after == SchedModel { ready: m.ready.remove(k), stack: m.stack.push(t), ..m };
    }
}

/// Spawning a task that is not yet pending or started, on a line whose
/// backlog is full, reports the lack of capacity and leaves the pending
/// tasks, the running stack, the locks and the shared values as they were.
pub proof fn lemma_full_line_drops_spawn(m: SchedModel, t: usize)
    requires
        m.wf(),
        t < m.num_tasks(),
        !m.ready.contains(t),
        !m.stack.contains(t),
        m.backlog(t) >= m.capacity,
    ensures
        m.spawned(t).1 == Err::<(), SpawnError>(SpawnError::CapacityExceeded),
        m.spawned(t).0.ready == m.ready,
        m.spawned(t).0.stack == m.stack,
        m.spawned(t).0.held == m.held,
        m.spawned(t).0.values == m.values,
        m.dropped < u64::MAX ==> m.spawned(t).0.dropped == m.dropped + 1,
{
}

pub struct Scheduler {
    prio: Vec<u8>,
    line: Vec<usize>,
    ceilings: Vec<u8>,
    capacity: usize,
    ready: Vec<usize>,
    stack: Vec<usize>,
    held: Vec<Held>,
    values: Vec<i64>,
    dropped: u64,
    queue: DelayQueue,
    clock: MonotonicClock,
}

impl View for Scheduler {
    type V = SchedModel;

    closed spec fn view(&self) -> SchedModel {
        SchedModel {
            prio: self.prio@,
            line: self.line@,
            ceilings: self.ceilings@,
            capacity: self.capacity,
            ready: self.ready@,
            stack: self.stack@,
            held: self.held@,
            values: self.values@,
            dropped: self.dropped,
            queue: self.queue@,
            clock: self.clock@,
        }
    }
}

impl Scheduler {
    /// A scheduler for tasks with the given priorities and dispatcher lines,
    /// and shared resources with the given ceilings and initial values. The
    /// clock is started at the given tick rate; nothing is pending, running,
    /// locked or waiting.
    pub fn new(
        prio: Vec<u8>,
        line: Vec<usize>,
        ceilings: Vec<u8>,
        values: Vec<i64>,
        capacity: usize,
        tick_rate: u32,
    ) -> (s: Scheduler)
        requires
            prio.len() == line.len(),
            ceilings.len() == values.len(),
        ensures
            s@.wf(),
            s@.prio == prio@,
            s@.line == line@,
            s@.ceilings == ceilings@,
            s@.values == values@,
            s@.capacity == capacity,
            s@.ready.len() == 0,
            s@.stack.len() == 0,
            s@.held.len() == 0,
            s@.dropped == 0,
            s@.queue.entries.len() == 0,
            s@.clock == (ClockModel { started: true, tick_rate, now: 0, armed: None }),
    {
        let mut clock = MonotonicClock::new();
        let _ = clock.start(tick_rate);
        Scheduler {
            prio,
            line,
            ceilings,
            capacity,
            ready: Vec::new(),
            stack: Vec::new(),
            held: Vec::new(),
            values,
            dropped: 0,
            queue: DelayQueue::new(0),
            clock,
        }
    }

    pub fn num_tasks(&self) -> (r: usize)
        ensures
            r == self@.num_tasks(),
    {
        self.prio.len()
    }

    /// The running task, if any.
    pub fn running(&self) -> (r: Option<usize>)
        ensures
            r == self@.running(),
    {
        if self.stack.len() == 0 {
            None
        } else {
            Some(self.stack[self.stack.len() - 1])
        }
    }

    /// Number of spawns dropped for lack of capacity.
    pub fn dropped(&self) -> (r: u64)
        ensures
            r == self@.dropped,
    {
        self.dropped
    }

    /// The current instant of the scheduler's clock.
    pub fn now(&self) -> (r: u32)
        ensures
            r == self@.clock.now,
    {
        self.clock.now()
    }

    /// The compare value the clock is armed with: the earliest deadline.
    pub fn armed(&self) -> (r: Option<u32>)
        ensures
            r == self@.clock.armed,
    {
        self.clock.armed()
    }

    /// The tasks that are pending, in the order they became runnable.
    pub fn pending(&self) -> (r: Vec<usize>)
        ensures
            r@ == self@.ready,
    {
        self.ready.clone()
    }

    /// The priority that execution currently runs at.
    pub fn system_priority(&self) -> (r: u8)
        requires
            self@.wf(),
        ensures
            r == self@.system_priority(),
    {
        let p: u8 = if self.stack.len() == 0 {
            0
        } else {
            self.prio[self.stack[self.stack.len() - 1]]
        };
        if self.held.len() == 0 || self.held[self.held.len() - 1].level <= p {
            p
        } else {
            self.held[self.held.len() - 1].level
        }
    }

    /// The state of task `t`.
    pub fn state(&self, t: usize) -> (r: TaskState)
        requires
            self@.wf(),
        ensures
            r == self@.state(t),
    {
        if self.stack.len() > 0 && self.stack[self.stack.len() - 1] == t {
            TaskState::Running
        } else if contains(&self.ready, t) || contains(&self.stack, t) {
            TaskState::Runnable
        } else {
            TaskState::Suspended
        }
    }

    /// Number of pending tasks on the dispatcher line of task `t`.
    pub fn backlog(&self, t: usize) -> (r: usize)
        requires
            self@.wf(),
            t < self@.num_tasks(),
        ensures
            r == self@.backlog(t),
    {
        let l = self.line[t];
        let mut n: usize = 0;
        let mut i: usize = 0;
        while i < self.ready.len()
            invariant
                self@.wf(),
                l == self@.line[t as int],
                i <= self.ready.len(),
                n == backlog_of(self.ready@.take(i as int), self.line@, l),
                n <= i,
            decreases self.ready.len() - i,
        {
            assert(self.ready@.take(i + 1).drop_last() == self.ready@.take(i as int));
            if self.line[self.ready[i]] == l {
                n = n + 1;
            }
            i = i + 1;
        }
        assert(self.ready@.take(self.ready.len() as int) == self.ready@);
        n
    }

    /// Position in the pending tasks of the one to run next: the earliest
    /// of those with the highest priority.
    fn best_index(&self) -> (r: Option<usize>)
        requires
            self@.wf(),
        ensures
            r is None <==> self@.ready.len() == 0,
            r matches Some(i) ==> best_at(self@.ready, self@.prio, i as int),
    {
        if self.ready.len() == 0 {
            return None;
        }
        let mut b: usize = 0;
        let mut i: usize = 1;
        while i < self.ready.len()
            invariant
                self@.wf(),
                1 <= i <= self.ready.len(),
                b < i,
                forall|j: int| 0 <= j < i ==> self@.prio[#[trigger] self@.ready[j] as int] <= self@.prio[self@.ready[b as int] as int],
                forall|j: int| 0 <= j < b ==> self@.prio[#[trigger] self@.ready[j] as int] < self@.prio[self@.ready[b as int] as int],
            decreases self.ready.len() - i,
        {
            if self.prio[self.ready[i]] > self.prio[self.ready[b]] {
                b = i;
            }
            i = i + 1;
        }
        Some(b)
    }

    /// The pending task to run next: the one with the highest priority,
    /// the earliest to become runnable among equals; `None` when nothing is
    /// pending.
    pub fn select(&self) -> (r: Option<usize>)
        requires
            self@.wf(),
        ensures
            selects(self@, r),
    {
        match self.best_index() {
            Some(i) => Some(self.ready[i]),
            None => None,
        }
    }

    /// Makes task `t` pending. A task that is pending or started is left as
    /// it is. When its dispatcher line already holds `capacity` pending
    /// tasks the spawn is dropped, the drop counter goes up (saturating) and
    /// the result is `CapacityExceeded`.
    pub fn spawn(&mut self, t: usize) -> (r: Result<(), SpawnError>)
        requires
            old(self)@.wf(),
            t < old(self)@.num_tasks(),
        ensures
            final(self)@.wf(),
            (final(self)@, r) == old(self)@.spawned(t),
    {
        if contains(&self.ready, t) || contains(&self.stack, t) {
            return Ok(());
        }
        if self.backlog(t) >= self.capacity {
            self.dropped = self.dropped.saturating_add(1);
            return Err(SpawnError::CapacityExceeded);
        }
        self.ready.push(t);
        proof {
            let r = self.ready@;
            assert(r.drop_last() == old(self)@.ready);
            assert forall|i: int, j: int| 0 <= i < j < r.len() implies r[i] != r[j] by {
                if j == r.len() - 1 {
                    assert(old(self)@.ready[i] == r[i]);
                }
            }
        }
        Ok(())
    }

    /// Starts the next pending task when its priority is above the system
    /// priority; the task that ran, if any, is preempted and resumes when
    /// the new one finishes. Returns the task started.
    pub fn dispatch(&mut self) -> (r: Option<usize>)
        requires
            old(self)@.wf(),
        ensures
            final(self)@.wf(),
            dispatched(old(self)@, final(self)@, r),
    {
        match self.best_index() {
            None => None,
            Some(i) => {
                let t = self.ready[i];
                let sp = self.system_priority();
                if self.prio[t] <= sp {
                    None
                } else {
                    let ghost before = self.ready@;
                    self.ready.remove(i);
                    self.stack.push(t);
                    proof {
                        let r = self.ready@;
                        assert(r == before.remove(i as int));
                        assert forall|a: int| 0 <= a < r.len() implies #[trigger] r[a] != t by {
                            if a < i { assert(r[a] == before[a]); } else { assert(r[a] == before[a + 1]); }
                        }
                        assert forall|a: int, b: int| 0 <= a < b < r.len() implies r[a] != r[b] by {
                            let a0 = if a < i { a } else { a + 1 };
                            let b0 = if b < i { b } else { b + 1 };
                            assert(r[a] == before[a0] && r[b] == before[b0]);
                        }
                        let st = self.stack@;
                        assert forall|a: int, b: int| 0 <= a < r.len() && 0 <= b < st.len() implies #[trigger] r[a] != #[trigger] st[b] by {
                            let a0 = if a < i { a } else { a + 1 };
                            assert(r[a] == before[a0]);
                            if b < st.len() - 1 {
                                assert(st[b] == old(self)@.stack[b]);
                            }
                        }
                        assert forall|a: int, b: int| 0 <= a < b < st.len() implies st[a] != st[b] by {
                            assert(old(self)@.ready[i as int] == t);
                            if b < st.len() - 1 {
                                assert(st[a] == old(self)@.stack[a] && st[b] == old(self)@.stack[b]);
                            } else {
                                assert(st[a] == old(self)@.stack[a]);
                            }
                        }
                    }
                    Some(t)
                }
            },
        }
    }

    /// The running task finishes its run, or awaits its next event: it
    /// becomes suspended and the task it preempted, if any, resumes. It must
    /// hold no lock.
    pub fn finish_running(&mut self) -> (t: usize)
        requires
            old(self)@.wf(),
            old(self)@.stack.len() > 0,
            forall|i: int| 0 <= i < old(self)@.held.len() ==> (#[trigger] old(self)@.held[i]).owner != old(self)@.stack.last(),
        ensures
            final(self)@.wf(),
            Some(t) == old(self)@.running(),
            final(self)@ == (SchedModel { stack: old(self)@.stack.drop_last(), ..old(self)@ }),
            final(self)@.state(t) == TaskState::Suspended,
    {
        let t = self.stack.pop().unwrap();
        proof {
            let st = self.stack@;
            assert(st == old(self)@.stack.drop_last());
            assert forall|a: int| 0 <= a < st.len() implies #[trigger] st[a] != t by {
                assert(old(self)@.stack[a] == st[a]);
            }
            if self.ready@.contains(t) {
                let a = choose|a: int| 0 <= a < self.ready@.len() && self.ready@[a] == t;
                assert(old(self)@.stack[old(self)@.stack.len() - 1] == t);
            }
        }
        t
    }

    /// The running task takes the lock of resource `r`: execution is raised
    /// to the higher of the system priority and `r`'s ceiling until the
    /// matching unlock. The task's priority must not exceed the ceiling.
    pub fn lock(&mut self, r: usize)
        requires
            old(self)@.wf(),
            old(self)@.stack.len() > 0,
            r < old(self)@.ceilings.len(),
            old(self)@.prio[old(self)@.stack.last() as int] <= old(self)@.ceilings[r as int],
        ensures
            final(self)@.wf(),
            final(self)@ == (SchedModel {
                held: old(self)@.held.push(
                    Held {
                        resource: r,
                        owner: old(self)@.stack.last(),
                        level: if old(self)@.system_priority() <= old(self)@.ceilings[r as int] {
                            old(self)@.ceilings[r as int]
                        } else {
                            old(self)@.system_priority()
                        },
                    },
                ),
                ..old(self)@
            }),
            final(self)@.system_priority() >= old(self)@.ceilings[r as int],
            final(self)@.system_priority() >= old(self)@.system_priority(),
            final(self)@.holds_lock(r),
    {
        let sp = self.system_priority();
        let c = self.ceilings[r];
        let level = if sp <= c { c } else { sp };
        let owner = self.stack[self.stack.len() - 1];
        self.held.push(Held { resource: r, owner, level });
        proof {
            let h = self.held@;
            assert(h[h.len() - 1].resource == r);
            assert forall|i: int, j: int| 0 <= i <= j < h.len() implies (#[trigger] h[i]).level <= (#[trigger] h[j]).level by {
                if j == h.len() - 1 && i < j {
                    assert(h[i] == old(self)@.held[i]);
                    assert(old(self)@.held[i].level <= old(self)@.held.last().level);
                }
            }
        }
    }

    /// The running task releases its innermost lock; the system priority
    /// returns to what it was before that lock was taken.
    pub fn unlock(&mut self)
        requires
            old(self)@.wf(),
            old(self)@.stack.len() > 0,
            old(self)@.held.len() > 0,
            old(self)@.held.last().owner == old(self)@.stack.last(),
        ensures
            final(self)@.wf(),
            final(self)@ == (SchedModel { held: old(self)@.held.drop_last(), ..old(self)@ }),
    {
        self.held.pop();
        assert(self.held@ == old(self)@.held.drop_last());
    }

    /// The value of shared resource `r`, read by the running task under its
    /// lock.
    pub fn read(&self, r: usize) -> (v: i64)
        requires
            self@.wf(),
            r < self@.values.len(),
            self@.holds_lock(r),
        ensures
            v == self@.values[r as int],
    {
        self.values[r]
    }

    /// The value of shared resource `r` as seen from idle, when no task has
    /// started.
    pub fn idle_value(&self, r: usize) -> (v: i64)
        requires
            self@.wf(),
            r < self@.values.len(),
            self@.stack.len() == 0,
        ensures
            v == self@.values[r as int],
    {
        self.values[r]
    }

    /// The running task stores `v` in shared resource `r` under its lock.
    pub fn write(&mut self, r: usize, v: i64)
        requires
            old(self)@.wf(),
            r < old(self)@.values.len(),
            old(self)@.holds_lock(r),
        ensures
            final(self)@.wf(),
            final(self)@ == (SchedModel { values: old(self)@.values.update(r as int, v), ..old(self)@ }),
    {
        self.values.set(r, v);
    }

    /// The running task waits `ticks` ticks: it finishes its run, and any
    /// earlier wait of it is withdrawn. A deadline that is already reached
    /// (zero ticks, or more than half a clock period) spawns it again at
    /// once; otherwise it waits in the delay queue. Returns whether it
    /// waits.
    pub fn delay_running(&mut self, ticks: u32) -> (waits: bool)
        requires
            old(self)@.wf(),
            old(self)@.stack.len() > 0,
            forall|i: int| 0 <= i < old(self)@.held.len() ==> (#[trigger] old(self)@.held[i]).owner != old(self)@.stack.last(),
        ensures
            final(self)@.wf(),
            delayed(old(self)@, ticks, final(self)@, waits),
    {
        let ghost m0 = self@;
        let t = self.finish_running();
        let ghost m1 = self@;
        let now = self.clock.now();
        let wake = add_ticks(now, ticks);
        self.queue.withdraw(t, &mut self.clock);
        let ghost m2 = self@;
        proof {
            lemma_without_task_bounded(m1.queue.entries, t, m1.prio.len());
        }
        let waits = self.queue.schedule(t, wake, &mut self.clock);
        let ghost m3 = self@;
        proof {
            if waits {
                let k = choose|k: int|
                    splits(m2.queue.entries, m2.queue.now, ticks_between(m2.queue.now, wake), k) && m3.queue.entries
                        == m2.queue.entries.insert(k, TimerEntry { task: t, wake });
                assert forall|i: int| 0 <= i < m3.queue.entries.len() implies (#[trigger] m3.queue.entries[i]).task
                    < m3.prio.len() by {
                    if i < k {
                        assert(m3.queue.entries[i] == m2.queue.entries[i]);
                    } else if i > k {
                        assert(m3.queue.entries[i] == m2.queue.entries[i - 1]);
                    }
                }
            }
        }
        assert(m1 == SchedModel { stack: m0.stack.drop_last(), ..m0 });
        assert(m3 == SchedModel { queue: m3.queue, clock: m3.clock, ..m1 });
        if !waits {
            assert(t < self@.num_tasks());
            let _ = self.spawn(t);
        }
        proof {
            let finished = SchedModel { stack: m0.stack.drop_last(), ..m0 };
            let wk = later_by(m0.clock.now, ticks as nat);
            assert(wake == wk);
            assert(withdrawn(m0.queue, t, m2.queue));
            assert(m3.clock.now == m0.clock.now);
            if waits {
                assert(self@ == SchedModel { queue: self@.queue, clock: m3.clock, ..finished });
            } else {
                assert(m3.queue == m2.queue);
                assert(self@ == (SchedModel { queue: m2.queue, clock: m3.clock, ..finished }).spawned(t).0);
            }
            assert(self@.clock == m3.clock);
        }
        waits
    }

    /// The clock moves forward `ticks` ticks. Every task whose deadline is
    /// reached leaves the delay queue and is spawned, in firing order.
    /// Returns those tasks.
    pub fn advance(&mut self, ticks: u32) -> (due: Vec<usize>)
        requires
            old(self)@.wf(),
        ensures
            final(self)@.wf(),
            advanced(old(self)@, ticks, final(self)@, due@),
    {
        self.clock.advance(ticks);
        let now = self.clock.now();
        let due = self.queue.pop_due(now, &mut self.clock);
        let ghost mid = self@;
        proof {
            let q0 = old(self)@.queue.entries;
            assert forall|j: int| 0 <= j < due@.len() implies #[trigger] due@[j] < mid.num_tasks() by {
                assert(due@[j] == q0[j].task);
            }
            assert(mid.queue.now == mid.clock.now);
            let k = due@.len() as int;
            assert forall|i: int| 0 <= i < mid.queue.entries.len() implies (#[trigger] mid.queue.entries[i]).task
                < mid.prio.len() by {
                assert(mid.queue.entries[i] == q0[i + k]);
            }
            assert(mid == SchedModel { queue: mid.queue, clock: mid.clock, ..old(self)@ });
        }
        let mut i: usize = 0;
        while i < due.len()
            invariant
                mid.wf(),
                self@.wf(),
                i <= due.len(),
                self@ == spawned_all(mid, due@.take(i as int)),
                self@.prio == mid.prio,
                forall|j: int| 0 <= j < due@.len() ==> #[trigger] due@[j] < mid.num_tasks(),
            decreases due.len() - i,
        {
            assert(due@.take(i + 1).drop_last() == due@.take(i as int));
            let _ = self.spawn(due[i]);
            i = i + 1;
        }
        assert(due@.take(due.len() as int) == due@);
        due
    }

    /// Interrupt line `l` fires: every task bound to it whose readiness
    /// flag is set is spawned, in ascending order of task.
    pub fn fire_line(&mut self, l: usize, readiness: &Vec<bool>)
        requires
            old(self)@.wf(),
            readiness.len() == old(self)@.num_tasks(),
        ensures
            final(self)@.wf(),
            final(self)@ == spawned_all(old(self)@, bound_ready(old(self)@.line, readiness@, l, old(self)@.num_tasks())),
    {
        let ghost m0 = self@;
        let n = self.prio.len();
        let mut t: usize = 0;
        while t < n
            invariant
                self@.wf(),
                n == m0.num_tasks(),
                t <= n,
                readiness.len() == n,
                self@ == spawned_all(m0, bound_ready(m0.line, readiness@, l, t as nat)),
                self@.prio == m0.prio,
                self@.line == m0.line,
            decreases n - t,
        {
            if self.line[t] == l && readiness[t] {
                assert(bound_ready(m0.line, readiness@, l, (t + 1) as nat).drop_last() == bound_ready(m0.line, readiness@, l, t as nat));
                let _ = self.spawn(t);
            }
            t = t + 1;
        }
    }
}

} // verus!
