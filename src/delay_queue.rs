//! Delay queue: timed wakeups ordered by deadline, first-in first-out among
//! equal deadlines.
//!
//! The queue keeps the instant it was last brought up to (`now`) and orders
//! entries by their forward distance from it. Every entry lies strictly in
//! the future, at most half a clock period ahead, so the order never
//! depends on where the raw counter wraps.
use vstd::prelude::*;
use crate::clock::{ticks_between, wrap_le, later_by, elapsed, MonotonicClock, ClockModel, HALF, MODULUS};

verus! {

/// A task waiting for an instant.
#[derive(Clone, Copy, Debug, PartialEq, Eq)]
pub struct TimerEntry {
    pub task: usize,
    pub wake: u32,
}

/// Distance of an entry's deadline from `base`.
pub open spec fn lag(base: u32, e: TimerEntry) -> nat {
    ticks_between(base, e.wake)
}

/// Every entry lies in `(base, base + HALF]` and the entries are ordered by
/// their distance from `base`.
pub open spec fn ordered_from(s: Seq<TimerEntry>, base: u32) -> bool {
    &&& forall|i: int| 0 <= i < s.len() ==> 1 <= #[trigger] lag(base, s[i]) <= HALF
    &&& forall|i: int, j: int|
        #![trigger s[i], s[j]]
        0 <= i <= j < s.len() ==> lag(base, s[i]) <= lag(base, s[j])
}

/// `k` splits `s` into the entries at most `d` ticks after `base` and those
/// further away.
pub open spec fn splits(s: Seq<TimerEntry>, base: u32, d: nat, k: int) -> bool {
    &&& 0 <= k <= s.len()
    &&& forall|i: int| 0 <= i < k ==> lag(base, #[trigger] s[i]) <= d
    &&& forall|i: int| k <= i < s.len() ==> lag(base, #[trigger] s[i]) > d
}

/// The tasks of a sequence of entries, in the same order.
pub open spec fn tasks_of(s: Seq<TimerEntry>) -> Seq<usize> {
    s.map_values(|e: TimerEntry| e.task)
}

/// The entries that do not belong to `task`, in the same order.
pub open spec fn without_task(s: Seq<TimerEntry>, task: usize) -> Seq<TimerEntry>
    decreases s.len(),
{
    if s.len() == 0 {
        s
    } else {
        let rest = without_task(s.drop_last(), task);
        if s.last().task != task {
            rest.push(s.last())
        } else {
            rest
        }
    }
}

/// What a delay queue holds: its current instant and its entries in firing
/// order.
pub struct QueueModel {
    pub now: u32,
    pub entries: Seq<TimerEntry>,
}

impl QueueModel {
    pub open spec fn wf(self) -> bool {
        ordered_from(self.entries, self.now)
    }

    /// The deadline that the clock should be armed with.
    pub open spec fn earliest(self) -> Option<u32> {
        if self.entries.len() == 0 {
            None
        } else {
            Some(self.entries[0].wake)
        }
    }

    /// Whether `task` has an entry.
    pub open spec fn holds(self, task: usize) -> bool {
        tasks_of(self.entries).contains(task)
    }
}

/// `after` is `q` with an entry of `task` at `wake` placed after every
/// entry whose deadline is not later.
pub open spec fn scheduled(q: QueueModel, task: usize, wake: u32, after: QueueModel) -> bool {
    &&& after.now == q.now
    &&& exists|k: int|
        splits(q.entries, q.now, ticks_between(q.now, wake), k) && after.entries
            == q.entries.insert(k, TimerEntry { task, wake })
}

/// Bringing `q` up to `now` leaves `after` and fires the tasks `due`: the
/// entries at most `ticks_between(q.now, now)` ticks ahead, in order.
pub open spec fn popped(q: QueueModel, now: u32, after: QueueModel, due: Seq<usize>) -> bool {
    &&& splits(q.entries, q.now, ticks_between(q.now, now), due.len() as int)
    &&& due == tasks_of(q.entries.take(due.len() as int))
    &&& after.entries == q.entries.skip(due.len() as int)
    &&& after.now == now
}

/// `after` is `q` without the entries of `task`.
pub open spec fn withdrawn(q: QueueModel, task: usize, after: QueueModel) -> bool {
    &&& after.now == q.now
    &&& after.entries == without_task(q.entries, task)
}

/// The clock after the queue's earliest deadline went from `before` to
/// `after`: re-armed when it changed, left alone otherwise.
pub open spec fn rearmed(c: ClockModel, before: Option<u32>, after: Option<u32>) -> ClockModel {
    if before == after {
        c
    } else {
        ClockModel { armed: after, ..c }
    }
}

pub struct DelayQueue {
    now: u32,
    entries: Vec<TimerEntry>,
}

impl View for DelayQueue {
    type V = QueueModel;

    closed spec fn view(&self) -> QueueModel {
        QueueModel { now: self.now, entries: self.entries@ }
    }
}

/// Going forward `d` ticks from `base` shortens the distance to every later
/// instant by `d`.
proof fn lemma_shift(base: u32, now: u32, w: u32)
    requires
        ticks_between(base, now) <= ticks_between(base, w),
    ensures
        ticks_between(now, w) == ticks_between(base, w) - ticks_between(base, now),
{
}

/// An instant `o` ticks ahead, with `0 < o <= HALF`, is exactly one that the
/// wrap-aware comparison does not count as reached.
proof fn lemma_future(now: u32, w: u32)
    ensures
        (1 <= ticks_between(now, w) <= HALF) == !wrap_le(w, now),
{
}

/// No entry of `task` is left once its entries are removed.
proof fn lemma_without_task_lacks(s: Seq<TimerEntry>, task: usize)
    ensures
        forall|i: int| 0 <= i < without_task(s, task).len() ==> (#[trigger] without_task(s, task)[i]).task != task,
    decreases s.len(),
{
    if s.len() > 0 {
        lemma_without_task_lacks(s.drop_last(), task);
        let rest = without_task(s.drop_last(), task);
        assert forall|i: int| 0 <= i < without_task(s, task).len() implies (#[trigger] without_task(
            s,
            task,
        )[i]).task != task by {
            if i < rest.len() {
                assert(without_task(s, task)[i] == rest[i]);
            }
        }
    }
}

/// Removing the entries of a task keeps every remaining task below `n`.
pub proof fn lemma_without_task_bounded(s: Seq<TimerEntry>, task: usize, n: nat)
    requires
        forall|i: int| 0 <= i < s.len() ==> (#[trigger] s[i]).task < n,
    ensures
        forall|i: int| 0 <= i < without_task(s, task).len() ==> (#[trigger] without_task(s, task)[i]).task < n,
    decreases s.len(),
{
    if s.len() > 0 {
        lemma_without_task_bounded(s.drop_last(), task, n);
        let rest = without_task(s.drop_last(), task);
        assert forall|i: int| 0 <= i < without_task(s, task).len() implies (#[trigger] without_task(
            s,
            task,
        )[i]).task < n by {
            if i < rest.len() {
                assert(without_task(s, task)[i] == rest[i]);
            }
        }
    }
}

/// A deadline `delta` ticks ahead, with `0 < delta <= HALF`, is queued, and
/// bringing the queue `m` ticks forward fires it exactly when `m >= delta`,
/// wherever the counter wraps in between; it fires at most once.
pub proof fn lemma_fires_after_delay(
    q: QueueModel,
    task: usize,
    delta: nat,
    m: nat,
    q1: QueueModel,
    q2: QueueModel,
    due: Seq<usize>,
)
    requires
        q.wf(),
        !q.holds(task),
        1 <= delta <= HALF,
        m < MODULUS,
        scheduled(q, task, later_by(q.now, delta), q1),
        popped(q1, later_by(q.now, m), q2, due),
    ensures
        !wrap_le(later_by(q.now, delta), q.now),
        due.contains(task) == (m >= delta),
        forall|i: int, j: int| 0 <= i < j < due.len() && due[i] == task ==> due[j] != task,
        due.contains(task) ==> !q2.holds(task),
        !due.contains(task) ==> q2.holds(task),
{
    let t = later_by(q.now, delta);
    let e = TimerEntry { task, wake: t };
    assert(ticks_between(q.now, t) == delta);
    assert(ticks_between(q.now, later_by(q.now, m)) == m);
    lemma_future(q.now, t);
    let k = choose|k: int|
        splits(q.entries, q.now, ticks_between(q.now, t), k) && q1.entries == q.entries.insert(k, e);
    let n = due.len() as int;
    assert(q1.entries[k] == e);
    assert forall|i: int| 0 <= i < q1.entries.len() && i != k implies (#[trigger] q1.entries[i]).task
        != task by {
        let i0 = if i < k { i } else { i - 1 };
        assert(q1.entries[i] == q.entries[i0]);
        assert(tasks_of(q.entries)[i0] == q.entries[i0].task);
    }
    assert(forall|i: int| 0 <= i < n ==> #[trigger] due[i] == q1.entries[i].task);
    if m >= delta {
        assert(k < n);
        assert(due[k] == task);
        if q2.holds(task) {
            let j = choose|j: int| 0 <= j < tasks_of(q2.entries).len() && tasks_of(q2.entries)[j] == task;
            assert(q2.entries[j] == q1.entries[j + n]);
        }
    } else {
        assert(k >= n);
        assert(q2.entries[k - n] == e);
        assert(tasks_of(q2.entries)[k - n] == task);
        if due.contains(task) {
            let j = choose|j: int| 0 <= j < due.len() && due[j] == task;
        }
    }
}

/// Scheduling `task` for the future instant `t` and bringing the queue up
/// to exactly `t` fires it once, and leaves no entry of it behind.
pub proof fn lemma_fires_at_deadline(
    q: QueueModel,
    task: usize,
    t: u32,
    q1: QueueModel,
    q2: QueueModel,
    due: Seq<usize>,
)
    requires
        q.wf(),
        !q.holds(task),
        !wrap_le(t, q.now),
        scheduled(q, task, t, q1),
        popped(q1, t, q2, due),
    ensures
        exists|i: int| 0 <= i < due.len() && due[i] == task,
        forall|i: int, j: int| 0 <= i < due.len() && 0 <= j < due.len() && due[i] == task && due[j] == task ==> i == j,
        !q2.holds(task),
{
    let delta = ticks_between(q.now, t);
    lemma_future(q.now, t);
    assert(later_by(q.now, delta) == t);
    lemma_fires_after_delay(q, task, delta, delta, q1, q2, due);
    let i = choose|i: int| 0 <= i < due.len() && due[i] == task;
}

/// Scheduling `task` for the future instant `t` and bringing the queue up
/// to the instant one tick before `t` does not fire it.
pub proof fn lemma_not_fired_before_deadline(
    q: QueueModel,
    task: usize,
    t: u32,
    q1: QueueModel,
    q2: QueueModel,
    due: Seq<usize>,
)
    requires
        q.wf(),
        !q.holds(task),
        !wrap_le(t, q.now),
        scheduled(q, task, t, q1),
        popped(q1, later_by(t, (MODULUS - 1) as nat), q2, due),
    ensures
        !due.contains(task),
        q2.holds(task),
{
    let delta = ticks_between(q.now, t);
    lemma_future(q.now, t);
    assert(later_by(q.now, delta) == t);
    assert(later_by(t, (MODULUS - 1) as nat) == later_by(q.now, (delta - 1) as nat));
    lemma_fires_after_delay(q, task, delta, (delta - 1) as nat, q1, q2, due);
}

/// Once the entries of `task` are withdrawn, bringing the queue up to any
/// instant never fires it.
pub proof fn lemma_withdrawn_never_fires(
    q: QueueModel,
    task: usize,
    q1: QueueModel,
    now: u32,
    q2: QueueModel,
    due: Seq<usize>,
)
    requires
        withdrawn(q, task, q1),
        popped(q1, now, q2, due),
    ensures
        !due.contains(task),
        !q2.holds(task),
{
    lemma_without_task_lacks(q.entries, task);
    if due.contains(task) {
        let j = choose|j: int| 0 <= j < due.len() && due[j] == task;
        assert(due[j] == q1.entries[j].task);
    }
    if q2.holds(task) {
        let j = choose|j: int| 0 <= j < tasks_of(q2.entries).len() && tasks_of(q2.entries)[j] == task;
        assert(q2.entries[j] == q1.entries[j + due.len()]);
    }
}

/// Arms the clock with `after`, or clears it, when it differs from `before`.
fn rearm(clock: &mut MonotonicClock, before: Option<u32>, after: Option<u32>)
    ensures
        final(clock)@ == rearmed(old(clock)@, before, after),
{
    match (before, after) {
        (Some(b), Some(a)) => {
            if a != b {
                clock.arm(a);
            }
        },
        (None, Some(a)) => clock.arm(a),
        (Some(_), None) => clock.disarm(),
        (None, None) => {},
    }
}

impl DelayQueue {
    /// An empty queue whose current instant is `now`.
    pub fn new(now: u32) -> (q: DelayQueue)
        ensures
            q@.now == now,
            q@.entries.len() == 0,
            q@.wf(),
    {
        DelayQueue { now, entries: Vec::new() }
    }

    /// The instant the queue was last brought up to.
    pub fn now(&self) -> (r: u32)
        ensures
            r == self@.now,
    {
        self.now
    }

    /// Number of waiting entries.
    pub fn len(&self) -> (r: usize)
        ensures
            r == self@.entries.len(),
    {
        self.entries.len()
    }

    /// The next deadline, or `None` when nothing waits.
    pub fn peek_earliest(&self) -> (r: Option<u32>)
        ensures
            r == self@.earliest(),
    {
        if self.entries.len() == 0 {
            None
        } else {
            Some(self.entries[0].wake)
        }
    }

    /// Index of the first entry further than `d` ticks from the current
    /// instant.
    fn split_point(&self, d: u32) -> (k: usize)
        requires
            self@.wf(),
        ensures
            splits(self@.entries, self@.now, d as nat, k as int),
    {
        let mut k: usize = 0;
        while k < self.entries.len() && elapsed(self.now, self.entries[k].wake) <= d
            invariant
                self@.wf(),
                k <= self.entries.len(),
                forall|i: int| 0 <= i < k ==> lag(self.now, #[trigger] self.entries@[i]) <= d,
            decreases self.entries.len() - k,
        {
            k = k + 1;
        }
        assert forall|i: int| k <= i < self.entries.len() implies lag(
            self.now,
            #[trigger] self.entries@[i],
        ) > d by {
            assert(lag(self.now, self.entries@[k as int]) <= lag(self.now, self.entries@[i]));
        }
        k
    }

    /// Queues `task` to wake at `wake`. A deadline that the wrap-aware
    /// comparison counts as already reached is not queued: the result is
    /// then `false` and the task is to run at once. A queued entry goes
    /// after every entry with the same or an earlier deadline. The clock is
    /// re-armed when the earliest deadline changes.
    pub fn schedule(&mut self, task: usize, wake: u32, clock: &mut MonotonicClock) -> (queued: bool)
        requires
            old(self)@.wf(),
        ensures
            final(self)@.wf(),
            final(self)@.now == old(self)@.now,
            queued == !wrap_le(wake, old(self)@.now),
            !queued ==> final(self)@ == old(self)@,
            queued ==> scheduled(old(self)@, task, wake, final(self)@),
            final(clock)@ == rearmed(old(clock)@, old(self)@.earliest(), final(self)@.earliest()),
    {
        proof {
            lemma_future(self.now, wake);
        }
        let o = elapsed(self.now, wake);
        if o == 0 || o > HALF {
            return false;
        }
        let k = self.split_point(o);
        let ghost before = self.entries@;
        let e = TimerEntry { task, wake };
        self.entries.insert(k, e);
        proof {
            let s = self.entries@;
            assert(s == before.insert(k as int, e));
            assert forall|i: int, j: int|
                #![trigger s[i], s[j]]
                0 <= i <= j < s.len() implies lag(self.now, s[i]) <= lag(self.now, s[j]) by {
                if i < k && j > k {
                    assert(s[j] == before[j - 1]);
                } else if i > k {
                    assert(s[i] == before[i - 1] && s[j] == before[j - 1]);
                }
            }
            assert forall|i: int| 0 <= i < s.len() implies 1 <= #[trigger] lag(self.now, s[i])
                <= HALF by {
                if i < k {
                    assert(s[i] == before[i]);
                } else if i > k {
                    assert(s[i] == before[i - 1]);
                }
            }
        }
        if k == 0 {
            clock.arm(wake);
        }
        true
    }

    /// Brings the queue up to `now`, taken as `ticks_between(self.now, now)`
    /// ticks after its current instant, and removes and returns the tasks of
    /// every entry whose deadline has been reached, in firing order. The
    /// clock is re-armed when the earliest deadline changes.
    pub fn pop_due(&mut self, now: u32, clock: &mut MonotonicClock) -> (due: Vec<usize>)
        requires
            old(self)@.wf(),
        ensures
            final(self)@.wf(),
            popped(old(self)@, now, final(self)@, due@),
            final(clock)@ == rearmed(old(clock)@, old(self)@.earliest(), final(self)@.earliest()),
    {
        let first = self.peek_earliest();
        let d = elapsed(self.now, now);
        let k = self.split_point(d);
        let ghost before = self.entries@;
        let ghost base = self.now;
        let mut due: Vec<usize> = Vec::new();
        let mut i: usize = 0;
        while i < k
            invariant
                k <= self.entries.len(),
                i <= k,
                due@ == tasks_of(self.entries@.take(i as int)),
            decreases k - i,
        {
            assert(self.entries@.take(i + 1) == self.entries@.take(i as int).push(self.entries@[i as int]));
            due.push(self.entries[i].task);
            i = i + 1;
        }
        let mut rest: Vec<TimerEntry> = Vec::new();
        let mut j: usize = k;
        while j < self.entries.len()
            invariant
                k <= j <= self.entries.len(),
                rest@ == self.entries@.subrange(k as int, j as int),
            decreases self.entries.len() - j,
        {
            assert(self.entries@.subrange(k as int, j + 1) == self.entries@.subrange(k as int, j as int).push(self.entries@[j as int]));
            rest.push(self.entries[j]);
            j = j + 1;
        }
        assert(rest@ == before.skip(k as int));
        self.entries = rest;
        self.now = now;
        proof {
            let s = self.entries@;
            assert forall|i: int| 0 <= i < s.len() implies 1 <= #[trigger] lag(now, s[i]) <= HALF by {
                assert(s[i] == before[i + k]);
                lemma_shift(base, now, s[i].wake);
            }
            assert forall|i: int, j: int|
                #![trigger s[i], s[j]]
                0 <= i <= j < s.len() implies lag(now, s[i]) <= lag(now, s[j]) by {
                assert(s[i] == before[i + k] && s[j] == before[j + k]);
                lemma_shift(base, now, s[i].wake);
                lemma_shift(base, now, s[j].wake);
            }
        }
        let after = self.peek_earliest();
        rearm(clock, first, after);
        due
    }

    /// Removes every entry of `task`; the others keep their order. Returns
    /// whether any was removed. The clock is re-armed when the earliest
    /// deadline changes.
    pub fn withdraw(&mut self, task: usize, clock: &mut MonotonicClock) -> (removed: bool)
        requires
            old(self)@.wf(),
        ensures
            final(self)@.wf(),
            withdrawn(old(self)@, task, final(self)@),
            !final(self)@.holds(task),
            removed == old(self)@.holds(task),
            final(clock)@ == rearmed(old(clock)@, old(self)@.earliest(), final(self)@.earliest()),
    {
        let ghost s = self.entries@;
        let ghost base = self.now;
        let mut kept: Vec<TimerEntry> = Vec::new();
        let mut removed = false;
        let mut i: usize = 0;
        while i < self.entries.len()
            invariant
                s == self.entries@,
                base == self.now,
                ordered_from(s, base),
                i <= s.len(),
                kept@ == without_task(s.take(i as int), task),
                ordered_from(kept@, base),
                forall|m: int| 0 <= m < kept@.len() ==> exists|n: int| 0 <= n < i && #[trigger] kept@[m] == s[n],
                removed == tasks_of(s.take(i as int)).contains(task),
                !removed ==> kept@ == s.take(i as int),
                forall|m: int| 0 <= m < kept@.len() ==> (#[trigger] kept@[m]).task != task,
            decreases s.len() - i,
        {
            let e = self.entries[i];
            assert(s.take(i + 1).drop_last() == s.take(i as int));
            assert(s.take(i + 1).last() == e);
            assert(without_task(s.take(i + 1), task) == if e.task != task {
                without_task(s.take(i as int), task).push(e)
            } else {
                without_task(s.take(i as int), task)
            });
            assert(tasks_of(s.take(i + 1)) == tasks_of(s.take(i as int)).push(e.task));
            proof {
                let before = tasks_of(s.take(i as int));
                if before.contains(task) {
                    let m = choose|m: int| 0 <= m < before.len() && before[m] == task;
                    assert(before.push(e.task)[m] == task);
                }
                if e.task == task {
                    assert(before.push(e.task)[before.len() as int] == task);
                } else if before.push(e.task).contains(task) {
                    let m = choose|m: int| 0 <= m < before.len() + 1 && before.push(e.task)[m] == task;
                    assert(before[m] == task);
                }
            }
            if e.task == task {
                removed = true;
            } else {
                proof {
                    assert forall|m: int| 0 <= m < kept@.len() implies lag(base, #[trigger] kept@[m]) <= lag(base, e) by {
                        let n = choose|n: int| 0 <= n < i && kept@[m] == s[n];
                        assert(lag(base, s[n]) <= lag(base, s[i as int]));
                    }
                }
                kept.push(e);
                proof {
                    let t = kept@;
                    assert forall|a: int, b: int|
                        #![trigger t[a], t[b]]
                        0 <= a <= b < t.len() implies lag(base, t[a]) <= lag(base, t[b]) by {
                        if b == t.len() - 1 {
                            assert(kept@[a] == t[a]);
                        }
                    }
                    assert forall|m: int| 0 <= m < t.len() implies exists|n: int| 0 <= n < i + 1 && #[trigger] t[m] == s[n] by {
                        if m == t.len() - 1 {
                            assert(t[m] == s[i as int]);
                        } else {
                            let n = choose|n: int| 0 <= n < i && kept@[m] == s[n];
                            assert(t[m] == s[n]);
                        }
                    }
                }
            }
            i = i + 1;
        }
        assert(s.take(s.len() as int) == s);
        let before = self.peek_earliest();
        self.entries = kept;
        proof {
            let t = self.entries@;
            if tasks_of(t).contains(task) {
                let m = choose|m: int| 0 <= m < tasks_of(t).len() && tasks_of(t)[m] == task;
                assert(t[m].task == task);
            }
        }
        let after = self.peek_earliest();
        rearm(clock, before, after);
        removed
    }
}

} // verus!
