//! Validation of the static task set before the scheduler starts.
//!
//! Tasks, shared resources and dispatcher lines are declared once. The
//! declaration is checked as a whole: priorities, bindings of tasks to
//! dispatcher lines, lines against the device's free interrupt vectors, and
//! every resource ceiling against the priorities of the tasks that use it.
use vstd::prelude::*;
use crate::scheduler::Scheduler;

verus! {

/// A task: its static priority (higher is more urgent, zero is idle's) and
/// the index of the dispatcher line it is bound to.
#[derive(Clone, Copy, Debug, PartialEq, Eq)]
pub struct TaskDecl {
    pub priority: u8,
    pub dispatcher: usize,
}

/// A shared resource: its ceiling, the tasks that access it and its value
/// at start.
pub struct ResourceDecl {
    pub ceiling: u8,
    pub users: Vec<usize>,
    pub initial: i64,
}

/// A declaration that cannot be started.
#[derive(Clone, Copy, Debug, PartialEq, Eq)]
pub enum ConfigError {
    /// A task has priority zero, which only idle runs at.
    InvalidPriority { task: usize },
    /// A task is bound to a dispatcher line that is not declared.
    UnknownDispatcher { task: usize },
    /// An interrupt vector is declared as a dispatcher line twice.
    DuplicateBinding { vector: u16 },
    /// A dispatcher line is not a free interrupt vector of the device.
    UnavailableLine { vector: u16 },
    /// A resource names a task that is not declared.
    UnknownTask { resource: usize },
    /// A task that accesses a resource has a priority above its ceiling.
    CeilingViolation { resource: usize, task: usize },
}

pub open spec fn users_of(resources: Seq<ResourceDecl>, r: int) -> Seq<usize> {
    resources[r].users@
}

pub open spec fn dispatchers_distinct(d: Seq<u16>) -> bool {
    forall|i: int, j: int| 0 <= i < j < d.len() ==> d[i] != d[j]
}

/// Whether the declaration can be started.
pub open spec fn config_valid(
    tasks: Seq<TaskDecl>,
    resources: Seq<ResourceDecl>,
    dispatchers: Seq<u16>,
    free_vectors: Seq<u16>,
) -> bool {
    &&& forall|t: int| 0 <= t < tasks.len() ==> (#[trigger] tasks[t]).priority >= 1
    &&& forall|t: int| 0 <= t < tasks.len() ==> (#[trigger] tasks[t]).dispatcher < dispatchers.len()
    &&& dispatchers_distinct(dispatchers)
    &&& forall|d: int| 0 <= d < dispatchers.len() ==> free_vectors.contains(#[trigger] dispatchers[d])
    &&& forall|r: int, k: int|
        0 <= r < resources.len() && 0 <= k < users_of(resources, r).len() ==> {
            &&& #[trigger] users_of(resources, r)[k] < tasks.len()
            &&& tasks[users_of(resources, r)[k] as int].priority <= resources[r].ceiling
        }
}

/// `e` names a fault that the declaration has.
pub open spec fn is_violation(
    tasks: Seq<TaskDecl>,
    resources: Seq<ResourceDecl>,
    dispatchers: Seq<u16>,
    free_vectors: Seq<u16>,
    e: ConfigError,
) -> bool {
    match e {
        ConfigError::InvalidPriority { task } => task < tasks.len() && tasks[task as int].priority == 0,
        ConfigError::UnknownDispatcher { task } => task < tasks.len() && tasks[task as int].dispatcher
            >= dispatchers.len(),
        ConfigError::DuplicateBinding { vector } => exists|i: int, j: int|
            0 <= i < j < dispatchers.len() && dispatchers[i] == vector && dispatchers[j] == vector,
        ConfigError::UnavailableLine { vector } => dispatchers.contains(vector) && !free_vectors.contains(
            vector,
        ),
        ConfigError::UnknownTask { resource } => resource < resources.len() && exists|k: int|
            0 <= k < users_of(resources, resource as int).len() && users_of(resources, resource as int)[k]
                >= tasks.len(),
        ConfigError::CeilingViolation { resource, task } => {
            &&& resource < resources.len()
            &&& task < tasks.len()
            &&& users_of(resources, resource as int).contains(task)
            &&& tasks[task as int].priority > resources[resource as int].ceiling
        },
    }
}

fn contains_u16(v: &Vec<u16>, x: u16) -> (r: bool)
    ensures
        r == v@.contains(x),
{
    let mut i: usize = 0;
    while i < v.len()
        invariant
            i <= v.len(),
            forall|j: int| 0 <= j < i ==> v@[j] != x,
        decreases v.len() - i,
    {
        if v[i] == x {
            return true;
        }
        i = i + 1;
    }
    false
}

/// Checks a declaration: `Ok` exactly when it can be started, otherwise
/// one of its faults.
pub fn validate(
    tasks: &Vec<TaskDecl>,
    resources: &Vec<ResourceDecl>,
    dispatchers: &Vec<u16>,
    free_vectors: &Vec<u16>,
) -> (r: Result<(), ConfigError>)
    ensures
        r is Ok <==> config_valid(tasks@, resources@, dispatchers@, free_vectors@),
        r matches Err(e) ==> is_violation(tasks@, resources@, dispatchers@, free_vectors@, e),
{
    let mut t: usize = 0;
    while t < tasks.len()
        invariant
            t <= tasks.len(),
            forall|u: int| 0 <= u < t ==> (#[trigger] tasks@[u]).priority >= 1 && tasks@[u].dispatcher
                < dispatchers.len(),
        decreases tasks.len() - t,
    {
        if tasks[t].priority == 0 {
            return Err(ConfigError::InvalidPriority { task: t });
        }
        if tasks[t].dispatcher >= dispatchers.len() {
            return Err(ConfigError::UnknownDispatcher { task: t });
        }
        t = t + 1;
    }
    let mut d: usize = 0;
    while d < dispatchers.len()
        invariant
            d <= dispatchers.len(),
            forall|i: int, j: int| 0 <= i < j < dispatchers.len() && i < d ==> dispatchers@[i] != dispatchers@[j],
            forall|i: int| 0 <= i < d ==> free_vectors@.contains(#[trigger] dispatchers@[i]),
        decreases dispatchers.len() - d,
    {
        let v = dispatchers[d];
        let mut j: usize = d + 1;
        while j < dispatchers.len()
            invariant
                d < j <= dispatchers.len(),
                v == dispatchers@[d as int],
                forall|k: int| d < k < j ==> dispatchers@[k] != v,
            decreases dispatchers.len() - j,
        {
            if dispatchers[j] == v {
                return Err(ConfigError::DuplicateBinding { vector: v });
            }
            j = j + 1;
        }
        if !contains_u16(free_vectors, v) {
            return Err(ConfigError::UnavailableLine { vector: v });
        }
        d = d + 1;
    }
    let mut r: usize = 0;
    while r < resources.len()
        invariant
            r <= resources.len(),
            forall|u: int| 0 <= u < tasks.len() ==> (#[trigger] tasks@[u]).priority >= 1 && tasks@[u].dispatcher
                < dispatchers.len(),
            dispatchers_distinct(dispatchers@),
            forall|i: int| 0 <= i < dispatchers.len() ==> free_vectors@.contains(#[trigger] dispatchers@[i]),
            forall|a: int, k: int|
                0 <= a < r && 0 <= k < users_of(resources@, a).len() ==> {
                    &&& #[trigger] users_of(resources@, a)[k] < tasks.len()
                    &&& tasks@[users_of(resources@, a)[k] as int].priority <= resources@[a].ceiling
                },
        decreases resources.len() - r,
    {
        let users = &resources[r].users;
        let c = resources[r].ceiling;
        let mut k: usize = 0;
        while k < users.len()
            invariant
                r < resources.len(),
                users@ == users_of(resources@, r as int),
                c == resources@[r as int].ceiling,
                k <= users.len(),
                forall|m: int| 0 <= m < k ==> {
                    &&& #[trigger] users@[m] < tasks.len()
                    &&& tasks@[users@[m] as int].priority <= c
                },
            decreases users.len() - k,
        {
            let u = users[k];
            if u >= tasks.len() {
                return Err(ConfigError::UnknownTask { resource: r });
            }
            if tasks[u].priority > c {
                assert(users@[k as int] == u);
                return Err(ConfigError::CeilingViolation { resource: r, task: u });
            }
            k = k + 1;
        }
        r = r + 1;
    }
    Ok(())
}

/// The ceiling of a resource inferred from the tasks that access it: the
/// highest of their priorities, zero when none does.
pub fn infer_ceiling(tasks: &Vec<TaskDecl>, users: &Vec<usize>) -> (c: u8)
    requires
        forall|k: int| 0 <= k < users.len() ==> #[trigger] users@[k] < tasks.len(),
    ensures
        forall|k: int| 0 <= k < users.len() ==> tasks@[#[trigger] users@[k] as int].priority <= c,
        users.len() == 0 ==> c == 0,
        users.len() > 0 ==> exists|k: int| 0 <= k < users.len() && tasks@[users@[k] as int].priority == c,
{
    let mut c: u8 = 0;
    let mut k: usize = 0;
    while k < users.len()
        invariant
            forall|m: int| 0 <= m < users.len() ==> #[trigger] users@[m] < tasks.len(),
            k <= users.len(),
            forall|m: int| 0 <= m < k ==> tasks@[#[trigger] users@[m] as int].priority <= c,
            k == 0 ==> c == 0,
            k > 0 ==> exists|m: int| 0 <= m < k && tasks@[users@[m] as int].priority == c,
        decreases users.len() - k,
    {
        let p = tasks[users[k]].priority;
        if k == 0 || p > c {
            c = p;
        }
        k = k + 1;
    }
    c
}

/// Validates the declaration and, when it can be started, builds its
/// scheduler: one task per declaration with its priority and line, one
/// shared resource per declaration with its ceiling and initial value,
/// each line holding at most `capacity` pending tasks, and the clock
/// started at `tick_rate`.
pub fn build(
    tasks: &Vec<TaskDecl>,
    resources: &Vec<ResourceDecl>,
    dispatchers: &Vec<u16>,
    free_vectors: &Vec<u16>,
    capacity: usize,
    tick_rate: u32,
) -> (r: Result<Scheduler, ConfigError>)
    ensures
        r is Ok <==> config_valid(tasks@, resources@, dispatchers@, free_vectors@),
        r matches Err(e) ==> is_violation(tasks@, resources@, dispatchers@, free_vectors@, e),
        r matches Ok(s) ==> {
            &&& s@.wf()
            &&& s@.prio.len() == tasks.len()
            &&& forall|t: int| 0 <= t < tasks.len() ==> s@.prio[t] == (#[trigger] tasks@[t]).priority
                && s@.line[t] == tasks@[t].dispatcher
            &&& s@.ceilings.len() == resources.len()
            &&& forall|i: int| 0 <= i < resources.len() ==> s@.ceilings[i] == (#[trigger] resources@[i]).ceiling
                && s@.values[i] == resources@[i].initial
            &&& s@.capacity == capacity
            &&& s@.ready.len() == 0 && s@.stack.len() == 0 && s@.held.len() == 0
            &&& s@.dropped == 0
            &&& s@.queue.entries.len() == 0
            &&& s@.clock.started && s@.clock.tick_rate == tick_rate && s@.clock.now == 0
        },
{
    match validate(tasks, resources, dispatchers, free_vectors) {
        Err(e) => Err(e),
        Ok(()) => {
            let mut prio: Vec<u8> = Vec::new();
            let mut line: Vec<usize> = Vec::new();
            let mut i: usize = 0;
            while i < tasks.len()
                invariant
                    i <= tasks.len(),
                    prio.len() == i && line.len() == i,
                    forall|t: int| 0 <= t < i ==> prio@[t] == (#[trigger] tasks@[t]).priority && line@[t]
                        == tasks@[t].dispatcher,
                decreases tasks.len() - i,
            {
                prio.push(tasks[i].priority);
                line.push(tasks[i].dispatcher);
                i = i + 1;
            }
            let mut ceilings: Vec<u8> = Vec::new();
            let mut values: Vec<i64> = Vec::new();
            let mut j: usize = 0;
            while j < resources.len()
                invariant
                    j <= resources.len(),
                    ceilings.len() == j && values.len() == j,
                    forall|t: int| 0 <= t < j ==> ceilings@[t] == (#[trigger] resources@[t]).ceiling && values@[t]
                        == resources@[t].initial,
                decreases resources.len() - j,
            {
                ceilings.push(resources[j].ceiling);
                values.push(resources[j].initial);
                j = j + 1;
            }
            Ok(Scheduler::new(prio, line, ceilings, values, capacity, tick_rate))
        },
    }
}

} // verus!
