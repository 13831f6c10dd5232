use ceiling_sched::config::{build, infer_ceiling, validate, ConfigError, ResourceDecl, TaskDecl};
use ceiling_sched::scheduler::{Scheduler, SpawnError, TaskState};

fn two_tasks(capacity: usize) -> Scheduler {
    let tasks = vec![
        TaskDecl { priority: 1, dispatcher: 0 },
        TaskDecl { priority: 5, dispatcher: 0 },
    ];
    let resources = vec![ResourceDecl { ceiling: 5, users: vec![0, 1], initial: 0 }];
    build(&tasks, &resources, &vec![3], &vec![3, 4], capacity, 1000).unwrap()
}

/// Runs every task that can start, each to its next wait, and returns the
/// order in which they ran.
fn run_ready(s: &mut Scheduler, incs: &[i64], periods: &[u32]) -> Vec<usize> {
    let mut order = Vec::new();
    while let Some(t) = s.dispatch() {
        order.push(t);
        s.lock(0);
        let v = s.read(0);
        s.write(0, v + incs[t]);
        s.unlock();
        assert!(s.delay_running(periods[t]));
    }
    order
}

#[test]
fn two_tasks_share_counter() {
    let mut s = two_tasks(2);
    let incs = [5, 1];
    let periods = [5000, 1000];
    s.spawn(0).unwrap();
    s.spawn(1).unwrap();
    assert_eq!(run_ready(&mut s, &incs, &periods), vec![1, 0]);
    for _ in 1..5000 {
        let due = s.advance(1);
        let order = run_ready(&mut s, &incs, &periods);
        assert_eq!(due, order);
        assert!(order.is_empty() || order == vec![1]);
    }
    assert_eq!(s.now(), 4999);
    assert_eq!(s.idle_value(0), 10);
    // both deadlines fall on the next tick: the higher priority runs first
    assert_eq!(s.advance(1), vec![0, 1]);
    assert_eq!(run_ready(&mut s, &incs, &periods), vec![1, 0]);
    assert_eq!(s.idle_value(0), 16);
    assert_eq!(s.armed(), Some(6000));
}

#[test]
fn higher_priority_selected_first() {
    let tasks = vec![
        TaskDecl { priority: 2, dispatcher: 0 },
        TaskDecl { priority: 7, dispatcher: 1 },
        TaskDecl { priority: 7, dispatcher: 0 },
        TaskDecl { priority: 1, dispatcher: 1 },
    ];
    let mut s = build(&tasks, &vec![], &vec![10, 11], &vec![11, 10], 4, 1000).unwrap();
    assert_eq!(s.select(), None);
    s.spawn(0).unwrap();
    s.spawn(2).unwrap();
    s.spawn(3).unwrap();
    s.spawn(1).unwrap();
    assert_eq!(s.select(), Some(2));
    assert_eq!(s.dispatch(), Some(2));
    assert_eq!(s.state(2), TaskState::Running);
    // equal priority does not preempt
    assert_eq!(s.dispatch(), None);
    assert_eq!(s.finish_running(), 2);
    assert_eq!(s.dispatch(), Some(1));
    assert_eq!(s.finish_running(), 1);
    assert_eq!(s.dispatch(), Some(0));
    assert_eq!(s.finish_running(), 0);
    assert_eq!(s.dispatch(), Some(3));
    assert_eq!(s.state(0), TaskState::Suspended);
}

#[test]
fn preemption_resumes_lower_task() {
    let mut s = two_tasks(2);
    s.spawn(0).unwrap();
    assert_eq!(s.dispatch(), Some(0));
    s.spawn(1).unwrap();
    assert_eq!(s.state(1), TaskState::Runnable);
    assert_eq!(s.dispatch(), Some(1));
    assert_eq!(s.state(0), TaskState::Runnable);
    assert_eq!(s.running(), Some(1));
    assert_eq!(s.finish_running(), 1);
    assert_eq!(s.running(), Some(0));
    assert_eq!(s.state(0), TaskState::Running);
}

#[test]
fn lock_blocks_tasks_up_to_ceiling() {
    let mut s = two_tasks(2);
    s.spawn(0).unwrap();
    assert_eq!(s.dispatch(), Some(0));
    s.lock(0);
    assert_eq!(s.system_priority(), 5);
    s.write(0, 41);
    s.spawn(1).unwrap();
    assert_eq!(s.dispatch(), None);
    assert_eq!(s.running(), Some(0));
    s.write(0, 42);
    s.unlock();
    assert_eq!(s.system_priority(), 1);
    assert_eq!(s.dispatch(), Some(1));
    s.lock(0);
    assert_eq!(s.read(0), 42);
    s.unlock();
}

#[test]
fn spawn_on_full_line_is_dropped() {
    let tasks = vec![
        TaskDecl { priority: 1, dispatcher: 0 },
        TaskDecl { priority: 2, dispatcher: 0 },
        TaskDecl { priority: 3, dispatcher: 1 },
    ];
    let mut s = build(&tasks, &vec![], &vec![1, 2], &vec![1, 2], 1, 1000).unwrap();
    assert_eq!(s.spawn(0), Ok(()));
    assert_eq!(s.backlog(1), 1);
    assert_eq!(s.spawn(1), Err(SpawnError::CapacityExceeded));
    assert_eq!(s.pending(), vec![0]);
    assert_eq!(s.dropped(), 1);
    assert_eq!(s.state(1), TaskState::Suspended);
    // another line still has room
    assert_eq!(s.spawn(2), Ok(()));
    assert_eq!(s.pending(), vec![0, 2]);
}

#[test]
fn spawn_of_pending_task_is_idempotent() {
    let mut s = two_tasks(1);
    assert_eq!(s.spawn(0), Ok(()));
    assert_eq!(s.spawn(0), Ok(()));
    assert_eq!(s.pending(), vec![0]);
    assert_eq!(s.dropped(), 0);
}

#[test]
fn zero_delay_makes_task_runnable_again() {
    let mut s = two_tasks(2);
    s.spawn(0).unwrap();
    assert_eq!(s.dispatch(), Some(0));
    assert!(!s.delay_running(0));
    assert_eq!(s.pending(), vec![0]);
    assert_eq!(s.armed(), None);
}

#[test]
fn delay_again_replaces_earlier_wait() {
    let mut s = two_tasks(2);
    s.spawn(0).unwrap();
    assert_eq!(s.dispatch(), Some(0));
    assert!(s.delay_running(100));
    assert_eq!(s.armed(), Some(100));
    s.spawn(0).unwrap();
    assert_eq!(s.dispatch(), Some(0));
    assert!(s.delay_running(30));
    assert_eq!(s.armed(), Some(30));
    assert_eq!(s.advance(200), vec![0]);
}

#[test]
fn config_errors() {
    let ok = vec![TaskDecl { priority: 1, dispatcher: 0 }, TaskDecl { priority: 3, dispatcher: 0 }];
    let res = || vec![ResourceDecl { ceiling: 3, users: vec![0, 1], initial: 0 }];
    assert_eq!(validate(&ok, &res(), &vec![5], &vec![5]), Ok(()));
    let zero = vec![TaskDecl { priority: 0, dispatcher: 0 }];
    assert_eq!(validate(&zero, &vec![], &vec![5], &vec![5]), Err(ConfigError::InvalidPriority { task: 0 }));
    let unbound = vec![TaskDecl { priority: 1, dispatcher: 1 }];
    assert_eq!(validate(&unbound, &vec![], &vec![5], &vec![5]), Err(ConfigError::UnknownDispatcher { task: 0 }));
    assert_eq!(validate(&ok, &res(), &vec![5, 6, 5], &vec![5, 6]), Err(ConfigError::DuplicateBinding { vector: 5 }));
    assert_eq!(validate(&ok, &res(), &vec![5, 7], &vec![5, 6]), Err(ConfigError::UnavailableLine { vector: 7 }));
    let unknown = vec![ResourceDecl { ceiling: 3, users: vec![0, 2], initial: 0 }];
    assert_eq!(validate(&ok, &unknown, &vec![5], &vec![5]), Err(ConfigError::UnknownTask { resource: 0 }));
    let low = vec![
        ResourceDecl { ceiling: 3, users: vec![1], initial: 0 },
        ResourceDecl { ceiling: 2, users: vec![0, 1], initial: 0 },
    ];
    assert_eq!(
        validate(&ok, &low, &vec![5], &vec![5]),
        Err(ConfigError::CeilingViolation { resource: 1, task: 1 })
    );
    assert!(build(&ok, &low, &vec![5], &vec![5], 2, 1000).is_err());
}

#[test]
fn ceiling_inferred_from_users() {
    let tasks = vec![
        TaskDecl { priority: 1, dispatcher: 0 },
        TaskDecl { priority: 5, dispatcher: 0 },
        TaskDecl { priority: 3, dispatcher: 0 },
    ];
    assert_eq!(infer_ceiling(&tasks, &vec![0, 2]), 3);
    assert_eq!(infer_ceiling(&tasks, &vec![2, 1, 0]), 5);
    assert_eq!(infer_ceiling(&tasks, &vec![]), 0);
}

#[test]
fn line_fires_bound_ready_tasks() {
    let mut s = Scheduler::new(vec![1, 2, 3, 4], vec![0, 1, 0, 0], vec![], vec![], 4, 1000);
    s.fire_line(0, &vec![true, true, false, true]);
    assert_eq!(s.pending(), vec![0, 3]);
    s.fire_line(1, &vec![false, false, false, false]);
    assert_eq!(s.pending(), vec![0, 3]);
    s.fire_line(0, &vec![true, true, true, true]);
    assert_eq!(s.pending(), vec![0, 3, 2]);
    assert_eq!(s.dispatch(), Some(3));
}
