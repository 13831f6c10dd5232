use ceiling_sched::clock::{MonotonicClock, HALF};
use ceiling_sched::delay_queue::DelayQueue;

fn clock() -> MonotonicClock {
    let mut c = MonotonicClock::new();
    c.start(1000).unwrap();
    c
}

#[test]
fn fires_exactly_at_deadline_not_before() {
    let mut c = clock();
    let mut q = DelayQueue::new(0);
    assert!(q.schedule(4, 100, &mut c));
    assert_eq!(c.armed(), Some(100));
    assert_eq!(q.pop_due(99, &mut c), Vec::<usize>::new());
    assert_eq!(q.len(), 1);
    assert_eq!(q.pop_due(100, &mut c), vec![4]);
    assert_eq!(q.len(), 0);
    assert_eq!(c.armed(), None);
    assert_eq!(q.pop_due(200, &mut c), Vec::<usize>::new());
}

#[test]
fn withdrawn_delay_never_fires() {
    let mut c = clock();
    let mut q = DelayQueue::new(0);
    assert!(q.schedule(1, 50, &mut c));
    assert!(q.schedule(2, 80, &mut c));
    assert!(q.withdraw(1, &mut c));
    assert_eq!(c.armed(), Some(80));
    assert!(!q.withdraw(1, &mut c));
    assert_eq!(q.pop_due(1000, &mut c), vec![2]);
}

#[test]
fn deadline_across_wrap_fires_at_right_time() {
    let mut c = clock();
    let start = u32::MAX - 9;
    let mut q = DelayQueue::new(start);
    // 20 ticks ahead: past the wrap point
    assert!(q.schedule(7, 10, &mut c));
    assert_eq!(q.peek_earliest(), Some(10));
    assert_eq!(q.pop_due(u32::MAX, &mut c), Vec::<usize>::new());
    assert_eq!(q.pop_due(9, &mut c), Vec::<usize>::new());
    assert_eq!(q.pop_due(10, &mut c), vec![7]);
}

#[test]
fn equal_deadlines_fire_in_insertion_order() {
    let mut c = clock();
    let mut q = DelayQueue::new(0);
    assert!(q.schedule(3, 30, &mut c));
    assert!(q.schedule(1, 10, &mut c));
    assert!(q.schedule(2, 30, &mut c));
    assert!(q.schedule(0, 20, &mut c));
    assert_eq!(q.peek_earliest(), Some(10));
    assert_eq!(q.pop_due(30, &mut c), vec![1, 0, 3, 2]);
}

#[test]
fn passed_deadline_is_not_queued() {
    let mut c = clock();
    let mut q = DelayQueue::new(500);
    assert!(!q.schedule(1, 500, &mut c));
    assert!(!q.schedule(1, 499, &mut c));
    assert!(!q.schedule(1, 500u32.wrapping_add(HALF).wrapping_add(1), &mut c));
    assert!(q.schedule(1, 500u32.wrapping_add(HALF), &mut c));
    assert_eq!(q.len(), 1);
}

#[test]
fn partial_pop_rearms_to_next_deadline() {
    let mut c = clock();
    let mut q = DelayQueue::new(0);
    q.schedule(1, 10, &mut c);
    q.schedule(2, 20, &mut c);
    q.schedule(3, 30, &mut c);
    assert_eq!(q.pop_due(25, &mut c), vec![1, 2]);
    assert_eq!(q.now(), 25);
    assert_eq!(c.armed(), Some(30));
    assert_eq!(q.peek_earliest(), Some(30));
}
