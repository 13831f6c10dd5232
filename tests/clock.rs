use ceiling_sched::clock::{add_ticks, elapsed, is_due, ClockError, MonotonicClock, HALF};

#[test]
fn start_twice_is_refused() {
    let mut c = MonotonicClock::new();
    assert!(!c.is_started());
    assert_eq!(c.start(1000), Ok(()));
    assert!(c.is_started());
    assert_eq!(c.tick_rate(), 1000);
    c.advance(7);
    assert_eq!(c.start(16_000_000), Err(ClockError::AlreadyInitialized));
    assert_eq!(c.tick_rate(), 1000);
    assert_eq!(c.now(), 7);
}

#[test]
fn advance_wraps_at_modulus() {
    let mut c = MonotonicClock::new();
    c.start(1000).unwrap();
    c.advance(u32::MAX);
    assert_eq!(c.now(), u32::MAX);
    c.advance(3);
    assert_eq!(c.now(), 2);
}

#[test]
fn wrap_aware_distance_and_comparison() {
    assert_eq!(elapsed(10, 25), 15);
    assert_eq!(elapsed(u32::MAX - 1, 3), 5);
    assert_eq!(add_ticks(u32::MAX - 1, 5), 3);
    assert!(is_due(u32::MAX - 1, 3));
    assert!(!is_due(3, u32::MAX - 1));
    assert!(is_due(5, 5));
    assert!(is_due(0, HALF - 1));
    assert!(!is_due(0, HALF));
}

#[test]
fn arm_replaces_and_fires() {
    let mut c = MonotonicClock::new();
    c.start(1000).unwrap();
    assert!(!c.fired());
    c.arm(50);
    c.arm(10);
    assert_eq!(c.armed(), Some(10));
    c.advance(9);
    assert!(!c.fired());
    c.advance(1);
    assert!(c.fired());
    c.disarm();
    assert_eq!(c.armed(), None);
    assert!(!c.fired());
}

#[test]
fn millis_convert_at_tick_rate() {
    let mut c = MonotonicClock::new();
    c.start(1000).unwrap();
    assert_eq!(c.millis_to_ticks(5000), Some(5000));
    let mut fast = MonotonicClock::new();
    fast.start(16_000_000).unwrap();
    assert_eq!(fast.millis_to_ticks(250), Some(4_000_000));
    assert_eq!(fast.millis_to_ticks(1_000_000), None);
}
