//! Monotonic clock with a 32-bit tick counter that wraps around.
//!
//! Instants live in the cyclic group of `u32`: every comparison between
//! instants is made through the forward distance `ticks_between`, never
//! by naive ordering of the raw counter values.
use vstd::prelude::*;

verus! {

/// Number of distinct instants of the clock.
pub const MODULUS: u64 = 0x1_0000_0000;

/// Half of the clock period: the largest distance at which two instants can
/// still be ordered unambiguously.
pub const HALF: u32 = 0x8000_0000;

/// Forward distance, in ticks, from `from` to `to` on the wrapping clock.
pub open spec fn ticks_between(from: u32, to: u32) -> nat {
    if to >= from {
        (to - from) as nat
    } else {
        (to + MODULUS - from) as nat
    }
}

/// Wrap-aware `a <= b`: `b` is reached from `a` by going forward less than
/// half a period.
pub open spec fn wrap_le(a: u32, b: u32) -> bool {
    ticks_between(a, b) < HALF
}

/// The instant `d` ticks after `t`.
pub open spec fn later_by(t: u32, d: nat) -> u32 {
    ((t + d) % (MODULUS as int)) as u32
}

/// Forward distance from `from` to `to`.
pub fn elapsed(from: u32, to: u32) -> (r: u32)
    ensures
        r as nat == ticks_between(from, to),
{
    if to >= from {
        to - from
    } else {
        ((to as u64 + MODULUS) - from as u64) as u32
    }
}

/// Wrap-aware comparison: has `deadline` been reached at `now`?
pub fn is_due(deadline: u32, now: u32) -> (r: bool)
    ensures
        r == wrap_le(deadline, now),
{
    elapsed(deadline, now) < HALF
}

/// The instant `d` ticks after `t`, wrapping at the modulus.
pub fn add_ticks(t: u32, d: u32) -> (r: u32)
    ensures
        r == later_by(t, d as nat),
        ticks_between(t, r) == d,
{
    let s: u64 = t as u64 + d as u64;
    if s >= MODULUS {
        (s - MODULUS) as u32
    } else {
        s as u32
    }
}

/// Error of the clock's one-time initialisation.
#[derive(Clone, Copy, Debug, PartialEq, Eq)]
pub enum ClockError {
    AlreadyInitialized,
}

/// What a clock holds: whether it was started, its tick rate in hertz, the
/// current counter value and the armed compare value, if any.
pub struct ClockModel {
    pub started: bool,
    pub tick_rate: u32,
    pub now: u32,
    pub armed: Option<u32>,
}

/// A monotonic clock over a wrapping hardware counter.
pub struct MonotonicClock {
    started: bool,
    tick_rate: u32,
    now: u32,
    armed: Option<u32>,
}

impl View for MonotonicClock {
    type V = ClockModel;

    closed spec fn view(&self) -> ClockModel {
        ClockModel { started: self.started, tick_rate: self.tick_rate, now: self.now, armed: self.armed }
    }
}

impl MonotonicClock {
    /// A clock that has not been started, at instant zero, with nothing armed.
    pub fn new() -> (c: MonotonicClock)
        ensures
            c@ == (ClockModel { started: false, tick_rate: 0, now: 0, armed: None }),
    {
        MonotonicClock { started: false, tick_rate: 0, now: 0, armed: None }
    }

    /// Starts the clock at instant zero with the given tick rate; a second
    /// start fails and leaves the clock as it was.
    pub fn start(&mut self, tick_rate: u32) -> (r: Result<(), ClockError>)
        ensures
            old(self)@.started ==> r == Err::<(), ClockError>(ClockError::AlreadyInitialized)
                && final(self)@ == old(self)@,
            !old(self)@.started ==> r is Ok && final(self)@ == (ClockModel {
                started: true,
                tick_rate,
                now: 0,
                armed: None,
            }),
    {
        if self.started {
            return Err(ClockError::AlreadyInitialized);
        }
        self.started = true;
        self.tick_rate = tick_rate;
        self.now = 0;
        self.armed = None;
        Ok(())
    }

    /// The current instant.
    pub fn now(&self) -> (r: u32)
        ensures
            r == self@.now,
    {
        self.now
    }

    /// The tick rate given at start, in hertz.
    pub fn tick_rate(&self) -> (r: u32)
        ensures
            r == self@.tick_rate,
    {
        self.tick_rate
    }

    /// Whether the clock has been started.
    pub fn is_started(&self) -> (r: bool)
        ensures
            r == self@.started,
    {
        self.started
    }

    /// The armed compare value, if any.
    pub fn armed(&self) -> (r: Option<u32>)
        ensures
            r == self@.armed,
    {
        self.armed
    }

    /// Programs the compare value, replacing the one armed before.
    pub fn arm(&mut self, deadline: u32)
        ensures
            final(self)@ == (ClockModel { armed: Some(deadline), ..old(self)@ }),
    {
        self.armed = Some(deadline);
    }

    /// Clears the compare value.
    pub fn disarm(&mut self)
        ensures
            final(self)@ == (ClockModel { armed: None, ..old(self)@ }),
    {
        self.armed = None;
    }

    /// The counter moves forward by `ticks`, wrapping at the modulus.
    pub fn advance(&mut self, ticks: u32)
        ensures
            final(self)@ == (ClockModel { now: later_by(old(self)@.now, ticks as nat), ..old(self)@ }),
            ticks_between(old(self)@.now, final(self)@.now) == ticks,
    {
        self.now = add_ticks(self.now, ticks);
    }

    /// Whether the armed compare value has been reached.
    pub fn fired(&self) -> (r: bool)
        ensures
            r == (self@.armed is Some && wrap_le(self@.armed->Some_0, self@.now)),
    {
        match self.armed {
            Some(d) => is_due(d, self.now),
            None => false,
        }
    }

    /// Number of ticks in `ms` milliseconds at this clock's rate, or `None`
    /// when it does not fit in the counter.
    pub fn millis_to_ticks(&self, ms: u32) -> (r: Option<u32>)
        ensures
            (ms as int) * (self@.tick_rate as int) / 1000 <= u32::MAX as int ==> r == Some(
                ((ms as int) * (self@.tick_rate as int) / 1000) as u32,
            ),
            (ms as int) * (self@.tick_rate as int) / 1000 > u32::MAX as int ==> r is None,
    {
        assert((ms as int) * (self.tick_rate as int) <= (u32::MAX as int) * (u32::MAX as int))
            by (nonlinear_arith);
        let p: u64 = ms as u64 * self.tick_rate as u64;
        let q: u64 = p / 1000;
        if q > u32::MAX as u64 {
            None
        } else {
            Some(q as u32)
        }
    }
}

} // verus!
