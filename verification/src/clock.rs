//! The clock behind the engine's instants. An instant is a count of
//! nanoseconds; the monitors compare instants and never read a clock
//! themselves. A `Clock` hands out instants that start at a value of the
//! driver's choice, such as the wall-clock time at which it was started,
//! and from there follow the monotonic clock.

use std::time::Duration;
use std::time::Instant;
use vstd::prelude::*;

verus! {

/// The fixed cadence of a scanning monitor: one probe per second.
pub const CADENCE_NANOS: u64 = 1_000_000_000;

/// `std::time::Instant`, a reading of the monotonic clock, made known
/// to the verifier as a value it cannot look into.
#[verifier::external_type_specification]
#[verifier::external_body]
pub struct ExInstant(Instant);

/// The time that passed from `earlier` to `later`; none if `later` is not
/// after `earlier`.
pub open spec fn elapsed_between(earlier: u64, later: u64) -> int {
    if later >= earlier {
        later - earlier
    } else {
        0
    }
}

/// Reads the monotonic clock with `Instant::now`.
///
/// Trusted, and nothing is claimed of the reading.
#[verifier::external_body]
fn instant_now() -> Instant {
    Instant::now()
}

/// Measures the time since `start` with `Instant::elapsed`.
///
/// Trusted, and nothing is claimed of the measurement.
#[verifier::external_body]
fn elapsed_since(start: &Instant) -> Duration {
    start.elapsed()
}

/// The whole nanoseconds of `span`, by `Duration::as_nanos`.
///
/// Trusted, and nothing is claimed of the count.
#[verifier::external_body]
fn whole_nanos(span: &Duration) -> u128 {
    span.as_nanos()
}

/// `count` as an instant: itself where it fits, else the last instant.
pub open spec fn held(count: int) -> u64 {
    if count > u64::MAX {
        u64::MAX
    } else {
        count as u64
    }
}

/// A count of nanoseconds as an instant, held at `u64::MAX` where it
/// does not fit.
pub fn held_nanos(nanos: u128) -> (instant: u64)
    ensures
        instant == held(nanos as int),
{
    if nanos > u64::MAX as u128 {
        u64::MAX
    } else {
        nanos as u64
    }
}

/// The instant that lies `passed` nanoseconds after `start`, held at
/// `u64::MAX` where the sum does not fit.
pub fn instant_after(start: u64, passed: u64) -> (instant: u64)
    ensures
        instant == held(start + passed),
        instant >= start,
{
    if passed > u64::MAX - start {
        u64::MAX
    } else {
        start + passed
    }
}

/// The present moment of the monotonic clock: the starting point that a
/// driver measures its instants from.
pub fn default_now() -> Instant {
    instant_now()
}

/// The nanoseconds that have passed since `start`, held at `u64::MAX`
/// once they no longer fit.
pub fn nanos_since(start: &Instant) -> u64 {
    let span = elapsed_since(start);
    held_nanos(whole_nanos(&span))
}

/// A source of instants: it starts at a chosen instant and advances with
/// the monotonic clock, so that its instants never go back.
pub struct Clock {
    start: u64,
    epoch: Instant,
}

impl Clock {
    /// The instant at which the clock was started.
    pub closed spec fn start(&self) -> u64 {
        self.start
    }

    /// A clock that shows `start` now.
    pub fn starting_at(start: u64) -> (clock: Clock)
        ensures
            clock.start() == start,
    {
        Clock { start, epoch: default_now() }
    }

    /// The instant at which the clock was started.
    pub fn started(&self) -> (start: u64)
        ensures
            start == self.start(),
    {
        self.start
    }

    /// The present instant: the start plus the nanoseconds that have
    /// passed since, held at `u64::MAX` once the sum no longer fits.
    pub fn now(&self) -> (now: u64)
        ensures
            now >= self.start(),
    {
        instant_after(self.start, nanos_since(&self.epoch))
    }
}

} // verus!
