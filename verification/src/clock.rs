//! Wall-clock time, in milliseconds since the Unix epoch.

use std::time::{SystemTime, UNIX_EPOCH};
use vstd::prelude::*;

verus! {

/// Where a store reads the time from.
pub trait Clock {
    /// Milliseconds since the Unix epoch.
    fn now_ms(&self) -> i64;
}

/// The machine's own clock.
#[derive(Debug, Clone, Copy, PartialEq, Eq)]
pub struct SystemClock;

/// `SystemTime::now`, counted from the Unix epoch and taken as zero before it. Nothing
/// is claimed of the time read.
#[verifier::external_body]
fn system_now_ms() -> i64 {
    SystemTime::now().duration_since(UNIX_EPOCH).map(|d| d.as_millis() as i64).unwrap_or(0)
}

impl Clock for SystemClock {
    fn now_ms(&self) -> i64 {
        system_now_ms()
    }
}

/// An instant, on both clocks: the monotonic one that durations are measured on, and
/// the wall clock that recorded facts are stamped with.
#[derive(Debug, Clone, Copy, PartialEq, Eq, Structural)]
pub struct Moment {
    /// Monotonic milliseconds from an arbitrary origin.
    pub mono: u64,
    /// Milliseconds since the Unix epoch.
    pub wall: i64,
}

impl Moment {
    /// The instant at `mono`, stamped with the machine's wall clock.
    pub fn at(mono: u64) -> (r: Moment)
        ensures
            r.mono == mono,
    {
        Moment { mono, wall: system_now_ms() }
    }
}

/// Milliseconds from `from` until `to`; none where `to` is the earlier one.
pub open spec fn elapsed(from: u64, to: u64) -> nat {
    if to > from {
        (to - from) as nat
    } else {
        0
    }
}

/// Milliseconds from `from` until `to`; none where `to` is the earlier one.
pub fn elapsed_between(from: u64, to: u64) -> (r: u64)
    ensures
        r == elapsed(from, to),
{
    if to > from {
        to - from
    } else {
        0
    }
}

/// The wait from `now` until a deadline; none where it has passed. A wait is never
/// longer than the clock can count.
pub open spec fn wait_until(deadline: int, now: u64) -> u64 {
    if deadline <= now {
        0
    } else if deadline - now > u64::MAX {
        u64::MAX
    } else {
        (deadline - now) as u64
    }
}

/// The wait from `now` until a deadline.
pub fn wait_between(deadline: u128, now: u64) -> (r: u64)
    ensures
        r == wait_until(deadline as int, now),
{
    if deadline <= now as u128 {
        0
    } else if deadline - now as u128 > u64::MAX as u128 {
        u64::MAX
    } else {
        (deadline - now as u128) as u64
    }
}

} // verus!
