//! Instants on the UTC time line, and the retention window that is
//! measured in whole days from the start of the day of a run.

use vstd::prelude::*;

verus! {

/// Seconds in one day of the UTC time line.
pub const SECONDS_PER_DAY: i64 = 86_400;

/// An instant: whole seconds since 1970-01-01T00:00:00Z and the nanoseconds
/// after that second. Instants are ordered by their seconds first and by
/// their nanoseconds second.
#[derive(Clone, Copy, Debug, PartialEq, Eq, Structural)]
pub struct Timestamp {
    pub secs: i64,
    pub nanos: u32,
}

impl Timestamp {
    /// `self` comes strictly after `other`.
    pub open spec fn later_than(self, other: Timestamp) -> bool {
        self.secs > other.secs || (self.secs == other.secs && self.nanos > other.nanos)
    }

    /// The instant `nanos` nanoseconds after the second `secs`.
    pub fn new(secs: i64, nanos: u32) -> (t: Timestamp)
        ensures
            t.secs == secs,
            t.nanos == nanos,
    {
        Timestamp { secs, nanos }
    }

    /// Whether `self` comes strictly after `other`.
    pub fn is_later_than(&self, other: &Timestamp) -> (later: bool)
        ensures
            later == self.later_than(*other),
    {
        self.secs > other.secs || (self.secs == other.secs && self.nanos > other.nanos)
    }
}

/// The first second of the day that the second `secs` lies in.
pub open spec fn day_start(secs: int) -> int {
    (secs / 86_400) * 86_400
}

/// The second at which the retention window opens: the start of the day
/// of `now`, moved back by `retention_days` whole days.
pub open spec fn cutoff_second(now: Timestamp, retention_days: int) -> int {
    day_start(now.secs as int) - retention_days * 86_400
}

/// An instant is within the window of a run at `now` when it comes strictly
/// after the first instant of the cutoff second.
pub open spec fn within_window(t: Timestamp, now: Timestamp, retention_days: int) -> bool {
    let cutoff = cutoff_second(now, retention_days);
    t.secs > cutoff || (t.secs == cutoff && t.nanos > 0)
}

/// Whether `t` is within the retention window of a run at `now`.
pub fn is_within_window(t: &Timestamp, now: &Timestamp, retention_days: i64) -> (inside: bool)
    ensures
        inside == within_window(*t, *now, retention_days as int),
{
    let secs: i128 = now.secs as i128;
    let day: i128 = if secs >= 0 {
        secs / 86_400
    } else {
        -((86_399 - secs) / 86_400)
    };
    assert(day == (now.secs as int) / 86_400);
    let cutoff: i128 = day * 86_400 - (retention_days as i128) * 86_400;
    let at: i128 = t.secs as i128;
    at > cutoff || (at == cutoff && t.nanos > 0)
}

/// The start of a day is at most one day before any of its seconds.
pub proof fn lemma_day_start_bounds(secs: int)
    ensures
        day_start(secs) <= secs < day_start(secs) + 86_400,
        day_start(secs) % 86_400 == 0,
{
}

} // verus!
