//! Instants of log records, as whole seconds since the Unix epoch (UTC) and
//! the nanoseconds within that second, and the calendar fields that the
//! analytics read from them.

use vstd::prelude::*;

verus! {

pub const SECONDS_PER_DAY: u64 = 86400;

pub const SECONDS_PER_HOUR: u64 = 3600;

/// An instant in UTC.
#[derive(Clone, Copy, Debug, PartialEq, Eq, Structural)]
pub struct Timestamp {
    /// Whole seconds since 1970-01-01 00:00:00 UTC (negative before it).
    pub seconds: i64,
    /// Nanoseconds past `seconds`.
    pub nanos: u32,
}

/// The hour of the day (0 to 23) of an instant `secs` seconds after the epoch.
pub open spec fn hour_of(secs: int) -> int {
    (secs % 86400) / 3600
}

/// The day of the week, counted from Monday as 0, of an instant `secs` seconds
/// after the epoch; 1970-01-01 was a Thursday.
pub open spec fn weekday_of(secs: int) -> int {
    (secs / 86400 + 3) % 7
}

/// The instant as nanoseconds since the epoch.
pub open spec fn nanos_since_epoch(t: Timestamp) -> int {
    t.seconds * 1_000_000_000 + t.nanos
}

/// Whether `a` is not after `b`.
pub open spec fn not_after(a: Timestamp, b: Timestamp) -> bool {
    a.seconds < b.seconds || (a.seconds == b.seconds && a.nanos <= b.nanos)
}

/// The whole seconds from `early` to `late`, rounded toward zero.
pub open spec fn whole_seconds_between(early: Timestamp, late: Timestamp) -> int {
    if late.nanos >= early.nanos {
        late.seconds - early.seconds
    } else {
        late.seconds - early.seconds - 1
    }
}

impl Timestamp {
    pub fn new(seconds: i64, nanos: u32) -> (r: Timestamp)
        ensures
            r.seconds == seconds,
            r.nanos == nanos,
    {
        Timestamp { seconds, nanos }
    }

    /// Seconds elapsed since midnight of the instant's day.
    fn second_of_day(&self) -> (r: u64)
        ensures
            r == self.seconds % 86400,
    {
        let s = self.seconds;
        if s >= 0 {
            (s as u64) % SECONDS_PER_DAY
        } else {
            let k = (-(s + 1)) as u64;
            let m = k % SECONDS_PER_DAY;
            assert(s % 86400 == 86399 - m);
            86399 - m
        }
    }

    /// The hour of the day, 0 to 23.
    pub fn hour(&self) -> (r: u32)
        ensures
            r == hour_of(self.seconds as int),
            r < 24,
    {
        (self.second_of_day() / SECONDS_PER_HOUR) as u32
    }

    /// The day of the week, 0 for Monday to 6 for Sunday.
    pub fn weekday_from_monday(&self) -> (r: u32)
        ensures
            r == weekday_of(self.seconds as int),
            r < 7,
    {
        let s = self.seconds;
        if s >= 0 {
            let days = (s as u64) / SECONDS_PER_DAY;
            ((days + 3) % 7) as u32
        } else {
            let k = (-(s + 1)) as u64;
            let d = k / SECONDS_PER_DAY + 1;
            assert(s / 86400 == -d);
            let r = d % 7;
            assert((-d + 3) % 7 == (10 - r) % 7);
            ((10 - r) % 7) as u32
        }
    }

    /// Whether this instant is not after `other`.
    pub fn not_after(&self, other: &Timestamp) -> (r: bool)
        ensures
            r == not_after(*self, *other),
    {
        self.seconds < other.seconds || (self.seconds == other.seconds && self.nanos
            <= other.nanos)
    }

    /// Whole seconds from this instant to a later one `late`, rounded toward zero.
    pub fn whole_seconds_until(&self, late: &Timestamp) -> (r: u64)
        requires
            not_after(*self, *late),
        ensures
            r == whole_seconds_between(*self, *late),
    {
        let d = (late.seconds as i128) - (self.seconds as i128);
        if late.nanos >= self.nanos {
            d as u64
        } else {
            (d - 1) as u64
        }
    }
}

} // verus!
