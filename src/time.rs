use vstd::prelude::*;

verus! {

/// Seconds in one day.
pub const SECS_PER_DAY: i64 = 86_400;

/// Nanoseconds in one second.
pub const NANOS_PER_SEC: u32 = 1_000_000_000;

/// Largest distance from the epoch, in seconds, that a timestamp may lie;
/// well inside the calendar range of the date library.
pub const MAX_SECS: i64 = 8_000_000_000_000;

/// A point in time in UTC: whole seconds since the Unix epoch, and the
/// nanoseconds past that second.
#[derive(Clone, Copy, Debug, PartialEq, Eq, Structural)]
pub struct Timestamp {
    pub secs: i64,
    pub nanos: u32,
}

impl Timestamp {
    /// The instant as a single count of nanoseconds since the epoch.
    pub open spec fn key(self) -> int {
        self.secs as int * NANOS_PER_SEC as int + self.nanos as int
    }

    pub open spec fn wf(self) -> bool {
        self.nanos < NANOS_PER_SEC && -MAX_SECS <= self.secs <= MAX_SECS
    }

    /// Builds a timestamp, or `None` when `nanos` is not below one second or
    /// `secs` lies further than `MAX_SECS` from the epoch.
    pub fn new(secs: i64, nanos: u32) -> (r: Option<Timestamp>)
        ensures
            r is Some <==> (Timestamp { secs, nanos }).wf(),
            r matches Some(t) ==> t.secs == secs && t.nanos == nanos,
    {
        if nanos < NANOS_PER_SEC && -MAX_SECS <= secs && secs <= MAX_SECS {
            Some(Timestamp { secs, nanos })
        } else {
            None
        }
    }

    /// Whether the timestamp lies within the range of the calendar.
    pub fn is_valid(&self) -> (r: bool)
        ensures
            r == self.wf(),
    {
        self.nanos < NANOS_PER_SEC && -MAX_SECS <= self.secs && self.secs <= MAX_SECS
    }

    /// `self` is not later than `other`: seconds first, then nanoseconds.
    pub open spec fn le_spec(self, other: Timestamp) -> bool {
        self.secs < other.secs || (self.secs == other.secs && self.nanos <= other.nanos)
    }

    /// True when `self` is not later than `other`.
    pub fn not_after(&self, other: &Timestamp) -> (r: bool)
        ensures
            r == self.le_spec(*other),
            self.wf() && other.wf() ==> (r <==> self.key() <= other.key()),
    {
        proof {
            if self.wf() && other.wf() {
                if self.secs < other.secs {
                    assert(self.secs as int * NANOS_PER_SEC as int + NANOS_PER_SEC as int
                        <= other.secs as int * NANOS_PER_SEC as int) by (nonlinear_arith)
                        requires
                            self.secs < other.secs,
                    ;
                } else if self.secs > other.secs {
                    assert(other.secs as int * NANOS_PER_SEC as int + NANOS_PER_SEC as int
                        <= self.secs as int * NANOS_PER_SEC as int) by (nonlinear_arith)
                        requires
                            self.secs > other.secs,
                    ;
                }
            }
        }
        self.secs < other.secs || (self.secs == other.secs && self.nanos <= other.nanos)
    }
}

/// The weekday of the UTC day holding `secs` seconds after the epoch,
/// counted from Monday as 0; the epoch fell on a Thursday.
pub open spec fn weekday_spec(secs: int) -> int {
    (secs / SECS_PER_DAY as int + 3) % 7
}

/// Relies on chrono's `DateTime::from_timestamp`, `Datelike::weekday` and
/// `Weekday::num_days_from_monday`: the weekday of the proleptic Gregorian
/// UTC date of a Unix time, Monday being 0. `from_timestamp` returns a value
/// for every second within `MAX_SECS` of the epoch.
#[verifier::external_body]
fn weekday_from_monday(secs: i64) -> (r: u32)
    requires
        -MAX_SECS <= secs <= MAX_SECS,
    ensures
        r as int == weekday_spec(secs as int),
{
    let date = chrono::DateTime::from_timestamp(secs, 0).unwrap();
    chrono::Datelike::weekday(&date).num_days_from_monday()
}

/// Falls on a Saturday or a Sunday, in UTC.
pub open spec fn is_weekend_spec(t: Timestamp) -> bool {
    weekday_spec(t.secs as int) >= 5
}

/// Largest distance, in nanoseconds, of two timestamps whose whole-day
/// distance is at most thirty days.
pub open spec fn month_span() -> int {
    31 * SECS_PER_DAY as int * NANOS_PER_SEC as int
}

impl Timestamp {
    /// Whether the timestamp falls on a Saturday or a Sunday (UTC).
    pub fn is_weekend(&self) -> (r: bool)
        requires
            self.wf(),
        ensures
            r == is_weekend_spec(*self),
    {
        weekday_from_monday(self.secs) >= 5
    }

    /// Whether the two timestamps lie at most thirty whole days apart.
    pub fn within_month_of(&self, other: &Timestamp) -> (r: bool)
        requires
            self.wf(),
            other.wf(),
        ensures
            r == (-month_span() < self.key() - other.key() < month_span()),
    {
        let a: i128 = self.secs as i128 * 1_000_000_000 + self.nanos as i128;
        let b: i128 = other.secs as i128 * 1_000_000_000 + other.nanos as i128;
        let span: i128 = 31 * 86_400 * 1_000_000_000;
        -span < a - b && a - b < span
    }
}

} // verus!
