//! Points in time and lengths of time, in units of 1/90,000th of a second.
use vstd::prelude::*;

verus! {

/// Number of time units in one second.
pub const TIME_UNITS_PER_SEC: i64 = 90_000;

/// An upper bound on the duration of a single recording: five minutes.
pub const MAX_RECORDING_DURATION: i64 = 27_000_000;

/// Whether `x` can be held in an `i64`.
pub open spec fn fits(x: int) -> bool {
    i64::MIN <= x <= i64::MAX
}

/// A point in time: units of 1/90,000th of a second since 1970-01-01 00:00:00 UTC.
#[derive(Clone, Copy, Debug, PartialEq, Eq, Structural, PartialOrd, Ord)]
pub struct Time(pub i64);

/// A length of time in units of 1/90,000th of a second. It may be negative.
#[derive(Clone, Copy, Debug, PartialEq, Eq, Structural, PartialOrd, Ord)]
pub struct Duration(pub i64);

/// `x / d`, rounded toward zero.
pub open spec fn quotient_toward_zero(x: int, d: int) -> int {
    if x >= 0 {
        x / d
    } else {
        -((-x) / d)
    }
}

impl Time {
    /// The whole seconds since the epoch, rounded toward the epoch.
    pub fn unix_seconds(self) -> (r: i64)
        ensures
            r == quotient_toward_zero(self.0 as int, TIME_UNITS_PER_SEC as int),
            i64::MIN / TIME_UNITS_PER_SEC <= r <= i64::MAX / TIME_UNITS_PER_SEC,
    {
        self.0 / TIME_UNITS_PER_SEC
    }
}

impl std::ops::Add<Duration> for Time {
    type Output = Time;

    fn add(self, rhs: Duration) -> Time {
        Time(self.0 + rhs.0)
    }
}

impl vstd::std_specs::ops::AddSpecImpl<Duration> for Time {
    open spec fn obeys_add_spec() -> bool {
        true
    }

    open spec fn add_req(self, rhs: Duration) -> bool {
        fits(self.0 + rhs.0)
    }

    open spec fn add_spec(self, rhs: Duration) -> Time {
        Time((self.0 + rhs.0) as i64)
    }
}

impl std::ops::Sub<Time> for Time {
    type Output = Duration;

    fn sub(self, rhs: Time) -> Duration {
        Duration(self.0 - rhs.0)
    }
}

impl vstd::std_specs::ops::SubSpecImpl<Time> for Time {
    open spec fn obeys_sub_spec() -> bool {
        true
    }

    open spec fn sub_req(self, rhs: Time) -> bool {
        fits(self.0 - rhs.0)
    }

    open spec fn sub_spec(self, rhs: Time) -> Duration {
        Duration((self.0 - rhs.0) as i64)
    }
}

/// The whole seconds of a time are less than a second away from it, toward the epoch.
pub proof fn lemma_unix_seconds(t: Time, sec: i64)
    requires
        call_ensures(Time::unix_seconds, (t,), sec),
    ensures
        t.0 >= 0 ==> sec * 90_000 <= t.0 < (sec + 1) * 90_000,
        t.0 < 0 ==> (sec - 1) * 90_000 < t.0 <= sec * 90_000,
{
}

/// A second has 90,000 time units, and the longest recording lasts five minutes.
pub proof fn lemma_time_units()
    ensures
        TIME_UNITS_PER_SEC == 90_000,
        MAX_RECORDING_DURATION == 5 * 60 * TIME_UNITS_PER_SEC,
{
}

} // verus!
