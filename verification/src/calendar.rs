//! Calendar times, and what the `time` crate says about them.
use crate::calls::answer;
use crate::text::{ascii_bytes, decimal, decimal_two};
use vstd::prelude::*;
use vstd::string::*;

verus! {

/// A calendar date and time broken down into its components.
#[derive(Copy, Clone, Debug, PartialEq, Eq, Structural)]
pub struct Tm {
    /// Seconds after the minute.
    pub tm_sec: i32,
    /// Minutes after the hour.
    pub tm_min: i32,
    /// Hours after midnight.
    pub tm_hour: i32,
    /// Day of the month, from 1.
    pub tm_mday: i32,
    /// Months since January.
    pub tm_mon: i32,
    /// Years since 1900.
    pub tm_year: i32,
    /// Days since Sunday.
    pub tm_wday: i32,
    /// Days since January 1.
    pub tm_yday: i32,
    /// Positive in daylight saving time, zero outside of it, negative if unknown.
    pub tm_isdst: i32,
    /// Seconds east of UTC. Any value but zero stands for the local time zone.
    pub tm_utcoff: i32,
    /// Nanoseconds after the second.
    pub tm_nsec: i32,
}

impl Tm {
    /// Whether the month and the weekday are in their ranges.
    pub open spec fn has_date(self) -> bool {
        0 <= self.tm_wday <= 6 && 0 <= self.tm_mon <= 11
    }

    /// What is said of a month or a weekday that is out of its range.
    pub open spec fn refusal(self) -> Seq<char> {
        if 0 <= self.tm_mon <= 11 {
            "Invalid day of the week."@
        } else if 0 <= self.tm_wday <= 6 {
            "Invalid month."@
        } else {
            "Invalid day."@
        }
    }

    /// The year, month and day as `YYYY-mm-dd`. A year is written with as many digits as it takes.
    pub open spec fn date_text(self) -> Seq<u8> {
        ascii_bytes(
            decimal(self.tm_year + 1900) + seq!['-'] + decimal_two(self.tm_mon + 1) + seq!['-']
                + decimal_two(self.tm_mday as int),
        )
    }

    /// The midnight that starts the next day, not normalized: the day may be past the end of the
    /// month. Whether daylight saving time is in effect then is left open.
    pub open spec fn spec_next_midnight(self) -> Tm {
        Tm {
            tm_isdst: (-1) as i32,
            tm_hour: 0,
            tm_min: 0,
            tm_sec: 0,
            tm_mday: (self.tm_mday + 1) as i32,
            ..self
        }
    }

    /// The midnight that starts the next day, not normalized.
    pub fn next_midnight(self) -> (r: Tm)
        requires
            self.tm_mday < i32::MAX,
        ensures
            r == self.spec_next_midnight(),
    {
        Tm {
            tm_isdst: -1,
            tm_hour: 0,
            tm_min: 0,
            tm_sec: 0,
            tm_mday: self.tm_mday + 1,
            ..self
        }
    }
}

/// The digit that the byte `b` stands for.
pub open spec fn digit_value(b: u8) -> int {
    b - 48
}

/// Whether the byte `b` is a decimal digit.
pub open spec fn is_digit(b: u8) -> bool {
    48 <= b <= 57
}

/// Whether `s` reads `NNNN-NN-NN` with a decimal digit for each `N`.
pub open spec fn is_date_shaped(s: Seq<u8>) -> bool {
    &&& s.len() == 10
    &&& is_digit(s[0]) && is_digit(s[1]) && is_digit(s[2]) && is_digit(s[3])
    &&& s[4] == 45
    &&& is_digit(s[5]) && is_digit(s[6])
    &&& s[7] == 45
    &&& is_digit(s[8]) && is_digit(s[9])
}

/// The first four digits of a date.
pub open spec fn date_year(s: Seq<u8>) -> int {
    digit_value(s[0]) * 1000 + digit_value(s[1]) * 100 + digit_value(s[2]) * 10 + digit_value(s[3])
}

/// The month of a date, from 1.
pub open spec fn date_month(s: Seq<u8>) -> int {
    digit_value(s[5]) * 10 + digit_value(s[6])
}

/// The day of the month of a date, from 1.
pub open spec fn date_day(s: Seq<u8>) -> int {
    digit_value(s[8]) * 10 + digit_value(s[9])
}

/// Whether `s` is a date whose month and day of the month are in the ranges that every calendar
/// allows. `2015-02-31` is one such.
pub open spec fn is_date(s: Seq<u8>) -> bool {
    is_date_shaped(s) && 1 <= date_month(s) <= 12 && 1 <= date_day(s) <= 31
}

/// The calendar time of the midnight that starts the date `s`, in UTC.
pub open spec fn date_midnight(s: Seq<u8>) -> Tm {
    Tm {
        tm_sec: 0,
        tm_min: 0,
        tm_hour: 0,
        tm_mday: date_day(s) as i32,
        tm_mon: (date_month(s) - 1) as i32,
        tm_year: (date_year(s) - 1900) as i32,
        tm_wday: 0,
        tm_yday: 0,
        tm_isdst: 0,
        tm_utcoff: 0,
        tm_nsec: 0,
    }
}

/// The least number of seconds that a point in time can be away from the epoch.
pub const MIN_SECONDS: i64 = -102_481_911_520_609;

/// The greatest number of seconds that a point in time can be away from the epoch.
pub const MAX_SECONDS: i64 = 102_481_911_520_608;

/// Calls `time::at`: the local calendar time at `sec` seconds after the epoch.
///
/// What the result is depends on the machine's time zone, so nothing ties it to `sec`. What is
/// claimed are the ranges that the fields of `time::Tm` are documented to have, that the
/// nanoseconds are those handed in, which are none, and that the year is within four million of
/// 1900, as it is for any time zone at the seconds that are let in. `time::at` panics where the
/// year does not fit in an `i32`, which is not so for those seconds.
#[verifier::external_body]
pub(crate) fn local_time(sec: i64) -> (r: Tm)
    requires
        MIN_SECONDS <= sec <= MAX_SECONDS,
    ensures
        r.has_date(),
        1 <= r.tm_mday <= 31,
        0 <= r.tm_hour <= 23,
        0 <= r.tm_min <= 59,
        0 <= r.tm_sec <= 60,
        r.tm_nsec == 0,
        -4_000_000 <= r.tm_year <= 4_000_000,
{
    let t = time::at(time::Timespec { sec, nsec: 0 });
    Tm {
        tm_sec: t.tm_sec,
        tm_min: t.tm_min,
        tm_hour: t.tm_hour,
        tm_mday: t.tm_mday,
        tm_mon: t.tm_mon,
        tm_year: t.tm_year,
        tm_wday: t.tm_wday,
        tm_yday: t.tm_yday,
        tm_isdst: t.tm_isdst,
        tm_utcoff: t.tm_utcoff,
        tm_nsec: t.tm_nsec,
    }
}

/// Calls `time::Tm::to_timespec`: the seconds after the epoch of a calendar time.
///
/// It goes by the machine's time zone, so nothing is claimed of the result. It panics where the
/// nanoseconds are out of range.
#[verifier::external_body]
pub(crate) fn seconds_at(tm: &Tm) -> (r: i64)
    requires
        0 <= tm.tm_nsec < 1_000_000_000,
{
    time::Tm {
        tm_sec: tm.tm_sec,
        tm_min: tm.tm_min,
        tm_hour: tm.tm_hour,
        tm_mday: tm.tm_mday,
        tm_mon: tm.tm_mon,
        tm_year: tm.tm_year,
        tm_wday: tm.tm_wday,
        tm_yday: tm.tm_yday,
        tm_isdst: tm.tm_isdst,
        tm_utcoff: tm.tm_utcoff,
        tm_nsec: tm.tm_nsec,
    }.to_timespec().sec
}

/// Whether `tm` is something that `local_time` may say for `sec`, whatever the time zone.
pub closed spec fn may_be_local_time(sec: i64, tm: Tm) -> bool {
    call_ensures(local_time, (sec,), tm)
}

/// Whether `sec` is something that `seconds_at` may say for `tm`, whatever the time zone.
pub closed spec fn may_be_seconds_at(tm: Tm, sec: i64) -> bool {
    call_ensures(seconds_at, (&tm,), sec)
}

/// The local calendar time at `sec` seconds after the epoch.
pub(crate) fn calendar_at(sec: i64) -> (r: Tm)
    requires
        MIN_SECONDS <= sec <= MAX_SECONDS,
    ensures
        may_be_local_time(sec, r),
        r.has_date(),
        1 <= r.tm_mday <= 31,
        0 <= r.tm_hour <= 23,
        0 <= r.tm_min <= 59,
        0 <= r.tm_sec <= 60,
        r.tm_nsec == 0,
        -4_000_000 <= r.tm_year <= 4_000_000,
{
    answer(local_time, sec)
}

/// The seconds after the epoch of the calendar time `tm`.
pub(crate) fn calendar_seconds(tm: &Tm) -> (r: i64)
    requires
        0 <= tm.tm_nsec < 1_000_000_000,
    ensures
        may_be_seconds_at(*tm, r),
{
    answer(seconds_at, tm)
}

/// Calls `time::Tm::strftime` with the format `%Y-%m-%d`, and writes out what it gives.
///
/// It refuses a month or a weekday that is out of range; the error's text says which. Otherwise it
/// writes the year in decimal, and the month and the day of the month in decimal with at least two
/// digits, with a hyphen in between. It panics where the year after 1900 does not fit in an `i32`.
#[verifier::external_body]
pub(crate) fn formatted_date(tm: &Tm) -> (r: Result<Vec<u8>, String>)
    requires
        tm.tm_year <= i32::MAX - 1900,
    ensures
        r is Ok <==> tm.has_date(),
        r matches Ok(text) ==> text@ == tm.date_text(),
        r matches Err(e) ==> e@ == tm.refusal(),
{
    let t = time::Tm {
        tm_mday: tm.tm_mday,
        tm_mon: tm.tm_mon,
        tm_year: tm.tm_year,
        tm_wday: tm.tm_wday,
        ..time::empty_tm()
    };
    match t.strftime("%Y-%m-%d") {
        Ok(date) => Ok(date.to_string().into_bytes()),
        Err(e) => Err(e.to_string()),
    }
}

/// Calls `time::strptime` with the format `%Y-%m-%d`.
///
/// Of text that reads `NNNN-NN-NN` it takes the year, the month and the day of the month, leaves
/// every other field zero, and refuses a month that is not in 1 to 12 or a day of the month that
/// is not in 1 to 31. Nothing is claimed of other text.
#[verifier::external_body]
pub(crate) fn parsed_date(s: &str) -> (r: Option<Tm>)
    ensures
        is_date_shaped(s.spec_bytes()) ==> (r is Some <==> is_date(s.spec_bytes())),
        is_date(s.spec_bytes()) ==> r == Some(date_midnight(s.spec_bytes())),
{
    time::strptime(s, "%Y-%m-%d").ok().map(|t| Tm {
        tm_sec: t.tm_sec,
        tm_min: t.tm_min,
        tm_hour: t.tm_hour,
        tm_mday: t.tm_mday,
        tm_mon: t.tm_mon,
        tm_year: t.tm_year,
        tm_wday: t.tm_wday,
        tm_yday: t.tm_yday,
        tm_isdst: t.tm_isdst,
        tm_utcoff: t.tm_utcoff,
        tm_nsec: t.tm_nsec,
    })
}

/// Calls `std::str::from_utf8`: the text that `bytes` encode, if they are valid UTF-8.
#[verifier::external_body]
pub(crate) fn utf8_text(bytes: &[u8]) -> (r: Option<&str>)
    ensures
        r is Some <==> vstd::utf8::valid_utf8(bytes@),
        r matches Some(s) ==> s.spec_bytes() == bytes@,
{
    std::str::from_utf8(bytes).ok()
}

} // verus!
