//! Calendar times in UTC, as stored in the recording-time tag of an audio file.

use vstd::prelude::*;
use chrono::{Datelike, Timelike};

verus! {

/// A UTC calendar date and time of day, to the second.
#[derive(Clone, Copy, Debug, PartialEq, Eq, Structural)]
pub struct RecordedTime {
    pub year: i32,
    pub month: u8,
    pub day: u8,
    pub hour: u8,
    pub minute: u8,
    pub second: u8,
}

pub open spec fn is_leap_year(y: int) -> bool {
    (y % 4 == 0 && y % 100 != 0) || y % 400 == 0
}

pub open spec fn days_in_month(y: int, m: int) -> int {
    if m == 2 {
        if is_leap_year(y) {
            29
        } else {
            28
        }
    } else if m == 4 || m == 6 || m == 9 || m == 11 {
        30
    } else {
        31
    }
}

/// A real date and time of day in the proleptic Gregorian calendar, within the years that the
/// calendar library represents.
pub open spec fn valid_civil(y: int, mo: int, d: int, h: int, mi: int, s: int) -> bool {
    &&& -262143 <= y <= 262142
    &&& 1 <= mo <= 12
    &&& 1 <= d <= days_in_month(y, mo)
    &&& 0 <= h < 24
    &&& 0 <= mi < 60
    &&& 0 <= s < 60
}

/// Days from 1970-01-01 to the given date.
pub open spec fn days_from_civil(y: int, m: int, d: int) -> int {
    let y1 = if m <= 2 {
        y - 1
    } else {
        y
    };
    let era = y1 / 400;
    let yoe = y1 - era * 400;
    let mp = if m > 2 {
        m - 3
    } else {
        m + 9
    };
    let doy = (153 * mp + 2) / 5 + d - 1;
    let doe = yoe * 365 + yoe / 4 - yoe / 100 + doy;
    era * 146097 + doe - 719468
}

/// Seconds since the Unix epoch of the given UTC date and time.
pub open spec fn unix_of(y: int, mo: int, d: int, h: int, mi: int, s: int) -> int {
    days_from_civil(y, mo, d) * 86400 + h * 3600 + mi * 60 + s
}

pub open spec fn recorded_valid(t: RecordedTime) -> bool {
    valid_civil(t.year as int, t.month as int, t.day as int, t.hour as int, t.minute as int, t.second as int)
}

pub open spec fn recorded_unix(t: RecordedTime) -> int {
    unix_of(t.year as int, t.month as int, t.day as int, t.hour as int, t.minute as int, t.second as int)
}

/// The Unix time of a recorded time, when it is a real date at or after the epoch.
pub open spec fn unix_time_spec(t: RecordedTime) -> Option<u64> {
    if recorded_valid(t) && 0 <= recorded_unix(t) <= u64::MAX {
        Some(recorded_unix(t) as u64)
    } else {
        None
    }
}

/// Relies on `chrono::NaiveDate::from_ymd_opt`, `chrono::NaiveTime::from_hms_opt` and
/// `NaiveDateTime::and_utc().timestamp()`: the Unix time of a UTC date and time, or nothing when
/// it is not a real date and time.
#[verifier::external_body]
fn civil_to_unix(y: i32, mo: u32, d: u32, h: u32, mi: u32, s: u32) -> (r: Option<i64>)
    ensures
        r is Some <==> valid_civil(y as int, mo as int, d as int, h as int, mi as int, s as int),
        r matches Some(t) ==> t == unix_of(y as int, mo as int, d as int, h as int, mi as int, s as int),
{
    let date = chrono::NaiveDate::from_ymd_opt(y, mo, d)?;
    let time = chrono::NaiveTime::from_hms_opt(h, mi, s)?;
    Some(chrono::NaiveDateTime::new(date, time).and_utc().timestamp())
}

/// Relies on `chrono::DateTime::<Utc>::from_timestamp`: the UTC date and time of a Unix time,
/// as year, month, day, hour, minute and second, when it is within the calendar's range (which
/// runs to the year 262142, past 8 * 10^12 seconds).
#[verifier::external_body]
fn unix_to_civil(secs: i64) -> (r: Option<(i32, u32, u32, u32, u32, u32)>)
    ensures
        0 <= secs <= 8_000_000_000_000 ==> r is Some,
        r matches Some(f) ==> valid_civil(f.0 as int, f.1 as int, f.2 as int, f.3 as int, f.4 as int, f.5 as int)
            && unix_of(f.0 as int, f.1 as int, f.2 as int, f.3 as int, f.4 as int, f.5 as int) == secs,
{
    match chrono::DateTime::from_timestamp(secs, 0) {
        Some(t) => Some((t.year(), t.month(), t.day(), t.hour(), t.minute(), t.second())),
        None => None,
    }
}

/// The Unix time of a recorded time; `None` when it is not a real date and time, or before the
/// epoch.
pub fn unix_time_of(t: &RecordedTime) -> (r: Option<u64>)
    ensures
        r == unix_time_spec(*t),
{
    let secs = civil_to_unix(
        t.year,
        t.month as u32,
        t.day as u32,
        t.hour as u32,
        t.minute as u32,
        t.second as u32,
    );
    match secs {
        Some(s) => if s >= 0 {
            Some(s as u64)
        } else {
            None
        },
        None => None,
    }
}

/// The UTC date and time of a Unix time, when the calendar can represent it (always, for any
/// time before the year 250000).
pub fn recorded_time_of(secs: u64) -> (r: Option<RecordedTime>)
    ensures
        secs <= 8_000_000_000_000 ==> r is Some,
        r matches Some(t) ==> recorded_valid(t) && recorded_unix(t) == secs,
{
    if secs > i64::MAX as u64 {
        return None;
    }
    match unix_to_civil(secs as i64) {
        Some(f) => Some(
            RecordedTime {
                year: f.0,
                month: f.1 as u8,
                day: f.2 as u8,
                hour: f.3 as u8,
                minute: f.4 as u8,
                second: f.5 as u8,
            },
        ),
        None => None,
    }
}

/// A time written to the tag reads back as the same Unix time.
pub proof fn lemma_recorded_time_round_trip(t: RecordedTime, secs: u64)
    requires
        recorded_valid(t),
        recorded_unix(t) == secs,
    ensures
        unix_time_spec(t) == Some(secs),
{
}

} // verus!
