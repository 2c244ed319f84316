//! Calendar timestamps: a validated civil date-time in UTC, and the
//! conversion from Unix time.

use vstd::prelude::*;
use chrono::{Datelike, Timelike};
use crate::calendar::{
    civil, days_before_month, days_before_year, epoch_day, last_day_of_month_ym,
    lemma_date_within_year, lemma_days_before_month, lemma_unix_seconds_injective,
    lemma_year_length, lemma_years_ordered, CivilTime, MAX_SECONDS, MIN_SECONDS, NANOS_PER_SECOND,
};

verus! {

/// A calendar timestamp in UTC: date, time of day and the nanoseconds past
/// the whole second.
#[derive(Clone, Copy, Debug, PartialEq, Eq)]
pub struct Timestamp {
    year: i32,
    month: u8,
    day: u8,
    hour: u8,
    minute: u8,
    second: u8,
    nanosecond: u32,
}

impl View for Timestamp {
    type V = CivilTime;

    closed spec fn view(&self) -> CivilTime {
        CivilTime {
            year: self.year as int,
            month: self.month as int,
            day: self.day as int,
            hour: self.hour as int,
            minute: self.minute as int,
            second: self.second as int,
            nanosecond: self.nanosecond as int,
        }
    }
}

impl Timestamp {
    /// The fields name a date of the calendar and a time of day.
    pub open spec fn wf(&self) -> bool {
        self@.is_valid()
    }

    /// Builds a timestamp from its fields, or nothing where they name no
    /// date of the calendar or no time of day.
    pub fn new(
        year: i32,
        month: u8,
        day: u8,
        hour: u8,
        minute: u8,
        second: u8,
        nanosecond: u32,
    ) -> (r: Option<Timestamp>)
        ensures
            r is Some <==> civil(
                year as int,
                month as int,
                day as int,
                hour as int,
                minute as int,
                second as int,
                nanosecond as int,
            ).is_valid(),
            r matches Some(t) ==> t@ == civil(
                year as int,
                month as int,
                day as int,
                hour as int,
                minute as int,
                second as int,
                nanosecond as int,
            ),
    {
        if month < 1 || month > 12 || day < 1 {
            return None;
        }
        let last: i32 = last_day_of_month_ym(year, month as i32);
        if day as i32 > last {
            return None;
        }
        if hour >= 24 || minute >= 60 || second >= 60 || nanosecond >= NANOS_PER_SECOND {
            return None;
        }
        Some(Timestamp { year, month, day, hour, minute, second, nanosecond })
    }

    /// The whole seconds from 1970-01-01T00:00:00 UTC to this timestamp;
    /// negative before 1970.
    pub fn unix_seconds(&self) -> (r: i64)
        requires
            self.wf(),
        ensures
            r == self@.unix_seconds(),
    {
        let date: i64 = year_start(self.year) + month_start(self.year, self.month);
        let days: i64 = date + self.day as i64 - 1;
        let time: i64 = self.hour as i64 * 3600 + self.minute as i64 * 60 + self.second as i64;
        days * 86_400 + time
    }

    /// Two timestamps with the same fields are the same timestamp.
    pub proof fn lemma_view_injective(self, other: Timestamp)
        requires
            self@ == other@,
        ensures
            self == other,
    {
    }

    /// The year, counted astronomically.
    pub fn year(&self) -> (r: i32)
        ensures
            r == self@.year,
    {
        self.year
    }

    /// The month, from 1.
    pub fn month(&self) -> (r: u8)
        ensures
            r == self@.month,
    {
        self.month
    }

    /// The day of the month, from 1.
    pub fn day(&self) -> (r: u8)
        ensures
            r == self@.day,
    {
        self.day
    }

    /// The hour of the day, from 0.
    pub fn hour(&self) -> (r: u8)
        ensures
            r == self@.hour,
    {
        self.hour
    }

    /// The minute of the hour, from 0.
    pub fn minute(&self) -> (r: u8)
        ensures
            r == self@.minute,
    {
        self.minute
    }

    /// The whole second of the minute, from 0.
    pub fn second(&self) -> (r: u8)
        ensures
            r == self@.second,
    {
        self.second
    }

    /// The nanoseconds past the whole second.
    pub fn nanosecond(&self) -> (r: u32)
        ensures
            r == self@.nanosecond,
    {
        self.nanosecond
    }
}

/// The days from 1970-01-01 to the first of January of `year`.
fn year_start(year: i32) -> (r: i64)
    ensures
        r == days_before_year(year as int),
        -784_354_000_000 <= r <= 784_354_000_000,
{
    // Leap years are counted from a year that lies before every `i32` year
    // and begins a cycle of 400 years, so that no division is of a negative
    // number.
    let before: i64 = year as i64 - 1;
    let since: i64 = before + 2_147_600_000;
    assert(since / 4 == before as int / 4 + 536_900_000);
    assert(since / 100 == before as int / 100 + 21_476_000);
    assert(since / 400 == before as int / 400 + 5_369_000);
    let leaps: i64 = since / 4 - since / 100 + since / 400 - 520_793_000;
    365 * (year as i64 - 1970) + leaps - 477
}

/// The days of `year` that lie before the first of `month`.
fn month_start(year: i32, month: u8) -> (r: i64)
    requires
        1 <= month <= 12,
    ensures
        r == days_before_month(year as int, month as int),
        0 <= r <= 335,
{
    let leap: bool = (year % 4 == 0 && year % 100 != 0) || year % 400 == 0;
    let common: i64 = if month == 1 {
        0
    } else if month == 2 {
        31
    } else if month == 3 {
        59
    } else if month == 4 {
        90
    } else if month == 5 {
        120
    } else if month == 6 {
        151
    } else if month == 7 {
        181
    } else if month == 8 {
        212
    } else if month == 9 {
        243
    } else if month == 10 {
        273
    } else if month == 11 {
        304
    } else {
        334
    };
    proof {
        lemma_days_before_month(year as int);
    }
    if leap && month > 2 {
        common + 1
    } else {
        common
    }
}

/// The calendar fields of an instant, in the integer types in which chrono
/// hands them out.
struct UtcFields {
    year: i32,
    month: u32,
    day: u32,
    hour: u32,
    minute: u32,
    second: u32,
    nanosecond: u32,
}

impl View for UtcFields {
    type V = CivilTime;

    closed spec fn view(&self) -> CivilTime {
        CivilTime {
            year: self.year as int,
            month: self.month as int,
            day: self.day as int,
            hour: self.hour as int,
            minute: self.minute as int,
            second: self.second as int,
            nanosecond: self.nanosecond as int,
        }
    }
}

/// Calls chrono's `DateTime::from_timestamp` and reads the calendar fields
/// of the UTC date-time it makes.
///
/// Trusted: for a second between 0001-01-01T00:00:00 and
/// 9999-12-31T23:59:59 and less than a second's worth of nanoseconds,
/// chrono makes a date-time; its fields name a date of the proleptic
/// Gregorian calendar and a time of day; counted back into seconds since
/// 1970-01-01T00:00:00 they give `secs`; and its nanoseconds are `nanos`.
#[verifier::external_body]
fn utc_fields(secs: i64, nanos: u32) -> (r: Option<UtcFields>)
    requires
        MIN_SECONDS <= secs <= MAX_SECONDS,
        nanos < NANOS_PER_SECOND,
    ensures
        r is Some,
        r matches Some(f) ==> f@.is_valid() && f@.unix_seconds() == secs && f@.nanosecond == nanos,
{
    match chrono::DateTime::from_timestamp(secs, nanos) {
        Some(dt) => Some(
            UtcFields {
                year: dt.year(),
                month: dt.month(),
                day: dt.day(),
                hour: dt.hour(),
                minute: dt.minute(),
                second: dt.second(),
                nanosecond: dt.timestamp_subsec_nanos(),
            },
        ),
        None => None,
    }
}

/// Whether a count of milliseconds since 1970-01-01T00:00:00 falls on a
/// second that a timestamp may carry.
pub open spec fn millis_in_range(millis: int) -> bool {
    MIN_SECONDS <= millis / 1000 <= MAX_SECONDS
}

/// The timestamp of an instant given in milliseconds since
/// 1970-01-01T00:00:00: the one valid reading of calendar and clock that is
/// that many milliseconds past the epoch and holds no part of a millisecond.
pub open spec fn timestamp_at(millis: int, t: Timestamp) -> bool {
    &&& t.wf()
    &&& t@.unix_millis() == millis
    &&& t@.nanosecond % 1_000_000 == 0
}

/// Converts milliseconds since 1970-01-01T00:00:00 UTC into a calendar
/// timestamp. Instants before the year 1 or after the year 9999 have none.
pub fn timestamp_from_millis(millis: u64) -> (r: Option<Timestamp>)
    ensures
        r is Some <==> millis_in_range(millis as int),
        r matches Some(t) ==> timestamp_at(millis as int, t),
{
    let secs: i64 = (millis / 1000) as i64;
    let nanos: u32 = ((millis % 1000) * 1_000_000) as u32;
    if secs < MIN_SECONDS || secs > MAX_SECONDS {
        return None;
    }
    let fields = match utc_fields(secs, nanos) {
        Some(f) => f,
        None => { return None; },
    };
    Timestamp::new(
        fields.year,
        fields.month as u8,
        fields.day as u8,
        fields.hour as u8,
        fields.minute as u8,
        fields.second as u8,
        fields.nanosecond,
    )
}

/// An instant has at most one timestamp.
pub proof fn lemma_timestamp_unique(millis: int, a: Timestamp, b: Timestamp)
    requires
        timestamp_at(millis, a),
        timestamp_at(millis, b),
    ensures
        a == b,
{
    assert(a@.nanosecond == b@.nanosecond && a@.unix_seconds() == b@.unix_seconds()) by {
        let na = a@.nanosecond / 1_000_000;
        let nb = b@.nanosecond / 1_000_000;
        assert(0 <= na < 1000 && 0 <= nb < 1000);
        assert(a@.unix_seconds() * 1000 + na == b@.unix_seconds() * 1000 + nb);
    }
    lemma_unix_seconds_injective(a@, b@);
    a.lemma_view_injective(b);
}

/// A valid timestamp of the years 1970 to 9999 lies at a count of
/// milliseconds that fits the 48 bits of an identifier's timestamp field and
/// that falls in the range a timestamp may carry.
pub proof fn lemma_millis_of_timestamp(t: Timestamp)
    requires
        t.wf(),
        1970 <= t@.year <= 9999,
    ensures
        0 <= t@.unix_millis() < 0x1_0000_0000_0000,
        millis_in_range(t@.unix_millis()),
{
    let c = t@;
    lemma_date_within_year(c.year, c.month, c.day);
    if 1970 < c.year {
        lemma_years_ordered(1970, c.year);
    }
    if c.year + 1 < 10000 {
        lemma_years_ordered(c.year, 9999);
        lemma_year_length(9999);
        lemma_days_before_month(9999);
    }
    assert(days_before_year(1970) == 0);
    assert(days_before_year(10000) == 2932897);
    let day = epoch_day(c.year, c.month, c.day);
    assert(0 <= day < 2932897);
    assert(0 <= c.second_of_day() < 86_400);
    assert(0 <= c.unix_seconds() <= 253_402_300_799);
    assert(0 <= c.nanosecond / 1_000_000 < 1000);
    assert(c.unix_millis() / 1000 == c.unix_seconds());
}

} // verus!
