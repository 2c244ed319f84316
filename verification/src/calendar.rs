//! The proleptic Gregorian calendar over integers: month lengths, day
//! numbers counted from 1970-01-01, and civil date-times with their Unix
//! timestamps.

use vstd::prelude::*;

verus! {

/// Nanoseconds in one second.
pub const NANOS_PER_SECOND: u32 = 1_000_000_000;

/// Unix timestamp of 0001-01-01T00:00:00, the first second a timestamp may
/// carry.
pub const MIN_SECONDS: i64 = -62_135_596_800;

/// Unix timestamp of 9999-12-31T23:59:59, the last second a timestamp may
/// carry.
pub const MAX_SECONDS: i64 = 253_402_300_799;

/// Every fourth year is a leap year, except the centuries that four hundred
/// does not divide.
pub open spec fn is_leap_year(year: int) -> bool {
    year % 4 == 0 && (year % 100 != 0 || year % 400 == 0)
}

/// Length of a month in days. A month number outside 1..=12 counts as a long
/// month.
pub open spec fn days_in_month(year: int, month: int) -> int {
    if month == 2 {
        if is_leap_year(year) {
            29
        } else {
            28
        }
    } else if month == 4 || month == 6 || month == 9 || month == 11 {
        30
    } else {
        31
    }
}

/// Days of `year` that lie before the first of `month`.
pub open spec fn days_before_month(year: int, month: int) -> int
    decreases month,
{
    if month <= 1 {
        0
    } else {
        days_before_month(year, month - 1) + days_in_month(year, month - 1)
    }
}

/// Days from 1970-01-01 to the first of January of `year`; negative for
/// earlier years. That is 365 days for each year in between, and one more
/// for each leap year among them: the leap years before `year`, less the 477
/// that lie before 1970.
pub open spec fn days_before_year(year: int) -> int {
    365 * (year - 1970) + (year - 1) / 4 - (year - 1) / 100 + (year - 1) / 400 - 477
}

/// Days from 1970-01-01 to the given date.
pub open spec fn epoch_day(year: int, month: int, day: int) -> int {
    days_before_year(year) + days_before_month(year, month) + day - 1
}

/// Whether year, month and day name a date of the calendar.
pub open spec fn is_date(year: int, month: int, day: int) -> bool {
    1 <= month <= 12 && 1 <= day <= days_in_month(year, month)
}

/// A civil date and time of day in UTC, as mathematical integers.
pub struct CivilTime {
    pub year: int,
    pub month: int,
    pub day: int,
    pub hour: int,
    pub minute: int,
    pub second: int,
    pub nanosecond: int,
}

/// The civil time with the given fields.
pub open spec fn civil(
    year: int,
    month: int,
    day: int,
    hour: int,
    minute: int,
    second: int,
    nanosecond: int,
) -> CivilTime {
    CivilTime { year, month, day, hour, minute, second, nanosecond }
}

impl CivilTime {
    /// The fields name a date of the calendar and a time of day.
    pub open spec fn is_valid(self) -> bool {
        &&& is_date(self.year, self.month, self.day)
        &&& 0 <= self.hour < 24
        &&& 0 <= self.minute < 60
        &&& 0 <= self.second < 60
        &&& 0 <= self.nanosecond < 1_000_000_000
    }

    /// Seconds elapsed since midnight.
    pub open spec fn second_of_day(self) -> int {
        self.hour * 3600 + self.minute * 60 + self.second
    }

    /// Whole seconds from 1970-01-01T00:00:00 to this instant.
    pub open spec fn unix_seconds(self) -> int {
        epoch_day(self.year, self.month, self.day) * 86_400 + self.second_of_day()
    }

    /// Whole milliseconds from 1970-01-01T00:00:00 to this instant.
    pub open spec fn unix_millis(self) -> int {
        self.unix_seconds() * 1000 + self.nanosecond / 1_000_000
    }
}

/// The table of days before each month: the common-year count, and one more
/// from March on in a leap year.
pub proof fn lemma_days_before_month(year: int)
    ensures
        days_before_month(year, 1) == 0,
        days_before_month(year, 2) == 31,
        days_before_month(year, 3) == 59 + if is_leap_year(year) { 1int } else { 0 },
        days_before_month(year, 4) == 90 + if is_leap_year(year) { 1int } else { 0 },
        days_before_month(year, 5) == 120 + if is_leap_year(year) { 1int } else { 0 },
        days_before_month(year, 6) == 151 + if is_leap_year(year) { 1int } else { 0 },
        days_before_month(year, 7) == 181 + if is_leap_year(year) { 1int } else { 0 },
        days_before_month(year, 8) == 212 + if is_leap_year(year) { 1int } else { 0 },
        days_before_month(year, 9) == 243 + if is_leap_year(year) { 1int } else { 0 },
        days_before_month(year, 10) == 273 + if is_leap_year(year) { 1int } else { 0 },
        days_before_month(year, 11) == 304 + if is_leap_year(year) { 1int } else { 0 },
        days_before_month(year, 12) == 334 + if is_leap_year(year) { 1int } else { 0 },
        days_before_month(year, 13) == 365 + if is_leap_year(year) { 1int } else { 0 },
{
    reveal_with_fuel(days_before_month, 14);
}

/// A year is as long as its months together: the next year begins 365 days
/// after this one, or 366 in a leap year.
pub proof fn lemma_year_length(year: int)
    ensures
        days_before_year(year + 1) == days_before_year(year) + days_before_month(year, 13),
{
    lemma_days_before_month(year);
}

/// Later years begin later.
pub proof fn lemma_years_ordered(earlier: int, later: int)
    requires
        earlier < later,
    ensures
        days_before_year(earlier + 1) <= days_before_year(later),
    decreases later - earlier,
{
    if earlier + 1 < later {
        lemma_years_ordered(earlier, later - 1);
        lemma_year_length(later - 1);
        lemma_days_before_month(later - 1);
    }
}

/// Every date of a year falls between the year's first day and the next
/// year's.
pub proof fn lemma_date_within_year(year: int, month: int, day: int)
    requires
        is_date(year, month, day),
    ensures
        days_before_year(year) <= epoch_day(year, month, day) < days_before_year(year + 1),
{
    lemma_days_before_month(year);
    lemma_year_length(year);
}

/// No two dates share a day number.
pub proof fn lemma_epoch_day_injective(y1: int, m1: int, d1: int, y2: int, m2: int, d2: int)
    requires
        is_date(y1, m1, d1),
        is_date(y2, m2, d2),
        epoch_day(y1, m1, d1) == epoch_day(y2, m2, d2),
    ensures
        y1 == y2,
        m1 == m2,
        d1 == d2,
{
    lemma_date_within_year(y1, m1, d1);
    lemma_date_within_year(y2, m2, d2);
    if y1 < y2 {
        lemma_years_ordered(y1, y2);
    }
    if y2 < y1 {
        lemma_years_ordered(y2, y1);
    }
    lemma_days_before_month(y1);
}

/// No two valid civil times share a second and a nanosecond: a Unix
/// timestamp names one reading of the calendar and the clock.
pub proof fn lemma_unix_seconds_injective(a: CivilTime, b: CivilTime)
    requires
        a.is_valid(),
        b.is_valid(),
        a.unix_seconds() == b.unix_seconds(),
        a.nanosecond == b.nanosecond,
    ensures
        a == b,
{
    let da = epoch_day(a.year, a.month, a.day);
    let db = epoch_day(b.year, b.month, b.day);
    assert(0 <= a.second_of_day() < 86_400);
    assert(0 <= b.second_of_day() < 86_400);
    assert(da == db);
    lemma_epoch_day_injective(a.year, a.month, a.day, b.year, b.month, b.day);
    assert(a.hour == b.hour && a.minute == b.minute && a.second == b.second);
}

/// Length in days of the given month: 30 for April, June, September and
/// November; 28 for February, or 29 in a leap year; 31 for every other month
/// number.
pub fn last_day_of_month_ym(year: i32, month: i32) -> (days: i32)
    ensures
        days == days_in_month(year as int, month as int),
{
    if month == 4 || month == 6 || month == 9 || month == 11 {
        30
    } else if month == 2 {
        if (year % 4 == 0 && year % 100 != 0) || year % 400 == 0 {
            29
        } else {
            28
        }
    } else {
        31
    }
}

} // verus!
