//! Calendar dates as plain year, month and day numbers.

use vstd::prelude::*;

verus! {

/// A day of the proleptic Gregorian calendar.
#[derive(Clone, Copy, Debug, PartialEq, Eq, Structural)]
pub struct Date {
    pub year: i32,
    pub month: u32,
    pub day: u32,
}

/// The earliest year a date may carry.
pub const MIN_YEAR: i32 = -262143;

/// The latest year a date may carry.
pub const MAX_YEAR: i32 = 262142;

/// Whether February has 29 days in `year`.
pub open spec fn is_leap_year(year: int) -> bool {
    year % 4 == 0 && (year % 100 != 0 || year % 400 == 0)
}

/// The number of days of the month `month` in `year`.
pub open spec fn days_in_month(year: int, month: int) -> int {
    if month == 2 {
        if is_leap_year(year) {
            29
        } else {
            28
        }
    } else if month == 4 || month == 6 || month == 9 || month == 11 {
        30
    } else {
        31
    }
}

/// Whether `year`, `month`, `day` name a day that exists and whose year is
/// within the supported range.
pub open spec fn calendar_valid(year: int, month: int, day: int) -> bool {
    &&& MIN_YEAR <= year <= MAX_YEAR
    &&& 1 <= month <= 12
    &&& 1 <= day <= days_in_month(year, month)
}

/// The UTC calendar day on which the instant `secs` seconds after the Unix
/// epoch falls, where the calendar can represent it.
pub uninterp spec fn civil_date(secs: int) -> Option<Date>;

/// Strict chronological order on dates.
pub open spec fn date_lt(a: Date, b: Date) -> bool {
    a.year < b.year || (a.year == b.year && (a.month < b.month || (a.month == b.month && a.day
        < b.day)))
}

impl Date {
    /// Whether the fields name an existing calendar day.
    pub open spec fn wf(&self) -> bool {
        calendar_valid(self.year as int, self.month as int, self.day as int)
    }

    /// Builds a date from month, day and year, in that order, when they name
    /// an existing calendar day.
    pub fn from_mdy(month: i32, day: i32, year: i32) -> (r: Option<Date>)
        ensures
            match r {
                Some(d) => calendar_valid(year as int, month as int, day as int) && d.year == year
                    && d.month == month && d.day == day,
                None => !calendar_valid(year as int, month as int, day as int),
            },
    {
        if month < 0 || day < 0 {
            return None;
        }
        let m: u32 = month as u32;
        let d: u32 = day as u32;
        if is_calendar_date(year, m, d) {
            Some(Date { year, month: m, day: d })
        } else {
            None
        }
    }

    /// Whether `self` falls strictly before `other`.
    pub fn is_before(&self, other: &Date) -> (r: bool)
        ensures
            r == date_lt(*self, *other),
    {
        self.year < other.year || (self.year == other.year && (self.month < other.month || (
        self.month == other.month && self.day < other.day)))
    }

    /// Whether `self` and `other` are the same day.
    pub fn is_same_day(&self, other: &Date) -> (r: bool)
        ensures
            r == (*self == *other),
    {
        self.year == other.year && self.month == other.month && self.day == other.day
    }
}

/// Calls `chrono::NaiveDate::from_ymd_opt` and reports whether it produced a
/// date. The contract restates chrono's rule: the month is 1 to 12, the day
/// exists in that month of that year (leap years by the Gregorian rule), and
/// the year lies between chrono's smallest and largest representable year.
#[verifier::external_body]
fn is_calendar_date(year: i32, month: u32, day: u32) -> (r: bool)
    ensures
        r == calendar_valid(year as int, month as int, day as int),
{
    chrono::NaiveDate::from_ymd_opt(year, month, day).is_some()
}

/// Calls `chrono::DateTime::from_timestamp` with zero nanoseconds and reads the
/// year, month and day of the resulting UTC date. The contract only gives the
/// outcome its name; nothing is claimed about which day it is.
#[verifier::external_body]
fn utc_date(secs: i64) -> (r: Option<Date>)
    ensures
        r == civil_date(secs as int),
{
    match chrono::DateTime::from_timestamp(secs, 0) {
        Some(moment) => {
            let day = moment.date_naive();
            Some(
                Date {
                    year: chrono::Datelike::year(&day),
                    month: chrono::Datelike::month(&day),
                    day: chrono::Datelike::day(&day),
                },
            )
        },
        None => None,
    }
}

/// The UTC calendar day of an unsigned Unix timestamp: none once the count of
/// seconds no longer fits a signed 64-bit number.
pub open spec fn timestamp_day(secs: u64) -> Option<Date> {
    if secs > i64::MAX {
        None
    } else {
        civil_date(secs as int)
    }
}

/// The UTC calendar day of a Unix timestamp, or `None` when the calendar
/// cannot represent it.
pub fn date_of_timestamp(secs: u64) -> (r: Option<Date>)
    ensures
        r == timestamp_day(secs),
{
    if secs > 0x7fff_ffff_ffff_ffff {
        None
    } else {
        utc_date(secs as i64)
    }
}

} // verus!
