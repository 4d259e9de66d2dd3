//! Calendar dates, times of day and durations in whole seconds, and the
//! parsing of vendor timestamps.

use chrono::{Datelike, Timelike};
use vstd::prelude::*;

verus! {

/// A day of the proleptic Gregorian calendar.
#[derive(Debug, Clone, Copy, PartialEq, Eq, Structural)]
pub struct Date {
    pub year: i32,
    pub month: u32,
    pub day: u32,
}

/// A time of day, to the second.
#[derive(Debug, Clone, Copy, PartialEq, Eq, Structural)]
pub struct Time {
    pub hour: u32,
    pub minute: u32,
    pub second: u32,
}

/// A date and a time of day, without a time zone.
#[derive(Debug, Clone, Copy, PartialEq, Eq, Structural)]
pub struct DateTime {
    pub date: Date,
    pub time: Time,
}

/// A span of time in whole seconds. It is negative where an end lies before
/// its start.
#[derive(Debug, Clone, Copy, PartialEq, Eq, Structural)]
pub struct Duration {
    pub seconds: i64,
}

/// The first year that a `Date` made by `Date::from_ymd_opt` can have.
pub const MIN_YEAR: i32 = -262143;

/// The last year that a `Date` made by `Date::from_ymd_opt` can have.
pub const MAX_YEAR: i32 = 262142;

/// Whether `year` has a 29th of February.
pub open spec fn is_leap_year(year: int) -> bool {
    year % 4 == 0 && (year % 100 != 0 || year % 400 == 0)
}

/// The number of days of a month; 0 where `month` is none of the twelve.
pub open spec fn days_in_month(year: int, month: int) -> int {
    if month == 2 {
        if is_leap_year(year) {
            29
        } else {
            28
        }
    } else if month == 4 || month == 6 || month == 9 || month == 11 {
        30
    } else if 1 <= month <= 12 {
        31
    } else {
        0
    }
}

/// Whether the calendar has the day `day` of month `month` of `year`, and
/// the year lies between `MIN_YEAR` and `MAX_YEAR`.
pub open spec fn is_calendar_date(year: int, month: int, day: int) -> bool {
    &&& MIN_YEAR <= year <= MAX_YEAR
    &&& 1 <= month <= 12
    &&& 1 <= day <= days_in_month(year, month)
}

/// The seconds from midnight to `time`.
pub open spec fn seconds_of_day(time: Time) -> int {
    time.hour * 3600 + time.minute * 60 + time.second
}

/// What `chrono::NaiveDateTime::parse_from_str` makes of `text` under the
/// format `format`: the fields of the date and time that it returns, and
/// `None` where it returns an error.
pub uninterp spec fn parsed_datetime(text: Seq<char>, format: Seq<char>) -> Option<DateTime>;

/// What `chrono::NaiveTime::parse_from_str` makes of `text` under the format
/// `format`: the hour, minute and second of the time that it returns, and
/// `None` where it returns an error.
pub uninterp spec fn parsed_time(text: Seq<char>, format: Seq<char>) -> Option<Time>;

/// Parses a date and time with `chrono::NaiveDateTime::parse_from_str` and
/// reads the fields of the result with chrono's accessors `year`, `month`,
/// `day`, `hour`, `minute` and `second`. The contract gives the outcome the
/// name `parsed_datetime` and claims nothing else of it.
#[verifier::external_body]
pub(crate) fn parse_datetime(text: &str, format: &str) -> (res: Option<DateTime>)
    ensures
        res == parsed_datetime(text@, format@),
{
    let parsed = chrono::NaiveDateTime::parse_from_str(text, format).ok()?;
    Some(
        DateTime {
            date: Date { year: parsed.year(), month: parsed.month(), day: parsed.day() },
            time: Time { hour: parsed.hour(), minute: parsed.minute(), second: parsed.second() },
        },
    )
}

/// Parses a time of day with `chrono::NaiveTime::parse_from_str` and reads
/// the result with chrono's accessors `hour`, `minute` and `second`. The
/// contract gives the outcome the name `parsed_time` and claims nothing
/// else of it.
#[verifier::external_body]
pub(crate) fn parse_time(text: &str, format: &str) -> (res: Option<Time>)
    ensures
        res == parsed_time(text@, format@),
{
    let parsed = chrono::NaiveTime::parse_from_str(text, format).ok()?;
    Some(Time { hour: parsed.hour(), minute: parsed.minute(), second: parsed.second() })
}

/// Whether `year` has a 29th of February.
pub fn leap_year(year: i32) -> (res: bool)
    ensures
        res == is_leap_year(year as int),
{
    let by_4: i32 = year % 4;
    let by_100: i32 = year % 100;
    let by_400: i32 = year % 400;
    by_4 == 0 && (by_100 != 0 || by_400 == 0)
}

impl Date {
    /// The date of a year, a month and a day, where the calendar has it.
    pub fn from_ymd_opt(year: i32, month: u32, day: u32) -> (res: Option<Date>)
        ensures
            res == if is_calendar_date(year as int, month as int, day as int) {
                Some(Date { year, month, day })
            } else {
                None::<Date>
            },
    {
        if year < MIN_YEAR || year > MAX_YEAR || month < 1 || month > 12 || day < 1 {
            return None;
        }
        let last: u32 = if month == 2 {
            if leap_year(year) {
                29
            } else {
                28
            }
        } else if month == 4 || month == 6 || month == 9 || month == 11 {
            30
        } else {
            31
        };
        if day <= last {
            Some(Date { year, month, day })
        } else {
            None
        }
    }

    /// The first of January 1970, the date of a history that gives none.
    pub fn epoch() -> (res: Date)
        ensures
            res == (Date { year: 1970, month: 1, day: 1 }),
    {
        Date { year: 1970, month: 1, day: 1 }
    }

    /// Midnight at the start of this date.
    pub fn midnight(self) -> (res: DateTime)
        ensures
            res == (DateTime { date: self, time: Time { hour: 0, minute: 0, second: 0 } }),
    {
        DateTime { date: self, time: Time { hour: 0, minute: 0, second: 0 } }
    }

    /// This date at the given time of day.
    pub fn and_time(self, time: Time) -> (res: DateTime)
        ensures
            res == (DateTime { date: self, time }),
    {
        DateTime { date: self, time }
    }
}

impl Time {
    /// The seconds from midnight to this time.
    pub fn seconds_of_day(self) -> (res: i64)
        ensures
            res == seconds_of_day(self),
    {
        (self.hour as i64) * 3600 + (self.minute as i64) * 60 + (self.second as i64)
    }

    /// The span from `earlier` to this time on one day; negative where
    /// this time is the earlier one.
    pub fn since(self, earlier: Time) -> (res: Duration)
        ensures
            res.seconds == seconds_of_day(self) - seconds_of_day(earlier),
    {
        Duration { seconds: self.seconds_of_day() - earlier.seconds_of_day() }
    }

    /// The span from midnight to this time.
    pub fn to_duration(self) -> (res: Duration)
        ensures
            res.seconds == seconds_of_day(self),
    {
        Duration { seconds: self.seconds_of_day() }
    }
}

impl Duration {
    /// A span of `seconds` seconds.
    pub fn from_seconds(seconds: i64) -> (res: Duration)
        ensures
            res.seconds == seconds,
    {
        Duration { seconds }
    }

    /// A span of `minutes` minutes, where it can be counted in seconds.
    pub fn try_minutes(minutes: i64) -> (res: Option<Duration>)
        ensures
            res == if i64::MIN <= minutes * 60 <= i64::MAX {
                Some(Duration { seconds: (minutes * 60) as i64 })
            } else {
                None::<Duration>
            },
    {
        match minutes.checked_mul(60) {
            Some(seconds) => Some(Duration { seconds }),
            None => None,
        }
    }

    /// A span of `hours` hours, where it can be counted in seconds.
    pub fn try_hours(hours: i64) -> (res: Option<Duration>)
        ensures
            res == if i64::MIN <= hours * 3600 <= i64::MAX {
                Some(Duration { seconds: (hours * 3600) as i64 })
            } else {
                None::<Duration>
            },
    {
        match hours.checked_mul(3600) {
            Some(seconds) => Some(Duration { seconds }),
            None => None,
        }
    }

    /// The sum of two spans, where it can be counted in 64 bits.
    pub fn checked_add(self, other: Duration) -> (res: Option<Duration>)
        ensures
            res == if i64::MIN <= self.seconds + other.seconds <= i64::MAX {
                Some(Duration { seconds: (self.seconds + other.seconds) as i64 })
            } else {
                None::<Duration>
            },
    {
        match self.seconds.checked_add(other.seconds) {
            Some(seconds) => Some(Duration { seconds }),
            None => None,
        }
    }

    /// Whether the span is empty.
    pub fn is_zero(self) -> (res: bool)
        ensures
            res == (self.seconds == 0),
    {
        self.seconds == 0
    }
}

} // verus!
