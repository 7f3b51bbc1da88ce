//! Calendar dates, instants and times of day as plain numbers, with the
//! conversions that the calendar itself decides left to chrono.

use chrono::Datelike;
use vstd::prelude::*;

verus! {

/// The largest magnitude, in seconds from the Unix epoch, of an instant:
/// every instant that chrono can represent lies within it.
pub const MAX_TIMESTAMP_SECONDS: i64 = 8_796_093_022_208;

/// Seconds in a calendar day.
pub const SECONDS_PER_DAY: i64 = 86_400;

/// The day number of 1970-01-01, counting 0001-01-01 as day 1.
pub const UNIX_EPOCH_DAY: i64 = 719_163;

/// A calendar date, as its day number: 0001-01-01 is day 1 and each following
/// day counts one more (the numbering of chrono's `num_days_from_ce`).
#[derive(Clone, Copy, Debug, PartialEq, Eq, PartialOrd, Ord, Hash, Structural)]
pub struct Date {
    pub day: i64,
}

/// An instant, as whole seconds since 1970-01-01T00:00:00Z.
#[derive(Clone, Copy, Debug, PartialEq, Eq, PartialOrd, Ord, Hash, Structural)]
pub struct Timestamp {
    pub seconds: i64,
}

/// A time of day, as seconds since midnight.
#[derive(Clone, Copy, Debug, PartialEq, Eq, PartialOrd, Ord, Hash, Structural)]
pub struct TimeOfDay {
    pub seconds: u32,
}

#[verifier::external_type_specification]
#[verifier::external_body]
pub struct ExParseError(chrono::format::ParseError);

/// Whether `year` is a leap year of the proleptic Gregorian calendar.
pub open spec fn is_leap_year(year: int) -> bool {
    year % 4 == 0 && (year % 100 != 0 || year % 400 == 0)
}

/// The number of days of `month` in `year`.
pub open spec fn days_in_month(year: int, month: int) -> int {
    if month == 2 {
        if is_leap_year(year) {
            29
        } else {
            28
        }
    } else if month == 4 || month == 6 || month == 9 || month == 11 {
        30
    } else {
        31
    }
}

/// Whether `year`-`month`-`day` is a date that exists and lies within
/// chrono's range of years.
pub open spec fn is_calendar_date(year: int, month: int, day: int) -> bool {
    &&& -262_143 <= year <= 262_142
    &&& 1 <= month <= 12
    &&& 1 <= day <= days_in_month(year, month)
}

/// The days of `year` before the first of `month`.
pub open spec fn days_before_month(year: int, month: int) -> int {
    seq![0int, 31, 59, 90, 120, 151, 181, 212, 243, 273, 304, 334][month - 1] + if is_leap_year(
        year,
    ) && month > 2 {
        1int
    } else {
        0
    }
}

/// The day number of `year`-`month`-`day`, counting 0001-01-01 as day 1:
/// the days of the years before it, then the days of its year up to it.
pub open spec fn day_number_of(year: int, month: int, day: int) -> int {
    365 * (year - 1) + (year - 1) / 4 - (year - 1) / 100 + (year - 1) / 400 + days_before_month(
        year,
        month,
    ) + day
}

/// 1970-01-01, the day of the Unix epoch, is day `UNIX_EPOCH_DAY`.
pub proof fn lemma_unix_epoch_day()
    ensures
        is_calendar_date(1970, 1, 1),
        day_number_of(1970, 1, 1) == UNIX_EPOCH_DAY,
{
}

/// The instant, in seconds since the Unix epoch, that chrono reads from an
/// RFC 3339 text, or `None` where the text is not one.
pub uninterp spec fn rfc3339_seconds(text: Seq<char>) -> Option<i64>;

/// Relies on chrono's `NaiveDate::from_ymd_opt` for the date, which exists
/// exactly for a valid month and day of the Gregorian calendar in a year from
/// `MIN_YEAR` (-262143) to `MAX_YEAR` (262142), and on
/// `Datelike::num_days_from_ce` for its day number.
#[verifier::external_body]
fn chrono_day_number(year: i32, month: u32, day: u32) -> (r: Option<i32>)
    ensures
        r is Some <==> is_calendar_date(year as int, month as int, day as int),
        r matches Some(n) ==> n == day_number_of(year as int, month as int, day as int),
{
    match chrono::NaiveDate::from_ymd_opt(year, month, day) {
        Some(date) => Some(date.num_days_from_ce()),
        None => None,
    }
}

/// Relies on chrono's `DateTime::parse_from_rfc3339` to read an RFC 3339
/// text, and on `DateTime::timestamp` for the instant in seconds since the
/// Unix epoch; the result is a `DateTime`, within chrono's range.
#[verifier::external_body]
fn chrono_parse_rfc3339(text: &str) -> (r: Result<i64, chrono::format::ParseError>)
    ensures
        r is Ok <==> rfc3339_seconds(text@) is Some,
        r matches Ok(s) ==> rfc3339_seconds(text@) == Some(s) && -MAX_TIMESTAMP_SECONDS <= s
            <= MAX_TIMESTAMP_SECONDS,
{
    match chrono::DateTime::parse_from_rfc3339(text) {
        Ok(instant) => Ok(instant.timestamp()),
        Err(e) => Err(e),
    }
}

impl Date {
    /// The date `year`-`month`-`day`; `None` where no such date exists.
    pub fn from_ymd(year: i32, month: u32, day: u32) -> (r: Option<Date>)
        ensures
            r is Some <==> is_calendar_date(year as int, month as int, day as int),
            r matches Some(d) ==> d.day == day_number_of(year as int, month as int, day as int),
    {
        match chrono_day_number(year, month, day) {
            Some(n) => Some(Date { day: n as i64 }),
            None => None,
        }
    }

    /// The date `days` days after this one (before it, for a negative count).
    pub fn add_days(&self, days: i64) -> (r: Option<Date>)
        ensures
            r == (if i64::MIN <= self.day + days <= i64::MAX {
                Some(Date { day: (self.day + days) as i64 })
            } else {
                None
            }),
    {
        match self.day.checked_add(days) {
            Some(d) => Some(Date { day: d }),
            None => None,
        }
    }
}

impl Timestamp {
    /// Whether the instant lies within the range of instants.
    pub open spec fn wf(self) -> bool {
        -MAX_TIMESTAMP_SECONDS <= self.seconds <= MAX_TIMESTAMP_SECONDS
    }

    /// The day number of the calendar date (in UTC) on which the instant falls.
    pub open spec fn day_number(self) -> int {
        self.seconds as int / SECONDS_PER_DAY as int + UNIX_EPOCH_DAY
    }

    /// The seconds since midnight (in UTC) at the instant.
    pub open spec fn second_of_day(self) -> int {
        self.seconds as int % SECONDS_PER_DAY as int
    }

    /// The instant `seconds` seconds after the Unix epoch; `None` outside
    /// the range of instants.
    pub fn from_seconds(seconds: i64) -> (r: Option<Timestamp>)
        ensures
            r == (if -MAX_TIMESTAMP_SECONDS <= seconds <= MAX_TIMESTAMP_SECONDS {
                Some(Timestamp { seconds })
            } else {
                None
            }),
    {
        if -MAX_TIMESTAMP_SECONDS <= seconds && seconds <= MAX_TIMESTAMP_SECONDS {
            Some(Timestamp { seconds })
        } else {
            None
        }
    }

    /// Reads an RFC 3339 text, such as `2024-01-01T08:00:00Z`.
    pub fn parse_rfc3339(text: &str) -> (r: Result<Timestamp, chrono::format::ParseError>)
        ensures
            r is Ok <==> rfc3339_seconds(text@) is Some,
            r matches Ok(t) ==> Some(t.seconds) == rfc3339_seconds(text@) && t.wf(),
    {
        match chrono_parse_rfc3339(text) {
            Ok(s) => Ok(Timestamp { seconds: s }),
            Err(e) => Err(e),
        }
    }

    /// The calendar date (in UTC) on which the instant falls.
    pub fn date(&self) -> (r: Date)
        ensures
            r.day == self.day_number(),
    {
        let q = self.seconds.checked_div_euclid(SECONDS_PER_DAY);
        match q {
            Some(q) => Date { day: q + UNIX_EPOCH_DAY },
            None => {
                assert(false);
                Date { day: 0 }
            },
        }
    }

    /// The time of day (in UTC) at the instant.
    pub fn time_of_day(&self) -> (r: TimeOfDay)
        ensures
            r.seconds == self.second_of_day(),
            r.wf(),
    {
        let q = self.seconds.checked_rem_euclid(SECONDS_PER_DAY);
        match q {
            Some(q) => TimeOfDay { seconds: q as u32 },
            None => {
                assert(false);
                TimeOfDay { seconds: 0 }
            },
        }
    }
}

impl TimeOfDay {
    /// Whether the time lies within a day.
    pub open spec fn wf(self) -> bool {
        self.seconds < SECONDS_PER_DAY
    }

    /// Midnight, the time of day that a row without activity shows.
    pub fn midnight() -> (r: TimeOfDay)
        ensures
            r.seconds == 0,
            r.wf(),
    {
        TimeOfDay { seconds: 0 }
    }

    /// The time `seconds` seconds after midnight; `None` beyond the day.
    pub fn from_seconds(seconds: u32) -> (r: Option<TimeOfDay>)
        ensures
            r == (if seconds < SECONDS_PER_DAY {
                Some(TimeOfDay { seconds })
            } else {
                None
            }),
    {
        if seconds < 86_400 {
            Some(TimeOfDay { seconds })
        } else {
            None
        }
    }
}

} // verus!
