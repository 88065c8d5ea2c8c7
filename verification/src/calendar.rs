//! Calendar dates and hourly timestamps.

use chrono::NaiveDate;
use vstd::prelude::*;

verus! {

/// Smallest year a timestamp can carry.
pub const MIN_YEAR: i32 = -262143;

/// Largest year a timestamp can carry.
pub const MAX_YEAR: i32 = 262142;

/// Whether `year` is a leap year of the proleptic Gregorian calendar.
pub open spec fn is_leap_year(year: int) -> bool {
    year % 4 == 0 && (year % 100 != 0 || year % 400 == 0)
}

/// Number of days of `month` in `year`; 0 where `month` is not 1 to 12.
pub open spec fn days_in_month(year: int, month: int) -> int {
    if month == 2 {
        if is_leap_year(year) {
            29
        } else {
            28
        }
    } else if month == 4 || month == 6 || month == 9 || month == 11 {
        30
    } else if 1 <= month <= 12 {
        31
    } else {
        0
    }
}

/// Whether (year, month, day) names a day that exists in the proleptic
/// Gregorian calendar, within the years a timestamp can carry.
pub open spec fn is_calendar_date(year: int, month: int, day: int) -> bool {
    &&& MIN_YEAR <= year <= MAX_YEAR
    &&& 1 <= month <= 12
    &&& 1 <= day <= days_in_month(year, month)
}

/// A year, month and day, taken as written: the triple need not name a day
/// that exists.
#[derive(Clone, Copy, Debug, PartialEq, Eq, Structural)]
pub struct CalendarDate {
    pub year: i32,
    pub month: u32,
    pub day: u32,
}

impl CalendarDate {
    pub fn new(year: i32, month: u32, day: u32) -> (date: CalendarDate)
        ensures
            date == (CalendarDate { year, month, day }),
    {
        CalendarDate { year, month, day }
    }

    /// Whether the triple names a day that exists.
    pub open spec fn exists_in_calendar(self) -> bool {
        is_calendar_date(self.year as int, self.month as int, self.day as int)
    }

    /// Tells whether the triple names a day that exists.
    pub fn is_valid(&self) -> (valid: bool)
        ensures
            valid == self.exists_in_calendar(),
    {
        date_exists(self.year, self.month, self.day)
    }
}

/// A calendar day that exists, with an hour of that day. Minutes and seconds
/// are always zero.
#[derive(Clone, Copy, Debug)]
pub struct Timestamp {
    date: CalendarDate,
    hour: u32,
}

impl Timestamp {
    #[verifier::type_invariant]
    spec fn inv(self) -> bool {
        self.date.exists_in_calendar() && self.hour < 24
    }

    /// The day of the timestamp.
    pub closed spec fn spec_date(&self) -> CalendarDate {
        self.date
    }

    /// The hour of the timestamp.
    pub closed spec fn spec_hour(&self) -> u32 {
        self.hour
    }

    /// What every timestamp that executable code holds satisfies.
    pub open spec fn wf(&self) -> bool {
        self.spec_date().exists_in_calendar() && self.spec_hour() < 24
    }

    /// Builds the timestamp of `hour` o'clock on the given day, if that day
    /// exists and the hour is below 24.
    pub fn from_ymd_h(year: i32, month: u32, day: u32, hour: u32) -> (made: Option<Timestamp>)
        ensures
            made is Some <==> is_calendar_date(year as int, month as int, day as int) && hour < 24,
            made matches Some(t) ==> t.wf() && t.spec_date() == (CalendarDate { year, month, day })
                && t.spec_hour() == hour,
    {
        if hour < 24 && date_exists(year, month, day) {
            Some(Timestamp { date: CalendarDate { year, month, day }, hour })
        } else {
            None
        }
    }

    #[verifier::when_used_as_spec(spec_date)]
    pub fn date(&self) -> (date: CalendarDate)
        ensures
            date == self.spec_date(),
            self.wf(),
    {
        proof {
            use_type_invariant(self);
        }
        self.date
    }

    #[verifier::when_used_as_spec(spec_hour)]
    pub fn hour(&self) -> (hour: u32)
        ensures
            hour == self.spec_hour(),
            self.wf(),
    {
        proof {
            use_type_invariant(self);
        }
        self.hour
    }

    pub fn year(&self) -> (year: i32)
        ensures
            year == self.spec_date().year,
            MIN_YEAR <= year <= MAX_YEAR,
    {
        proof {
            use_type_invariant(self);
        }
        self.date.year
    }
}

/// Calls `chrono::NaiveDate::from_ymd_opt` and reports whether it produced a
/// date. Trusted: chrono accepts exactly the days of the proleptic Gregorian
/// calendar whose year lies between `MIN_YEAR` and `MAX_YEAR`.
#[verifier::external_body]
fn date_exists(year: i32, month: u32, day: u32) -> (found: bool)
    ensures
        found == is_calendar_date(year as int, month as int, day as int),
{
    NaiveDate::from_ymd_opt(year, month, day).is_some()
}

} // verus!
