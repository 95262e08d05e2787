//! Dates of the Gregorian calendar, counted in seconds.

use vstd::prelude::*;

verus! {

/// Whether a year has a 29th of February.
pub open spec fn leap_year(year: int) -> bool {
    year % 4 == 0 && (year % 100 != 0 || year % 400 == 0)
}

/// How many days a month of a year has, the first month being 1.
pub open spec fn month_len(year: int, month: int) -> int {
    if month == 2 {
        if leap_year(year) {
            29
        } else {
            28
        }
    } else if month == 4 || month == 6 || month == 9 || month == 11 {
        30
    } else {
        31
    }
}

/// A date and a time of day, without a zone.
pub struct CivilTime {
    /// The year.
    pub year: int,
    /// The month, from 1 to 12.
    pub month: int,
    /// The day of the month, from 1 on.
    pub day: int,
    /// The hour.
    pub hour: int,
    /// The minute.
    pub minute: int,
    /// The second.
    pub second: int,
}

/// How many days of a year come before a month.
pub open spec fn days_before_month(year: int, month: int) -> int
    decreases month,
{
    if month <= 1 {
        0
    } else {
        days_before_month(year, month - 1) + month_len(year, month - 1)
    }
}

/// How many days lie between the start of the year 0 and that of another year: one more
/// for each leap year.
pub open spec fn days_before_year(year: int) -> int {
    365 * year + (year + 3) / 4 - (year + 99) / 100 + (year + 399) / 400
}

impl CivilTime {
    /// Whether this is a date of the calendar and a time of a day.
    pub open spec fn valid(self) -> bool {
        &&& 1 <= self.month <= 12
        &&& 1 <= self.day <= month_len(self.year, self.month)
        &&& 0 <= self.hour < 24
        &&& 0 <= self.minute < 60
        &&& 0 <= self.second < 60
    }

    /// The seconds since the start of 1970, if this is in UTC.
    pub open spec fn seconds(self) -> int {
        let days = days_before_year(self.year) - days_before_year(1970) + days_before_month(
            self.year,
            self.month,
        ) + self.day - 1;
        ((days * 24 + self.hour) * 60 + self.minute) * 60 + self.second
    }

    /// Whether this date exists and may be that many seconds after the start of 1970 in UTC,
    /// in some zone: the clocks of a zone are less than a day ahead or behind.
    pub open spec fn near(self, secs: int) -> bool {
        self.valid() && -86400 < secs - self.seconds() < 86400
    }
}

/// A year has as many days as lie between its start and that of the next one, and as its
/// months have.
pub proof fn law_year_len(year: int)
    ensures
        days_before_year(year + 1) - days_before_year(year) == if leap_year(year) {
            366int
        } else {
            365
        },
        days_before_month(year, 13) == days_before_year(year + 1) - days_before_year(year),
{
    assert(days_before_month(year, 13) == if leap_year(year) {
        366int
    } else {
        365
    }) by {
        reveal_with_fuel(days_before_month, 13);
    }
}

} // verus!
