//! A plain-value calendar date and the arithmetic the aggregation needs:
//! validity, ordering, and day numbers for whole-day differences.

use vstd::prelude::*;

verus! {

/// A date in the proleptic Gregorian calendar, held as plain year / month /
/// day fields. Years are kept to four digits, which covers every value the
/// rest of the crate produces (including the sentinel range bounds) and keeps
/// all derived arithmetic far from overflow.
#[derive(Clone, Copy, PartialEq, Eq, Structural, Debug, Hash)]
pub struct Date {
    pub year: i32,
    pub month: u8,
    pub day: u8,
}

pub open spec fn spec_is_leap_year(y: int) -> bool {
    (y % 4 == 0 && y % 100 != 0) || y % 400 == 0
}

pub open spec fn spec_days_in_month(y: int, m: int) -> int {
    if m == 2 {
        if spec_is_leap_year(y) {
            29
        } else {
            28
        }
    } else if m == 4 || m == 6 || m == 9 || m == 11 {
        30
    } else {
        31
    }
}

/// Number of days in the months of year `y` strictly before month `m`.
pub open spec fn spec_days_before_month(y: int, m: int) -> int
    decreases m,
{
    if m <= 1 {
        0
    } else {
        spec_days_before_month(y, m - 1) + spec_days_in_month(y, m - 1)
    }
}

/// Number of leap years in the range `[0, y)` (year 0 itself is a leap year).
pub open spec fn spec_leap_years_before(y: int) -> int {
    if y <= 0 {
        0
    } else {
        (y - 1) / 4 - (y - 1) / 100 + (y - 1) / 400 + 1
    }
}

/// Days from the calendar's day zero (0000-01-01) to the first day of year `y`.
pub open spec fn spec_days_before_year(y: int) -> int {
    365 * y + spec_leap_years_before(y)
}

/// The date's distance in days from day zero; differences of day numbers are
/// whole-day differences between dates.
pub open spec fn spec_day_number(d: Date) -> int {
    spec_days_before_year(d.year as int) + spec_days_before_month(d.year as int, d.month as int)
        + d.day - 1
}

/// Chronological order on valid dates: lexicographic on (year, month, day).
pub open spec fn date_le(a: Date, b: Date) -> bool {
    a.year < b.year || (a.year == b.year && (a.month < b.month || (a.month == b.month
        && a.day <= b.day)))
}

pub open spec fn date_lt(a: Date, b: Date) -> bool {
    date_le(a, b) && a != b
}

impl Date {
    pub open spec fn valid(self) -> bool {
        &&& 0 <= self.year <= 9999
        &&& 1 <= self.month <= 12
        &&& 1 <= self.day <= spec_days_in_month(self.year as int, self.month as int)
    }

    /// Builds a date when the year / month / day combination names a real
    /// calendar day in the supported year range, and refuses it otherwise.
    pub fn new(year: i32, month: u8, day: u8) -> (r: Option<Date>)
        ensures
            r is Some <==> (Date { year, month, day }).valid(),
            r is Some ==> r->Some_0 == (Date { year, month, day }),
    {
        if 0 <= year && year <= 9999 && 1 <= month && month <= 12 && 1 <= day && day
            <= days_in_month(year, month) {
            Some(Date { year, month, day })
        } else {
            None
        }
    }

    pub fn le(self, other: Date) -> (r: bool)
        ensures
            r == date_le(self, other),
    {
        self.year < other.year || (self.year == other.year && (self.month < other.month
            || (self.month == other.month && self.day <= other.day)))
    }

    pub fn lt(self, other: Date) -> (r: bool)
        ensures
            r == date_lt(self, other),
    {
        self.year < other.year || (self.year == other.year && (self.month < other.month
            || (self.month == other.month && self.day < other.day)))
    }

    /// The date's day number as a machine integer.
    pub fn day_number(self) -> (n: i64)
        requires
            self.valid(),
        ensures
            n == spec_day_number(self),
            0 <= n <= 4000000,
    {
        let y = self.year as i64;
        let leaps: i64 = if y == 0 {
            0
        } else {
            (y - 1) / 4 - (y - 1) / 100 + (y - 1) / 400 + 1
        };
        let before_year: i64 = 365 * y + leaps;
        let mut before_month: i64 = 0;
        let mut m: u8 = 1;
        while m < self.month
            invariant
                1 <= m <= self.month,
                self.valid(),
                before_month == spec_days_before_month(self.year as int, m as int),
                0 <= before_month <= 31 * (m - 1),
            decreases self.month - m,
        {
            before_month = before_month + days_in_month(self.year, m) as i64;
            m = m + 1;
        }
        before_year + before_month + self.day as i64 - 1
    }
}

pub fn is_leap_year(y: i32) -> (r: bool)
    requires
        y >= 0,
    ensures
        r == spec_is_leap_year(y as int),
{
    (y % 4 == 0 && y % 100 != 0) || y % 400 == 0
}

pub fn days_in_month(y: i32, m: u8) -> (r: u8)
    requires
        y >= 0,
        1 <= m <= 12,
    ensures
        r == spec_days_in_month(y as int, m as int),
{
    if m == 2 {
        if is_leap_year(y) {
            29
        } else {
            28
        }
    } else if m == 4 || m == 6 || m == 9 || m == 11 {
        30
    } else {
        31
    }
}

} // verus!
