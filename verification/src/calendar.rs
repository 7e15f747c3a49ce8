//! Civil calendar dates and local-time instants.
//!
//! A `Date` is a Gregorian calendar date held as plain year/month/day
//! fields; a `Timestamp` is a date together with a second-of-day. Every
//! instant is measured by `seconds_of`, which counts seconds on a single
//! linear day axis (`day_number_of`), so that sessions crossing midnight
//! can be subtracted directly.

use vstd::prelude::*;

verus! {

/// A Gregorian calendar date in local civil time.
#[derive(Clone, Copy, PartialEq, Eq, Structural, Debug)]
pub struct Date {
    pub year: u16,
    pub month: u8,
    pub day: u8,
}

/// An instant: a calendar date plus the second of that day.
#[derive(Clone, Copy, PartialEq, Eq, Structural, Debug)]
pub struct Timestamp {
    pub date: Date,
    pub sec_of_day: u32,
}

pub const SECONDS_PER_DAY: u32 = 86400;

pub open spec fn is_leap_year(y: int) -> bool {
    y % 4 == 0 && (y % 100 != 0 || y % 400 == 0)
}

pub open spec fn days_in_month(y: int, m: int) -> int {
    if m == 2 {
        if is_leap_year(y) {
            29
        } else {
            28
        }
    } else if m == 4 || m == 6 || m == 9 || m == 11 {
        30
    } else {
        31
    }
}

impl Date {
    /// A well-formed date: four-digit year, real month, real day of month.
    pub open spec fn valid(self) -> bool {
        &&& 1 <= self.year <= 9999
        &&& 1 <= self.month <= 12
        &&& 1 <= self.day
        &&& self.day as int <= days_in_month(self.year as int, self.month as int)
    }
}

impl Timestamp {
    pub open spec fn valid(self) -> bool {
        self.date.valid() && self.sec_of_day < SECONDS_PER_DAY
    }
}

/// Position of a date on a linear day axis (consecutive dates map to
/// consecutive numbers), via the standard era/year-of-era decomposition of
/// the Gregorian calendar with years starting in March.
pub open spec fn day_number_of(d: Date) -> int {
    let y: int = if d.month <= 2 {
        d.year - 1
    } else {
        d.year as int
    };
    let era: int = y / 400;
    let yoe: int = y - era * 400;
    let mp: int = if d.month > 2 {
        d.month - 3
    } else {
        d.month + 9
    };
    let doy: int = (153 * mp + 2) / 5 + d.day - 1;
    let doe: int = yoe * 365 + yoe / 4 - yoe / 100 + doy;
    era * 146097 + doe
}

/// Seconds of an instant on the linear day axis.
pub open spec fn seconds_of(t: Timestamp) -> int {
    day_number_of(t.date) * 86400 + t.sec_of_day
}

/// Strict lexicographic order on dates; for valid dates this is
/// chronological order.
pub open spec fn date_lt(a: Date, b: Date) -> bool {
    ||| a.year < b.year
    ||| (a.year == b.year && a.month < b.month)
    ||| (a.year == b.year && a.month == b.month && a.day < b.day)
}

pub open spec fn date_le(a: Date, b: Date) -> bool {
    date_lt(a, b) || a == b
}

pub fn day_number(d: &Date) -> (n: u64)
    requires
        d.valid(),
    ensures
        n as int == day_number_of(*d),
{
    let y: u64 = if d.month <= 2 {
        (d.year - 1) as u64
    } else {
        d.year as u64
    };
    let era: u64 = y / 400;
    let yoe: u64 = y - era * 400;
    let mp: u64 = if d.month > 2 {
        (d.month - 3) as u64
    } else {
        (d.month + 9) as u64
    };
    let doy: u64 = (153 * mp + 2) / 5 + (d.day - 1) as u64;
    let doe: u64 = yoe * 365 + yoe / 4 - yoe / 100 + doy;
    era * 146097 + doe
}

pub fn timestamp_seconds(t: &Timestamp) -> (s: u64)
    requires
        t.valid(),
    ensures
        s as int == seconds_of(*t),
{
    proof {
        lemma_day_number_bounds(t.date);
    }
    day_number(&t.date) * 86400 + t.sec_of_day as u64
}

/// Every valid date sits between the first and last representable days.
pub proof fn lemma_day_number_bounds(d: Date)
    requires
        d.valid(),
    ensures
        0 <= day_number_of(d) < 3660000,
{
}

pub fn days_in_month_count(y: u16, m: u8) -> (r: u8)
    requires
        1 <= m <= 12,
    ensures
        r as int == days_in_month(y as int, m as int),
{
    if m == 2 {
        if y % 4 == 0 && (y % 100 != 0 || y % 400 == 0) {
            29
        } else {
            28
        }
    } else if m == 4 || m == 6 || m == 9 || m == 11 {
        30
    } else {
        31
    }
}

pub fn date_valid(d: &Date) -> (r: bool)
    ensures
        r == d.valid(),
{
    1 <= d.year && d.year <= 9999 && 1 <= d.month && d.month <= 12 && 1 <= d.day && d.day
        <= days_in_month_count(d.year, d.month)
}

pub fn date_eq(a: &Date, b: &Date) -> (r: bool)
    ensures
        r == (*a == *b),
{
    a.year == b.year && a.month == b.month && a.day == b.day
}

pub fn date_before(a: &Date, b: &Date) -> (r: bool)
    ensures
        r == date_lt(*a, *b),
{
    if a.year != b.year {
        a.year < b.year
    } else if a.month != b.month {
        a.month < b.month
    } else {
        a.day < b.day
    }
}

} // verus!
