//! Civil-calendar arithmetic for the proleptic Gregorian calendar.
//!
//! An [`Instant`] is a day number together with a second-of-day.  Day 0 is
//! Monday, 1969-12-29, so that the weekday of a day number is simply the day
//! number modulo 7 (0 = Monday), and the Unix epoch 1970-01-01 is day 3.
//! Dates from 1970-01-01 through 9999-12-31 can be converted between day
//! numbers and (year, month, day) triples.

use vstd::prelude::*;

verus! {

/// First year of the supported civil range.
pub const FIRST_YEAR: u32 = 1970;

/// Last year of the supported civil range.
pub const LAST_YEAR: u32 = 9999;

/// Seconds in one day.
pub const SECONDS_PER_DAY: u32 = 86400;

/// Day number of 1970-01-01 (day 0 is Monday, 1969-12-29).
pub const EPOCH_OFFSET: u64 = 3;

/// A year is a leap year when divisible by 4 but not by 100, or by 400.
pub open spec fn is_leap_year(y: int) -> bool {
    (y % 4 == 0 && y % 100 != 0) || y % 400 == 0
}

/// Number of days in month `m` (1..=12) of year `y`.
pub open spec fn days_in_month(y: int, m: int) -> int {
    if m == 2 {
        if is_leap_year(y) {
            29
        } else {
            28
        }
    } else if m == 4 || m == 6 || m == 9 || m == 11 {
        30
    } else {
        31
    }
}

/// Number of days in year `y`.
pub open spec fn days_in_year(y: int) -> int {
    if is_leap_year(y) {
        366
    } else {
        365
    }
}

/// Days in year `y` that precede the first day of month `m`.
pub open spec fn days_before_month(y: int, m: int) -> int
    decreases m,
{
    if m <= 1 {
        0
    } else {
        days_before_month(y, m - 1) + days_in_month(y, m - 1)
    }
}

/// Days from 1970-01-01 (inclusive) to the first day of year `y` (exclusive).
pub open spec fn days_before_year(y: int) -> int
    decreases y,
{
    if y <= FIRST_YEAR {
        0
    } else {
        days_before_year(y - 1) + days_in_year(y - 1)
    }
}

/// Day number of the civil date (y, m, d).
pub open spec fn day_number_of(y: int, m: int, d: int) -> int {
    EPOCH_OFFSET + days_before_year(y) + days_before_month(y, m) + (d - 1)
}

/// The civil dates this module supports.
pub open spec fn valid_date(y: int, m: int, d: int) -> bool {
    &&& FIRST_YEAR <= y <= LAST_YEAR
    &&& 1 <= m <= 12
    &&& 1 <= d <= days_in_month(y, m)
}

/// Largest day number with a civil date in the supported range
/// (the day number of 9999-12-31).
pub open spec fn max_day_number() -> int {
    EPOCH_OFFSET + days_before_year(LAST_YEAR + 1) - 1
}

/// Weekday of a day number: 0 = Monday .. 6 = Sunday.
pub open spec fn weekday_of(days: int) -> int {
    days % 7
}

/// Splits a day count into (year, zero-based day of year), counting up
/// from year `y`.
pub open spec fn year_split_rec(y: int, rem: int) -> (int, int)
    decreases rem,
{
    if rem < days_in_year(y) {
        (y, rem)
    } else {
        year_split_rec(y + 1, rem - days_in_year(y))
    }
}

/// Splits a zero-based day of year `y` into (month, zero-based day of month),
/// counting up from month `m`.
pub open spec fn month_split_rec(y: int, m: int, rem: int) -> (int, int)
    decreases 12 - m,
{
    if m >= 12 || rem < days_in_month(y, m) {
        (m, rem)
    } else {
        month_split_rec(y, m + 1, rem - days_in_month(y, m))
    }
}

/// Civil date (year, month, day) of a day number.
pub open spec fn civil_of_days(days: int) -> (int, int, int) {
    let ys = year_split_rec(FIRST_YEAR as int, days - EPOCH_OFFSET);
    let ms = month_split_rec(ys.0, 1, ys.1);
    (ys.0, ms.0, ms.1 + 1)
}

/// The days before the start of a later year grow by at least 365 per year.
pub proof fn lemma_days_before_year_mono(y1: int, y2: int)
    requires
        FIRST_YEAR <= y1 <= y2,
    ensures
        days_before_year(y1) + 365 * (y2 - y1) <= days_before_year(y2),
    decreases y2 - y1,
{
    if y1 < y2 {
        lemma_days_before_year_mono(y1, y2 - 1);
    }
}

/// Days before a year are never negative.
pub proof fn lemma_days_before_year_nonneg(y: int)
    ensures
        days_before_year(y) >= 0,
    decreases y,
{
    if y > FIRST_YEAR {
        lemma_days_before_year_nonneg(y - 1);
    }
}

/// Days before a year are at most 366 per elapsed year.
pub proof fn lemma_days_before_year_upper(y: int)
    requires
        FIRST_YEAR <= y,
    ensures
        days_before_year(y) <= 366 * (y - FIRST_YEAR),
    decreases y,
{
    if y > FIRST_YEAR {
        lemma_days_before_year_upper(y - 1);
    }
}

/// Days before a month grow monotonically with the month.
pub proof fn lemma_days_before_month_mono(y: int, m1: int, m2: int)
    requires
        m1 <= m2,
    ensures
        days_before_month(y, m1) <= days_before_month(y, m2),
    decreases m2 - m1,
{
    if m1 < m2 {
        lemma_days_before_month_mono(y, m1, m2 - 1);
    }
}

/// The twelve months of a year sum to the year's length.
pub proof fn lemma_months_sum(y: int)
    ensures
        days_before_month(y, 13) == days_in_year(y),
{
    reveal_with_fuel(days_before_month, 13);
}

/// Every valid date has a day number between `EPOCH_OFFSET` and
/// `max_day_number()`.
pub proof fn lemma_day_number_in_range(y: int, m: int, d: int)
    requires
        valid_date(y, m, d),
    ensures
        EPOCH_OFFSET <= day_number_of(y, m, d) <= max_day_number(),
{
    lemma_days_before_year_nonneg(y);
    lemma_days_before_month_mono(y, 1, m);
    lemma_days_before_month_mono(y, m + 1, 13);
    lemma_months_sum(y);
    lemma_days_before_year_mono(y + 1, LAST_YEAR + 1);
}

/// An instant in time: a day number (day 0 = Monday, 1969-12-29) and a
/// second within that day.
#[derive(Clone, Copy, PartialEq, Eq, Structural, Hash, Debug)]
pub struct Instant {
    pub days: u64,
    pub secs: u32,
}

impl Instant {
    /// Structural validity: the second fits in a day and the day number has
    /// a civil date at or below the supported range.
    pub open spec fn wf(self) -> bool {
        &&& self.secs < SECONDS_PER_DAY
        &&& self.days <= max_day_number()
    }

    /// The instant also falls at or after 1970-01-01, so it has a civil date.
    pub open spec fn in_civil_range(self) -> bool {
        &&& self.wf()
        &&& EPOCH_OFFSET <= self.days
    }

    /// Total seconds since day 0 at 00:00:00; instants are ordered by this.
    pub open spec fn timestamp(self) -> int {
        self.days * (SECONDS_PER_DAY as int) + self.secs
    }

    /// `self` is at or before `other`.
    pub fn le(&self, other: &Instant) -> (b: bool)
        requires
            self.secs < SECONDS_PER_DAY,
            other.secs < SECONDS_PER_DAY,
        ensures
            b == (self.timestamp() <= other.timestamp()),
    {
        self.days < other.days || (self.days == other.days && self.secs <= other.secs)
    }
}

/// True when `y` is a leap year.
pub fn leap_year(y: u32) -> (b: bool)
    ensures
        b == is_leap_year(y as int),
{
    (y % 4 == 0 && y % 100 != 0) || y % 400 == 0
}

/// Number of days in month `m` of year `y`.
pub fn month_length(y: u32, m: u32) -> (n: u32)
    requires
        1 <= m <= 12,
    ensures
        n == days_in_month(y as int, m as int),
{
    if m == 2 {
        if leap_year(y) {
            29
        } else {
            28
        }
    } else if m == 4 || m == 6 || m == 9 || m == 11 {
        30
    } else {
        31
    }
}

/// Number of days in year `y`.
pub fn year_length(y: u32) -> (n: u32)
    ensures
        n == days_in_year(y as int),
{
    if leap_year(y) {
        366
    } else {
        365
    }
}

/// Days in year `y` that precede the first day of month `m`.
pub fn months_before(y: u32, m: u32) -> (n: u32)
    requires
        1 <= m <= 13,
    ensures
        n == days_before_month(y as int, m as int),
{
    let mut n: u32 = 0;
    let mut mm: u32 = 1;
    while mm < m
        invariant
            1 <= mm <= m <= 13,
            n == days_before_month(y as int, mm as int),
            n as int <= 31 * (mm as int - 1),
        decreases m - mm,
    {
        n = n + month_length(y, mm);
        mm = mm + 1;
    }
    n
}

/// Day number of a valid civil date.
pub fn days_from_date(y: u32, m: u32, d: u32) -> (days: u64)
    requires
        valid_date(y as int, m as int, d as int),
    ensures
        days as int == day_number_of(y as int, m as int, d as int),
        EPOCH_OFFSET <= days <= max_day_number(),
{
    let mut acc: u64 = 0;
    let mut yy: u32 = FIRST_YEAR;
    while yy < y
        invariant
            FIRST_YEAR <= yy <= y <= LAST_YEAR,
            acc as int == days_before_year(yy as int),
            acc <= 366 * (yy - FIRST_YEAR) as u64,
        decreases y - yy,
    {
        proof {
            lemma_days_before_year_upper(yy as int + 1);
        }
        acc = acc + year_length(yy) as u64;
        yy = yy + 1;
    }
    let days: u64 = EPOCH_OFFSET + acc + months_before(y, m) as u64 + (d - 1) as u64;
    proof {
        lemma_day_number_in_range(y as int, m as int, d as int);
    }
    days
}

/// Civil date (year, month, day) of a day number in the supported range.
pub fn date_from_days(days: u64) -> (r: (u32, u32, u32))
    requires
        EPOCH_OFFSET <= days <= max_day_number(),
    ensures
        valid_date(r.0 as int, r.1 as int, r.2 as int),
        day_number_of(r.0 as int, r.1 as int, r.2 as int) == days as int,
        (r.0 as int, r.1 as int, r.2 as int) == civil_of_days(days as int),
{
    let mut rem: u64 = days - EPOCH_OFFSET;
    let mut y: u32 = FIRST_YEAR;
    while rem >= year_length(y) as u64
        invariant
            FIRST_YEAR <= y <= LAST_YEAR,
            days_before_year(y as int) + rem as int == days as int - EPOCH_OFFSET,
            days <= max_day_number(),
            year_split_rec(FIRST_YEAR as int, days as int - EPOCH_OFFSET) == year_split_rec(
                y as int,
                rem as int,
            ),
        decreases rem,
    {
        proof {
            if y as int + 1 > LAST_YEAR as int {
                lemma_days_before_year_mono(LAST_YEAR as int + 1, y as int + 1);
            }
        }
        rem = rem - year_length(y) as u64;
        y = y + 1;
    }
    let mut m: u32 = 1;
    while rem >= month_length(y, m) as u64
        invariant
            1 <= m <= 12,
            FIRST_YEAR <= y <= LAST_YEAR,
            days_before_year(y as int) + days_before_month(y as int, m as int) + rem as int
                == days as int - EPOCH_OFFSET,
            days_before_month(y as int, m as int) + (rem as int) < days_in_year(y as int),
            year_split_rec(FIRST_YEAR as int, days as int - EPOCH_OFFSET) == (
                y as int,
                days_before_month(y as int, m as int) + rem as int,
            ),
            month_split_rec(y as int, 1, days_before_month(y as int, m as int) + rem as int)
                == month_split_rec(y as int, m as int, rem as int),
        decreases 12 - m,
    {
        proof {
            if m == 12 {
                lemma_months_sum(y as int);
            }
        }
        rem = rem - month_length(y, m) as u64;
        m = m + 1;
    }
    let d: u32 = rem as u32 + 1;
    (y, m, d)
}

impl Instant {
    /// Builds an instant from a civil date and a time of day; `None` when any
    /// component is out of range.
    pub fn from_civil(year: u32, month: u32, day: u32, hour: u32, minute: u32, second: u32) -> (r:
        Option<Instant>)
        ensures
            r is Some <==> (valid_date(year as int, month as int, day as int) && hour < 24
                && minute < 60 && second < 60),
            r is Some ==> {
                &&& r.unwrap().wf()
                &&& r.unwrap().in_civil_range()
                &&& r.unwrap().days as int == day_number_of(year as int, month as int, day as int)
                &&& r.unwrap().secs == hour * 3600 + minute * 60 + second
            },
    {
        if year < FIRST_YEAR || year > LAST_YEAR || month < 1 || month > 12 {
            return None;
        }
        if day < 1 || day > month_length(year, month) {
            return None;
        }
        if hour >= 24 || minute >= 60 || second >= 60 {
            return None;
        }
        let days = days_from_date(year, month, day);
        Some(Instant { days, secs: hour * 3600 + minute * 60 + second })
    }

    /// Builds an instant from seconds since 1970-01-01 00:00:00; `None` when
    /// the day falls after 9999-12-31.
    pub fn from_unix_seconds(s: u64) -> (r: Option<Instant>)
        ensures
            r is Some <==> EPOCH_OFFSET + s / (SECONDS_PER_DAY as u64) <= max_day_number(),
            r is Some ==> {
                &&& r.unwrap().wf()
                &&& r.unwrap().in_civil_range()
                &&& r.unwrap().days as int == EPOCH_OFFSET + s / (SECONDS_PER_DAY as u64)
                &&& r.unwrap().secs as int == s as int % (SECONDS_PER_DAY as int)
            },
    {
        let day: u64 = s / SECONDS_PER_DAY as u64;
        let last = days_from_date(LAST_YEAR, 12, 31);
        proof {
            lemma_months_sum(LAST_YEAR as int);
            lemma_days_before_month_mono(LAST_YEAR as int, 12, 13);
        }
        if day > last - EPOCH_OFFSET {
            return None;
        }
        Some(Instant { days: EPOCH_OFFSET + day, secs: (s % SECONDS_PER_DAY as u64) as u32 })
    }

    /// Civil date (year, month, day) of this instant.
    pub fn civil(&self) -> (r: (u32, u32, u32))
        requires
            self.in_civil_range(),
        ensures
            valid_date(r.0 as int, r.1 as int, r.2 as int),
            day_number_of(r.0 as int, r.1 as int, r.2 as int) == self.days as int,
            (r.0 as int, r.1 as int, r.2 as int) == civil_of_days(self.days as int),
    {
        date_from_days(self.days)
    }
}

} // verus!
