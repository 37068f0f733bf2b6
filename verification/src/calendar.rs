//! The Gregorian calendar from 1970 to 9999, as a mathematical model.
//!
//! Days are numbered from 1970-01-01, which is day 0 and a Thursday. Every
//! day has 86400 seconds. The spec functions here are what the contracts of
//! the whole crate speak of; the lemmas relate them to the closed forms and
//! tables that executable code computes with.
use vstd::prelude::*;

verus! {

/// Seconds in a day.
pub const SECS_PER_DAY: u64 = 86_400;

/// The first day number past the calendar: 10000-01-01.
pub const DAYS_END: u64 = 2_932_897;

/// The first instant past the calendar: 10000-01-01T00:00:00Z.
pub const SECS_END: u64 = 253_402_300_800;

/// A year is leap iff it is divisible by 4 and not by 100, or by 400.
pub open spec fn is_leap(year: int) -> bool {
    year % 4 == 0 && (year % 100 != 0 || year % 400 == 0)
}

/// The number of days of `year`.
pub open spec fn year_length(year: int) -> int {
    if is_leap(year) {
        366
    } else {
        365
    }
}

/// The number of days of the month `month` of `year`.
pub open spec fn month_length(year: int, month: int) -> int {
    if month == 2 {
        if is_leap(year) {
            29
        } else {
            28
        }
    } else if month == 4 || month == 6 || month == 9 || month == 11 {
        30
    } else {
        31
    }
}

/// Days from 1970-01-01 to the first day of `year`.
pub open spec fn days_before_year(year: int) -> int
    decreases year,
{
    if year <= 1970 {
        0
    } else {
        days_before_year(year - 1) + year_length(year - 1)
    }
}

/// Days from the first day of `year` to the first day of its month `month`.
pub open spec fn days_before_month(year: int, month: int) -> int
    decreases month,
{
    if month <= 1 {
        0
    } else {
        days_before_month(year, month - 1) + month_length(year, month - 1)
    }
}

/// `(year, month, day)` names a day of the calendar.
pub open spec fn is_date(year: int, month: int, day: int) -> bool {
    &&& 1970 <= year <= 9999
    &&& 1 <= month <= 12
    &&& 1 <= day <= month_length(year, month)
}

/// `(hour, min, sec)` names a second of a day.
pub open spec fn is_time(hour: int, min: int, sec: int) -> bool {
    &&& 0 <= hour < 24
    &&& 0 <= min < 60
    &&& 0 <= sec < 60
}

/// The number of the day `(year, month, day)`, counted from 1970-01-01.
pub open spec fn day_number(year: int, month: int, day: int) -> int {
    days_before_year(year) + days_before_month(year, month) + (day - 1)
}

/// The weekday of day number `n`: 1 is Monday, 7 is Sunday.
pub open spec fn weekday_of_day(n: int) -> int {
    (n + 3) % 7 + 1
}

/// The weekday of `(year, month, day)`: 1 is Monday, 7 is Sunday.
pub open spec fn weekday_of(year: int, month: int, day: int) -> int {
    weekday_of_day(day_number(year, month, day))
}

/// Seconds from midnight to the given time of day.
pub open spec fn second_of_day(hour: int, min: int, sec: int) -> int {
    hour * 3600 + min * 60 + sec
}

/// Seconds from 1970-01-01T00:00:00Z to the given civil date and time.
pub open spec fn epoch_seconds(
    year: int,
    month: int,
    day: int,
    hour: int,
    min: int,
    sec: int,
) -> int {
    day_number(year, month, day) * 86_400 + second_of_day(hour, min, sec)
}

/// Whether `year` is a leap year.
pub fn is_leap_year(year: u16) -> (leap: bool)
    ensures
        leap == is_leap(year as int),
{
    year % 4 == 0 && (!(year % 100 == 0) || year % 400 == 0)
}

/// Leap years from 1970 up to, and without, `year`.
pub open spec fn leap_years_before(year: int) -> int {
    (year - 1) / 4 - (year - 1) / 100 + (year - 1) / 400 - 477
}

/// Days of a common year that lie before the first of `month`.
pub open spec fn common_days_before_month(month: int) -> int {
    if month <= 1 {
        0
    } else if month == 2 {
        31
    } else if month == 3 {
        59
    } else if month == 4 {
        90
    } else if month == 5 {
        120
    } else if month == 6 {
        151
    } else if month == 7 {
        181
    } else if month == 8 {
        212
    } else if month == 9 {
        243
    } else if month == 10 {
        273
    } else if month == 11 {
        304
    } else if month == 12 {
        334
    } else {
        365
    }
}

/// `(y1, m1, d1)` comes before `(y2, m2, d2)` in the calendar.
pub open spec fn date_before(y1: int, m1: int, d1: int, y2: int, m2: int, d2: int) -> bool {
    y1 < y2 || (y1 == y2 && (m1 < m2 || (m1 == m2 && d1 < d2)))
}

/// The day count to the first of a year is 365 for each year gone by, and one
/// more for each leap year among them.
pub proof fn lemma_days_before_year(year: int)
    requires
        1970 <= year,
    ensures
        days_before_year(year) == 365 * (year - 1970) + leap_years_before(year),
    decreases year,
{
    if year > 1970 {
        lemma_days_before_year(year - 1);
    }
}

/// Later years start later, by 365 or 366 days a year.
pub proof fn lemma_days_before_year_grows(y1: int, y2: int)
    requires
        1970 <= y1 <= y2,
    ensures
        days_before_year(y1) + 365 * (y2 - y1) <= days_before_year(y2),
        days_before_year(y2) <= days_before_year(y1) + 366 * (y2 - y1),
    decreases y2 - y1,
{
    if y1 < y2 {
        lemma_days_before_year_grows(y1, y2 - 1);
    }
}

/// The day count to the first of a month is that of a common year, and one
/// more from March on in a leap year.
pub proof fn lemma_days_before_month(year: int, month: int)
    requires
        1 <= month <= 13,
    ensures
        days_before_month(year, month) == common_days_before_month(month) + if is_leap(year)
            && month > 2 {
            1int
        } else {
            0int
        },
{
    reveal_with_fuel(days_before_month, 14);
}

/// A day of year `y` has a number from that of January 1st up to, and
/// without, that of the next January 1st; all of them lie below `DAYS_END`.
pub proof fn lemma_day_number_bounds(year: int, month: int, day: int)
    requires
        is_date(year, month, day),
    ensures
        days_before_year(year) <= day_number(year, month, day) < days_before_year(year + 1),
        0 <= day_number(year, month, day) < DAYS_END,
{
    lemma_days_before_month(year, month);
    lemma_days_before_month(year, month + 1);
    lemma_days_before_year_grows(1970, year);
    lemma_days_before_year_grows(year + 1, 10000);
    lemma_days_before_year(10000);
}

/// The day number grows along the calendar.
pub proof fn lemma_day_number_grows(y1: int, m1: int, d1: int, y2: int, m2: int, d2: int)
    requires
        is_date(y1, m1, d1),
        is_date(y2, m2, d2),
        date_before(y1, m1, d1, y2, m2, d2),
    ensures
        day_number(y1, m1, d1) < day_number(y2, m2, d2),
{
    lemma_day_number_bounds(y1, m1, d1);
    lemma_day_number_bounds(y2, m2, d2);
    if y1 < y2 {
        lemma_days_before_year_grows(y1 + 1, y2);
    } else {
        lemma_days_before_month(y1, m1);
        lemma_days_before_month(y1, m1 + 1);
        lemma_days_before_month(y2, m2);
    }
}

/// Two days of the calendar with one number are one day.
pub proof fn lemma_day_number_injective(y1: int, m1: int, d1: int, y2: int, m2: int, d2: int)
    requires
        is_date(y1, m1, d1),
        is_date(y2, m2, d2),
        day_number(y1, m1, d1) == day_number(y2, m2, d2),
    ensures
        y1 == y2,
        m1 == m2,
        d1 == d2,
{
    if date_before(y1, m1, d1, y2, m2, d2) {
        lemma_day_number_grows(y1, m1, d1, y2, m2, d2);
    }
    if date_before(y2, m2, d2, y1, m1, d1) {
        lemma_day_number_grows(y2, m2, d2, y1, m1, d1);
    }
}

/// The year that holds day number `n`, searched from `from` on.
proof fn lemma_year_of_day(n: int, from: int) -> (year: int)
    requires
        1970 <= from,
        days_before_year(from) <= n,
    ensures
        from <= year,
        days_before_year(year) <= n < days_before_year(year + 1),
    decreases n - days_before_year(from),
{
    if n < days_before_year(from + 1) {
        from
    } else {
        lemma_year_of_day(n, from + 1)
    }
}

/// Every day number below `DAYS_END` is that of a day of the calendar.
pub proof fn lemma_date_of_day(n: int) -> (date: (int, int, int))
    requires
        0 <= n < DAYS_END,
    ensures
        is_date(date.0, date.1, date.2),
        day_number(date.0, date.1, date.2) == n,
{
    let year = lemma_year_of_day(n, 1970);
    if year >= 10000 {
        lemma_days_before_year_grows(10000, year);
    }
    lemma_days_before_year(10000);
    let rest = n - days_before_year(year);
    let leap: int = if is_leap(year) {
        1
    } else {
        0
    };
    let month: int = if rest < 31 {
        1
    } else if rest < 59 + leap {
        2
    } else if rest < 90 + leap {
        3
    } else if rest < 120 + leap {
        4
    } else if rest < 151 + leap {
        5
    } else if rest < 181 + leap {
        6
    } else if rest < 212 + leap {
        7
    } else if rest < 243 + leap {
        8
    } else if rest < 273 + leap {
        9
    } else if rest < 304 + leap {
        10
    } else if rest < 334 + leap {
        11
    } else {
        12
    };
    lemma_days_before_month(year, month);
    lemma_days_before_month(year, month + 1);
    (year, month, rest - days_before_month(year, month) + 1)
}

} // verus!
