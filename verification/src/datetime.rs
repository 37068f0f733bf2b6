//! The broken-down date and time that the wire formats spell.
use vstd::prelude::*;
use vstd::string::*;

use crate::calendar::{
    day_number, days_before_month, days_before_year, epoch_seconds, is_date, is_leap, is_leap_year,
    is_time, leap_years_before, lemma_date_of_day, lemma_day_number_bounds,
    lemma_day_number_injective, lemma_days_before_month, lemma_days_before_year,
    lemma_days_before_year_grows, month_length, second_of_day, weekday_of, year_length, DAYS_END,
    SECS_END, SECS_PER_DAY,
};
use crate::format::{ascii_string, imf_fixdate_bytes, text_of};
use crate::gregorian::{date_to_weekday, days_in_month};
use crate::layout::lemma_imf_fixdate_ascii;
use crate::parse::{parse_date, trim};
use crate::text::{imf_fixdate, spells, trimmed};
use crate::Error;

verus! {

/// A date and time of day in GMT, field by field, as a header spells it.
///
/// A value of this type is a record and no more: a parser fills it from
/// text without asking whether such a day exists. [`DateTime::valid`] says
/// when it names a second of the calendar.
#[derive(Copy, Clone, Debug, PartialEq, Eq, Structural, Hash, PartialOrd, Ord)]
pub struct DateTime {
    /// 1970...9999
    pub year: u16,
    /// 1...12
    pub mon: u8,
    /// 1...31
    pub day: u8,
    /// 0...23
    pub hour: u8,
    /// 0...59
    pub min: u8,
    /// 0...59
    pub sec: u8,
    /// 1...7, Monday first
    pub wday: u8,
}

impl DateTime {
    /// The record names a second of the calendar, whatever its weekday.
    pub open spec fn in_calendar(self) -> bool {
        &&& is_date(self.year as int, self.mon as int, self.day as int)
        &&& is_time(self.hour as int, self.min as int, self.sec as int)
    }

    /// The record names a second of the calendar, and its weekday is that of
    /// its day.
    pub open spec fn valid(self) -> bool {
        &&& self.in_calendar()
        &&& self.wday == weekday_of(self.year as int, self.mon as int, self.day as int)
    }

    /// The number of the record's day, counted from 1970-01-01.
    pub open spec fn day_number(self) -> int {
        day_number(self.year as int, self.mon as int, self.day as int)
    }

    /// The instant that the record names, in seconds since the epoch. The
    /// weekday has no part in it.
    pub open spec fn secs(self) -> int {
        epoch_seconds(
            self.year as int,
            self.mon as int,
            self.day as int,
            self.hour as int,
            self.min as int,
            self.sec as int,
        )
    }

    /// Whether the record is valid: every field in its range, the day within
    /// its month, and the weekday that of the day.
    pub fn is_valid(&self) -> (valid: bool)
        ensures
            valid == self.valid(),
    {
        self.sec < 60 && self.min < 60 && self.hour < 24 && self.day > 0 && self.mon > 0
            && self.mon <= 12 && self.year >= 1970 && self.year <= 9999 && self.day
            <= days_in_month(self.year, self.mon) && self.wday == date_to_weekday(
            self.year,
            self.mon,
            self.day,
        )
    }

    /// The date and time of the instant `secs` seconds after the epoch.
    ///
    /// The year is found by walking the years from 1970 on, the month by
    /// walking the months of that year.
    pub fn from_secs(secs: u64) -> (t: DateTime)
        requires
            secs < SECS_END,
        ensures
            t.valid(),
            t.secs() == secs,
            t == date_at(secs as int),
    {
        let total: u64 = secs / SECS_PER_DAY;
        let secs_of_day: u64 = secs % SECS_PER_DAY;
        let wday: u64 = ((total + 3) % 7) + 1;
        let mut days: u64 = total;
        let mut year: u16 = 1970;
        proof {
            lemma_days_before_year(10000);
        }
        loop
            invariant
                1970 <= year <= 9999,
                days_before_year(year as int) + days == total,
                total < DAYS_END,
            ensures
                days < year_length(year as int),
            decreases days,
        {
            let ydays: u64 = if is_leap_year(year) {
                366
            } else {
                365
            };
            if days >= ydays {
                proof {
                    lemma_days_before_year_grows(year as int + 1, 10000);
                    lemma_days_before_year(10000);
                }
                days -= ydays;
                year += 1;
            } else {
                break ;
            }
        }
        let leap = is_leap_year(year);
        let months: [u64; 12] = [31, 28, 31, 30, 31, 30, 31, 31, 30, 31, 30, 31];
        let ghost day_of_year = days;
        let mut mon: usize = 1;
        loop
            invariant
                1 <= mon <= 12,
                leap == is_leap(year as int),
                days_before_month(year as int, mon as int) + days == day_of_year,
                day_of_year < year_length(year as int),
                months@ == seq![31u64, 28, 31, 30, 31, 30, 31, 31, 30, 31, 30, 31],
            ensures
                days < month_length(year as int, mon as int),
            decreases 12 - mon,
        {
            let mon_len: u64 = if leap && mon == 2 {
                29
            } else {
                months[mon - 1]
            };
            proof {
                lemma_days_before_month(year as int, mon as int);
                lemma_days_before_month(year as int, mon as int + 1);
            }
            if days < mon_len {
                break ;
            }
            days -= mon_len;
            mon += 1;
        }
        let t = DateTime {
            year,
            mon: mon as u8,
            day: (days + 1) as u8,
            hour: (secs_of_day / 3600) as u8,
            min: ((secs_of_day % 3600) / 60) as u8,
            sec: (secs_of_day % 60) as u8,
            wday: wday as u8,
        };
        proof {
            assert(t.day_number() == total);
            lemma_date_at(t);
        }
        t
    }

    /// The instant that the record names, in seconds after the epoch. The
    /// weekday has no part in it.
    ///
    /// The days are counted in closed form: 365 a year, one more for each
    /// leap year gone by, and the days of the months before this one.
    pub fn to_secs(&self) -> (secs: u64)
        requires
            self.in_calendar(),
        ensures
            secs == self.secs(),
            secs < SECS_END,
    {
        let year: u64 = self.year as u64;
        proof {
            lemma_leap_years_before(self.year as int);
        }
        let leap_years: u64 = ((year - 1) - 1968) / 4 - ((year - 1) - 1900) / 100 + ((year - 1)
            - 1600) / 400;
        let before: u64 = match self.mon {
            1 => 0,
            2 => 31,
            3 => 59,
            4 => 90,
            5 => 120,
            6 => 151,
            7 => 181,
            8 => 212,
            9 => 243,
            10 => 273,
            11 => 304,
            _ => 334,
        };
        let mut ydays: u64 = before + self.day as u64 - 1;
        if is_leap_year(self.year) && self.mon > 2 {
            ydays += 1;
        }
        proof {
            lemma_days_before_year(self.year as int);
            lemma_days_before_month(self.year as int, self.mon as int);
            lemma_day_number_bounds(self.year as int, self.mon as int, self.day as int);
            assert(ydays == days_before_month(self.year as int, self.mon as int) + self.day - 1);
        }
        let days: u64 = (year - 1970) * 365 + leap_years + ydays;
        assert(days == self.day_number());
        self.sec as u64 + self.min as u64 * 60 + self.hour as u64 * 3600 + days * SECS_PER_DAY
    }

    /// The record as an IMF-fixdate, such as `Sun, 06 Nov 1994 08:49:37 GMT`,
    /// whether or not it is valid. Every field must fit its columns.
    pub fn to_string(&self) -> (s: String)
        requires
            self.fits(),
        ensures
            s@ == text_of(imf_fixdate(*self)),
    {
        proof {
            lemma_imf_fixdate_ascii(*self);
        }
        ascii_string(imf_fixdate_bytes(self))
    }

    /// Every field fits the columns that the wire formats give it, and the
    /// month and the weekday have a name.
    pub open spec fn fits(self) -> bool {
        &&& self.year <= 9999
        &&& 1 <= self.mon <= 12
        &&& self.day <= 99
        &&& self.hour <= 99
        &&& self.min <= 99
        &&& self.sec <= 99
        &&& 1 <= self.wday <= 7
    }
}

impl std::str::FromStr for DateTime {
    type Err = Error;

    /// The record that `s` spells between white space, in one of the three
    /// formats. Nothing asks here whether it is valid.
    fn from_str(s: &str) -> (r: Result<DateTime, Error>)
        ensures
            match r {
                Ok(t) => forall|u: DateTime| #[trigger]
                    spells(trimmed(s.spec_bytes()), u) <==> u == t,
                Err(_) => forall|u: DateTime| !#[trigger] spells(trimmed(s.spec_bytes()), u),
            },
    {
        parse_date(trim(s.as_bytes()))
    }
}

/// The date and time of the instant `secs`.
pub open spec fn date_at(secs: int) -> DateTime {
    choose|t: DateTime| t.valid() && t.secs() == secs
}

/// The leap years from 1970 to the year before `year`, counted from the
/// leap-year cycles that began in 1968, 1900 and 1600.
proof fn lemma_leap_years_before(year: int)
    requires
        1970 <= year <= 9999,
    ensures
        (year - 1 - 1968) / 4 >= (year - 1 - 1900) / 100,
        leap_years_before(year) == (year - 1 - 1968) / 4 - (year - 1 - 1900) / 100 + (year - 1
            - 1600) / 400,
{
    assert((year - 1 - 1968) / 4 == (year - 1) / 4 - 492);
    assert((year - 1 - 1900) / 100 == (year - 1) / 100 - 19);
    assert((year - 1 - 1600) / 400 == (year - 1) / 400 - 4);
}

/// Two valid records of one instant are one record.
pub proof fn lemma_secs_injective(t: DateTime, u: DateTime)
    requires
        t.valid(),
        u.valid(),
        t.secs() == u.secs(),
    ensures
        t == u,
{
    lemma_day_number_bounds(t.year as int, t.mon as int, t.day as int);
    lemma_day_number_bounds(u.year as int, u.mon as int, u.day as int);
    let a = t.day_number();
    let b = u.day_number();
    let x = second_of_day(t.hour as int, t.min as int, t.sec as int);
    let y = second_of_day(u.hour as int, u.min as int, u.sec as int);
    assert(0 <= x < 86_400 && 0 <= y < 86_400);
    assert(a * 86_400 + x == b * 86_400 + y);
    assert(a == b);
    lemma_day_number_injective(
        t.year as int,
        t.mon as int,
        t.day as int,
        u.year as int,
        u.mon as int,
        u.day as int,
    );
}

/// A valid record is the date of its instant, which lies before `SECS_END`.
pub proof fn lemma_date_at(t: DateTime)
    requires
        t.valid(),
    ensures
        0 <= t.secs() < SECS_END,
        date_at(t.secs()) == t,
{
    lemma_day_number_bounds(t.year as int, t.mon as int, t.day as int);
    let u = date_at(t.secs());
    lemma_secs_injective(t, u);
}

/// Every instant before `SECS_END` has a date.
pub proof fn lemma_date_at_valid(secs: int)
    requires
        0 <= secs < SECS_END,
    ensures
        date_at(secs).valid(),
        date_at(secs).secs() == secs,
{
    let n = secs / 86_400;
    let rest = secs % 86_400;
    let date = lemma_date_of_day(n);
    let t = DateTime {
        year: date.0 as u16,
        mon: date.1 as u8,
        day: date.2 as u8,
        hour: (rest / 3600) as u8,
        min: (rest % 3600 / 60) as u8,
        sec: (rest % 60) as u8,
        wday: weekday_of(date.0, date.1, date.2) as u8,
    };
    assert(t.valid() && t.secs() == secs);
}

} // verus!
