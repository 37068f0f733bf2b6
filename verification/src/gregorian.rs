//! The calendar arithmetic of the `datealgo` crate, under contracts over the
//! model of [`crate::calendar`].
//!
//! Verus does not read `datealgo`. Each function here makes one call into it
//! and states, without proof, what the crate documents of that call. The
//! contracts hold for the years 1970 to 9999 only, which is all this library
//! asks for.
use vstd::prelude::*;

use crate::calendar::{epoch_seconds, is_date, is_time, month_length, weekday_of, SECS_END};

verus! {

/// `datealgo::days_in_month`: the number of days of the given month of the
/// given year, by the leap-year rule of the Gregorian calendar. The month
/// must be one of 1 to 12.
#[verifier::external_body]
pub(crate) fn days_in_month(year: u16, mon: u8) -> (days: u8)
    requires
        1 <= mon <= 12,
    ensures
        days == month_length(year as int, mon as int),
{
    datealgo::days_in_month(year as i32, mon)
}

/// `datealgo::date_to_weekday`: the day of the week of a Gregorian date, 1
/// for Monday to 7 for Sunday. The date must be one of the calendar.
#[verifier::external_body]
pub(crate) fn date_to_weekday(year: u16, mon: u8, day: u8) -> (wday: u8)
    requires
        is_date(year as int, mon as int, day as int),
    ensures
        wday == weekday_of(year as int, mon as int, day as int),
{
    datealgo::date_to_weekday((year as i32, mon, day))
}

/// `datealgo::secs_to_datetime`: year, month, day, hour, minute and second of
/// the instant `secs` seconds after 1970-01-01T00:00:00, every day having
/// 86400 seconds.
#[verifier::external_body]
pub(crate) fn secs_to_datetime(secs: u64) -> (t: (u16, u8, u8, u8, u8, u8))
    requires
        secs < SECS_END,
    ensures
        is_date(t.0 as int, t.1 as int, t.2 as int),
        is_time(t.3 as int, t.4 as int, t.5 as int),
        epoch_seconds(t.0 as int, t.1 as int, t.2 as int, t.3 as int, t.4 as int, t.5 as int)
            == secs,
{
    let (year, mon, day, hour, min, sec) = datealgo::secs_to_datetime(secs as i64);
    (year as u16, mon, day, hour, min, sec)
}

/// `datealgo::datetime_to_secs`: the seconds from 1970-01-01T00:00:00 to the
/// given date and time of day, every day having 86400 seconds. Date and time
/// must be of the calendar.
#[verifier::external_body]
pub(crate) fn datetime_to_secs(year: u16, mon: u8, day: u8, hour: u8, min: u8, sec: u8) -> (secs:
    u64)
    requires
        is_date(year as int, mon as int, day as int),
        is_time(hour as int, min as int, sec as int),
    ensures
        secs == epoch_seconds(
            year as int,
            mon as int,
            day as int,
            hour as int,
            min as int,
            sec as int,
        ),
{
    datealgo::datetime_to_secs((year as i32, mon, day, hour, min, sec)) as u64
}

} // verus!
