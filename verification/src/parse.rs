//! Strict parsers for the three wire formats.
//!
//! Each parser looks at fixed columns, converts digits with a routine of its
//! own width, and compares names byte for byte. None allocates.
use vstd::prelude::*;
use vstd::slice::slice_subrange;
use vstd::string::*;

use crate::datetime::DateTime;
use crate::layout::{
    lemma_asctime_columns, lemma_asctime_injective, lemma_imf_fixdate_columns,
    lemma_imf_fixdate_injective, lemma_rfc850_date_after_weekday, lemma_rfc850_date_begins,
    lemma_rfc850_date_tail_injective, lemma_spells_unique, lemma_token_lengths, lemma_weekday_names,
};
use crate::text::{
    asctime_columns, begins_with_weekday, day_at, digit_value, four_at, imf_fixdate_columns,
    is_ascii_bytes, is_digit, is_space, month_abbrev, rfc850_date_tail, rfc850_year, spells,
    spells_asctime, spells_imf_fixdate, spells_rfc850_date, time_at, trim_end, trim_start, trimmed,
    two_at, weekday_abbrev, weekday_name, COLON, COMMA, HYPHEN, PIVOT_YEAR, SP, ZERO,
};
use crate::Error;

verus! {

/// The number that one digit stands for.
pub fn toint_1(x: u8) -> (r: Result<u8, Error>)
    ensures
        r is Ok <==> is_digit(x),
        r matches Ok(n) ==> n == digit_value(x),
{
    if ZERO <= x && x <= ZERO + 9 {
        Ok(x - ZERO)
    } else {
        Err(Error(()))
    }
}

/// The number that the first two bytes of `s` stand for, both being digits.
pub fn toint_2(s: &[u8]) -> (r: Result<u8, Error>)
    requires
        s@.len() >= 2,
    ensures
        r is Ok <==> is_digit(s@[0]) && is_digit(s@[1]),
        r matches Ok(n) ==> n == 10 * digit_value(s@[0]) + digit_value(s@[1]),
{
    let high = toint_1(s[0])?;
    let low = toint_1(s[1])?;
    Ok(high * 10 + low)
}

/// The number that the first four bytes of `s` stand for, all being digits.
pub fn toint_4(s: &[u8]) -> (r: Result<u16, Error>)
    requires
        s@.len() >= 4,
    ensures
        r is Ok <==> is_digit(s@[0]) && is_digit(s@[1]) && is_digit(s@[2]) && is_digit(s@[3]),
        r matches Ok(n) ==> n == 1000 * digit_value(s@[0]) + 100 * digit_value(s@[1]) + 10
            * digit_value(s@[2]) + digit_value(s@[3]),
{
    let a = toint_1(s[0])? as u16;
    let b = toint_1(s[1])? as u16;
    let c = toint_1(s[2])? as u16;
    let d = toint_1(s[3])? as u16;
    Ok(a * 1000 + b * 100 + c * 10 + d)
}

/// Whether two byte strings are the same.
pub fn bytes_eq(a: &[u8], b: &[u8]) -> (same: bool)
    ensures
        same == (a@ == b@),
{
    if a.len() != b.len() {
        return false;
    }
    let mut i: usize = 0;
    while i < a.len()
        invariant
            a@.len() == b@.len(),
            i <= a@.len(),
            forall|k: int| 0 <= k < i ==> a@[k] == b@[k],
        decreases a@.len() - i,
    {
        if a[i] != b[i] {
            return false;
        }
        i += 1;
    }
    assert(a@ =~= b@);
    true
}

/// The English name of a weekday.
pub fn weekday_str(wday: u8) -> (name: &'static str)
    requires
        1 <= wday <= 7,
    ensures
        name.spec_bytes() == weekday_name(wday as int),
{
    match wday {
        1 => "Monday",
        2 => "Tuesday",
        3 => "Wednesday",
        4 => "Thursday",
        5 => "Friday",
        6 => "Saturday",
        _ => "Sunday",
    }
}

/// The three letters of a month.
pub fn month_str(mon: u8) -> (name: &'static str)
    requires
        1 <= mon <= 12,
    ensures
        name.spec_bytes() == month_abbrev(mon as int),
{
    match mon {
        1 => "Jan",
        2 => "Feb",
        3 => "Mar",
        4 => "Apr",
        5 => "May",
        6 => "Jun",
        7 => "Jul",
        8 => "Aug",
        9 => "Sep",
        10 => "Oct",
        11 => "Nov",
        _ => "Dec",
    }
}

/// The month that `name` abbreviates, if it is one of the twelve.
pub fn month_number(name: &[u8]) -> (r: Option<u8>)
    ensures
        match r {
            Some(mon) => 1 <= mon <= 12 && name@ == month_abbrev(mon as int),
            None => forall|mon: int| 1 <= mon <= 12 ==> name@ != #[trigger] month_abbrev(mon),
        },
{
    let mut mon: u8 = 1;
    while mon <= 12
        invariant
            1 <= mon <= 13,
            forall|k: int| 1 <= k < mon ==> name@ != #[trigger] month_abbrev(k),
        decreases 13 - mon,
    {
        if bytes_eq(name, month_str(mon).as_bytes()) {
            return Some(mon);
        }
        mon += 1;
    }
    None
}

/// The weekday that `name` abbreviates, if it is one of the seven.
pub fn weekday_number(name: &[u8]) -> (r: Option<u8>)
    ensures
        match r {
            Some(wday) => 1 <= wday <= 7 && name@ == weekday_abbrev(wday as int),
            None => forall|wday: int| 1 <= wday <= 7 ==> name@ != #[trigger] weekday_abbrev(wday),
        },
{
    let mut wday: u8 = 1;
    while wday <= 7
        invariant
            1 <= wday <= 8,
            forall|k: int| 1 <= k < wday ==> name@ != #[trigger] weekday_abbrev(k),
        decreases 8 - wday,
    {
        let full = weekday_str(wday).as_bytes();
        proof {
            lemma_token_lengths(wday as int, 1);
        }
        if bytes_eq(name, slice_subrange(full, 0, 3)) {
            return Some(wday);
        }
        wday += 1;
    }
    None
}

/// The number in columns `at` and `at + 1` of `s`.
fn two_digits_at(s: &[u8], at: usize) -> (r: Option<u8>)
    requires
        at + 2 <= s.len(),
    ensures
        match r {
            Some(n) => two_at(s@, at as int, n as int),
            None => !(is_digit(s@[at as int]) && is_digit(s@[at + 1])),
        },
{
    match toint_2(slice_subrange(s, at, at + 2)) {
        Ok(n) => Some(n),
        Err(_) => None,
    }
}

/// The number in columns `at` to `at + 3` of `s`.
fn four_digits_at(s: &[u8], at: usize) -> (r: Option<u16>)
    requires
        at + 4 <= s.len(),
    ensures
        match r {
            Some(n) => four_at(s@, at as int, n as int),
            None => !(is_digit(s@[at as int]) && is_digit(s@[at + 1]) && is_digit(s@[at + 2])
                && is_digit(s@[at + 3])),
        },
{
    match toint_4(slice_subrange(s, at, at + 4)) {
        Ok(n) => Some(n),
        Err(_) => None,
    }
}

/// Hour, minute and second as `HH:MM:SS` in columns `at` to `at + 7` of `s`.
fn time_of_day_at(s: &[u8], at: usize) -> (r: Option<(u8, u8, u8)>)
    requires
        at + 8 <= s.len(),
    ensures
        match r {
            Some((hour, min, sec)) => forall|t: DateTime| #[trigger]
                time_at(s@, at as int, t) <==> t.hour == hour && t.min == min && t.sec == sec,
            None => forall|t: DateTime| !#[trigger] time_at(s@, at as int, t),
        },
{
    if s[at + 2] != COLON || s[at + 5] != COLON {
        return None;
    }
    match (two_digits_at(s, at), two_digits_at(s, at + 3), two_digits_at(s, at + 6)) {
        (Some(hour), Some(min), Some(sec)) => Some((hour, min, sec)),
        _ => None,
    }
}

/// The date that `s` spells as an IMF-fixdate, such as
/// `Sun, 06 Nov 1994 08:49:37 GMT`.
pub fn parse_imf_fixdate(s: &[u8]) -> (r: Result<DateTime, Error>)
    ensures
        match r {
            Ok(t) => forall|u: DateTime| #[trigger] spells_imf_fixdate(s@, u) <==> u == t,
            Err(_) => forall|u: DateTime| !#[trigger] spells_imf_fixdate(s@, u),
        },
{
    if s.len() != 29 || s[3] != COMMA || s[4] != SP || s[7] != SP || s[11] != SP || s[16] != SP
        || s[25] != SP || !bytes_eq(slice_subrange(s, 26, 29), "GMT".as_bytes()) {
        proof {
            assert forall|u: DateTime| !#[trigger] spells_imf_fixdate(s@, u) by {
                if u.fits() {
                    lemma_imf_fixdate_columns(s@, u);
                }
            }
        }
        return Err(Error(()));
    }
    let wday = weekday_number(slice_subrange(s, 0, 3));
    let day = two_digits_at(s, 5);
    let mon = month_number(slice_subrange(s, 8, 11));
    let year = four_digits_at(s, 12);
    let time = time_of_day_at(s, 17);
    match (wday, day, mon, year, time) {
        (Some(wday), Some(day), Some(mon), Some(year), Some((hour, min, sec))) => {
            let t = DateTime { year, mon, day, hour, min, sec, wday };
            proof {
                assert(time_at(s@, 17, t));
                lemma_imf_fixdate_columns(s@, t);
                assert forall|u: DateTime| #[trigger] spells_imf_fixdate(s@, u) implies u == t by {
                    lemma_imf_fixdate_injective(t, u);
                }
            }
            Ok(t)
        },
        _ => {
            proof {
                assert forall|u: DateTime| !#[trigger] spells_imf_fixdate(s@, u) by {
                    if u.fits() {
                        lemma_imf_fixdate_columns(s@, u);
                        if imf_fixdate_columns(s@, u) {
                            assert(time_at(s@, 17, u));
                        }
                    }
                }
            }
            Err(Error(()))
        },
    }
}

/// The day in columns `at` and `at + 1` of `s`, written with two digits or
/// with a space and one digit.
fn day_of_month_at(s: &[u8], at: usize) -> (r: Option<u8>)
    requires
        at + 2 <= s.len(),
    ensures
        match r {
            Some(day) => forall|n: int| #[trigger] day_at(s@, at as int, n) <==> n == day,
            None => forall|n: int| !#[trigger] day_at(s@, at as int, n),
        },
{
    if s[at] == SP {
        match toint_1(s[at + 1]) {
            Ok(day) => Some(day),
            Err(_) => None,
        }
    } else {
        two_digits_at(s, at)
    }
}

/// The date that `s` spells as an asctime, such as
/// `Sun Nov  6 08:49:37 1994`.
pub fn parse_asctime(s: &[u8]) -> (r: Result<DateTime, Error>)
    ensures
        match r {
            Ok(t) => forall|u: DateTime| #[trigger] spells_asctime(s@, u) <==> u == t,
            Err(_) => forall|u: DateTime| !#[trigger] spells_asctime(s@, u),
        },
{
    if s.len() != 24 || s[3] != SP || s[7] != SP || s[10] != SP || s[19] != SP {
        proof {
            assert forall|u: DateTime| !#[trigger] spells_asctime(s@, u) by {
                if u.fits() {
                    lemma_asctime_columns(s@, u);
                }
            }
        }
        return Err(Error(()));
    }
    let wday = weekday_number(slice_subrange(s, 0, 3));
    let mon = month_number(slice_subrange(s, 4, 7));
    let day = day_of_month_at(s, 8);
    let time = time_of_day_at(s, 11);
    let year = four_digits_at(s, 20);
    match (wday, mon, day, time, year) {
        (Some(wday), Some(mon), Some(day), Some((hour, min, sec)), Some(year)) => {
            let t = DateTime { year, mon, day, hour, min, sec, wday };
            proof {
                assert(time_at(s@, 11, t));
                assert(day_at(s@, 8, t.day as int));
                lemma_asctime_columns(s@, t);
                assert forall|u: DateTime| #[trigger] spells_asctime(s@, u) implies u == t by {
                    lemma_asctime_injective(s@, t, u);
                }
            }
            Ok(t)
        },
        _ => {
            proof {
                assert forall|u: DateTime| !#[trigger] spells_asctime(s@, u) by {
                    if u.fits() {
                        lemma_asctime_columns(s@, u);
                        if asctime_columns(s@, u) {
                            assert(time_at(s@, 11, u));
                            assert(day_at(s@, 8, u.day as int));
                        }
                    }
                }
            }
            Err(Error(()))
        },
    }
}

/// The weekday whose name, with a comma and a space, begins `s`, and the
/// column where the rest begins.
fn weekday_prefix(s: &[u8]) -> (r: Option<(u8, usize)>)
    ensures
        match r {
            Some((wday, rest)) => {
                &&& 1 <= wday <= 7
                &&& begins_with_weekday(s@, wday as int)
                &&& rest == weekday_name(wday as int).len() + 2
                &&& rest <= 11
                &&& rest <= s.len()
            },
            None => forall|wday: int| 1 <= wday <= 7 ==> !#[trigger] begins_with_weekday(s@, wday),
        },
{
    let mut wday: u8 = 1;
    while wday <= 7
        invariant
            1 <= wday <= 8,
            forall|k: int| 1 <= k < wday ==> !#[trigger] begins_with_weekday(s@, k),
        decreases 8 - wday,
    {
        let name = weekday_str(wday).as_bytes();
        proof {
            lemma_weekday_names();
        }
        let n = name.len();
        if s.len() >= n + 2 && bytes_eq(slice_subrange(s, 0, n), name) && s[n] == COMMA && s[n + 1]
            == SP {
            return Some((wday, n + 2));
        }
        wday += 1;
    }
    None
}

/// The year that a two-digit year stands for: one of 1970 to 2069.
pub fn full_year(yy: u8) -> (year: u16)
    requires
        yy <= 99,
    ensures
        year == rfc850_year(yy as int),
{
    if yy < PIVOT_YEAR {
        2000 + yy as u16
    } else {
        1900 + yy as u16
    }
}

/// The date that `s` spells as an RFC 850 date, such as
/// `Sunday, 06-Nov-94 08:49:37 GMT`.
pub fn parse_rfc850_date(s: &[u8]) -> (r: Result<DateTime, Error>)
    ensures
        match r {
            Ok(t) => forall|u: DateTime| #[trigger] spells_rfc850_date(s@, u) <==> u == t,
            Err(_) => forall|u: DateTime| !#[trigger] spells_rfc850_date(s@, u),
        },
{
    let (wday, k) = match weekday_prefix(s) {
        Some(found) => found,
        None => {
            proof {
                assert forall|u: DateTime| !#[trigger] spells_rfc850_date(s@, u) by {
                    if spells_rfc850_date(s@, u) {
                        lemma_rfc850_date_begins(s@, u);
                    }
                }
            }
            return Err(Error(()));
        },
    };
    if s.len() != k + 22 || s[k + 2] != HYPHEN || s[k + 6] != HYPHEN || s[k + 9] != SP || s[k + 18]
        != SP || !bytes_eq(slice_subrange(s, k + 19, k + 22), "GMT".as_bytes()) {
        proof {
            assert forall|u: DateTime| !#[trigger] spells_rfc850_date(s@, u) by {
                if u.fits() {
                    lemma_rfc850_date_after_weekday(s@, wday as int, k as int, u);
                }
            }
        }
        return Err(Error(()));
    }
    let day = two_digits_at(s, k);
    let mon = month_number(slice_subrange(s, k + 3, k + 6));
    let yy = two_digits_at(s, k + 7);
    let time = time_of_day_at(s, k + 10);
    match (day, mon, yy, time) {
        (Some(day), Some(mon), Some(yy), Some((hour, min, sec))) => {
            let year = full_year(yy);
            let t = DateTime { year, mon, day, hour, min, sec, wday };
            proof {
                assert(time_at(s@, k + 10, t));
                assert(rfc850_date_tail(s@, k as int, t));
                lemma_rfc850_date_after_weekday(s@, wday as int, k as int, t);
                assert forall|u: DateTime| #[trigger] spells_rfc850_date(s@, u) implies u == t by {
                    lemma_rfc850_date_after_weekday(s@, wday as int, k as int, u);
                    lemma_rfc850_date_tail_injective(s@, k as int, t, u);
                }
            }
            Ok(t)
        },
        _ => {
            proof {
                assert forall|u: DateTime| !#[trigger] spells_rfc850_date(s@, u) by {
                    if u.fits() {
                        lemma_rfc850_date_after_weekday(s@, wday as int, k as int, u);
                        if rfc850_date_tail(s@, k as int, u) {
                            assert(time_at(s@, k + 10, u));
                        }
                    }
                }
            }
            Err(Error(()))
        },
    }
}

/// The date that `s` spells in one of the three formats. IMF-fixdate is
/// tried first, then RFC 850, then asctime.
pub fn parse_date(s: &[u8]) -> (r: Result<DateTime, Error>)
    ensures
        match r {
            Ok(t) => forall|u: DateTime| #[trigger] spells(s@, u) <==> u == t,
            Err(_) => forall|u: DateTime| !#[trigger] spells(s@, u),
        },
{
    let r = match parse_imf_fixdate(s) {
        Ok(t) => Ok(t),
        Err(_) => match parse_rfc850_date(s) {
            Ok(t) => Ok(t),
            Err(_) => parse_asctime(s),
        },
    };
    proof {
        if let Ok(t) = r {
            assert(spells(s@, t));
            assert forall|u: DateTime| #[trigger] spells(s@, u) implies u == t by {
                lemma_spells_unique(s@, t, u);
            }
        }
    }
    r
}

/// Whether every byte of `s` is ASCII.
pub fn is_ascii(s: &[u8]) -> (ascii: bool)
    ensures
        ascii == is_ascii_bytes(s@),
{
    let mut i: usize = 0;
    while i < s.len()
        invariant
            i <= s@.len(),
            forall|k: int| 0 <= k < i ==> s@[k] <= 0x7f,
        decreases s@.len() - i,
    {
        if s[i] > 0x7f {
            return false;
        }
        i += 1;
    }
    true
}

/// Whether `b` is white space.
fn is_whitespace(b: u8) -> (space: bool)
    ensures
        space == is_space(b),
{
    b == SP || (0x09 <= b && b <= 0x0d)
}

/// `s` without the white space around it.
pub fn trim(s: &[u8]) -> (r: &[u8])
    ensures
        r@ == trimmed(s@),
{
    let mut from: usize = 0;
    assert(s@.subrange(0, s@.len() as int) =~= s@);
    while from < s.len() && is_whitespace(s[from])
        invariant
            from <= s@.len(),
            trim_start(s@) == trim_start(s@.subrange(from as int, s@.len() as int)),
        decreases s@.len() - from,
    {
        assert(s@.subrange(from as int, s@.len() as int).drop_first() =~= s@.subrange(
            from + 1,
            s@.len() as int,
        ));
        from += 1;
    }
    let mut to: usize = s.len();
    assert(trim_start(s@) == s@.subrange(from as int, to as int));
    while to > from && is_whitespace(s[to - 1])
        invariant
            from <= to <= s@.len(),
            trimmed(s@) == trim_end(s@.subrange(from as int, to as int)),
        decreases to,
    {
        assert(s@.subrange(from as int, to as int).drop_last() =~= s@.subrange(
            from as int,
            to - 1,
        ));
        to -= 1;
    }
    slice_subrange(s, from, to)
}

} // verus!
