//! The three wire formats, as functions from a date to the bytes that spell it.
//!
//! | Format      | Example                          |
//! |-------------|----------------------------------|
//! | IMF-fixdate | `Sun, 06 Nov 1994 08:49:37 GMT`  |
//! | RFC 850     | `Sunday, 06-Nov-94 08:49:37 GMT` |
//! | asctime     | `Sun Nov  6 08:49:37 1994`       |
//!
//! A parser is held to these functions: it accepts a text exactly when some
//! date is spelled so, and answers with that date.
use vstd::prelude::*;
use vstd::string::*;

use crate::datetime::DateTime;

verus! {

/// The space, ` `.
pub const SP: u8 = 0x20;

/// The comma, `,`.
pub const COMMA: u8 = 0x2c;

/// The hyphen, `-`.
pub const HYPHEN: u8 = 0x2d;

/// The digit zero, `0`; the other nine digits follow it.
pub const ZERO: u8 = 0x30;

/// The colon, `:`.
pub const COLON: u8 = 0x3a;

/// RFC 850 years below this one lie in the 2000s, the others in the 1900s.
pub const PIVOT_YEAR: u8 = 70;

/// The bytes are ASCII.
pub open spec fn is_ascii_bytes(bytes: Seq<u8>) -> bool {
    forall|i: int| 0 <= i < bytes.len() ==> bytes[i] <= 0x7f
}

/// White space: a space, a tab, a line feed, a vertical tab, a form feed or a
/// carriage return.
pub open spec fn is_space(b: u8) -> bool {
    b == SP || 0x09 <= b <= 0x0d
}

/// `s` without the white space that it begins with.
pub open spec fn trim_start(s: Seq<u8>) -> Seq<u8>
    decreases s.len(),
{
    if s.len() > 0 && is_space(s[0]) {
        trim_start(s.drop_first())
    } else {
        s
    }
}

/// `s` without the white space that it ends with.
pub open spec fn trim_end(s: Seq<u8>) -> Seq<u8>
    decreases s.len(),
{
    if s.len() > 0 && is_space(s.last()) {
        trim_end(s.drop_last())
    } else {
        s
    }
}

/// `s` without the white space around it.
pub open spec fn trimmed(s: Seq<u8>) -> Seq<u8> {
    trim_end(trim_start(s))
}

/// `b` is one of the ten digits.
pub open spec fn is_digit(b: u8) -> bool {
    ZERO <= b <= ZERO + 9
}

/// The number that the digit `b` stands for.
pub open spec fn digit_value(b: u8) -> int {
    b - ZERO
}

/// The digit that stands for `n`.
pub open spec fn digit(n: int) -> u8 {
    (ZERO + n) as u8
}

/// `n` in two columns, with a leading zero.
pub open spec fn two_digits(n: int) -> Seq<u8> {
    seq![digit(n / 10), digit(n % 10)]
}

/// `n` in four columns, with leading zeros.
pub open spec fn four_digits(n: int) -> Seq<u8> {
    seq![digit(n / 1000), digit(n / 100 % 10), digit(n / 10 % 10), digit(n % 10)]
}

/// The English name of weekday `wday`, Monday being 1.
pub open spec fn weekday_name(wday: int) -> Seq<u8> {
    if wday == 1 {
        "Monday".spec_bytes()
    } else if wday == 2 {
        "Tuesday".spec_bytes()
    } else if wday == 3 {
        "Wednesday".spec_bytes()
    } else if wday == 4 {
        "Thursday".spec_bytes()
    } else if wday == 5 {
        "Friday".spec_bytes()
    } else if wday == 6 {
        "Saturday".spec_bytes()
    } else {
        "Sunday".spec_bytes()
    }
}

/// The first three letters of the weekday's name.
pub open spec fn weekday_abbrev(wday: int) -> Seq<u8> {
    weekday_name(wday).subrange(0, 3)
}

/// The three letters that stand for month `mon`, January being 1.
pub open spec fn month_abbrev(mon: int) -> Seq<u8> {
    if mon == 1 {
        "Jan".spec_bytes()
    } else if mon == 2 {
        "Feb".spec_bytes()
    } else if mon == 3 {
        "Mar".spec_bytes()
    } else if mon == 4 {
        "Apr".spec_bytes()
    } else if mon == 5 {
        "May".spec_bytes()
    } else if mon == 6 {
        "Jun".spec_bytes()
    } else if mon == 7 {
        "Jul".spec_bytes()
    } else if mon == 8 {
        "Aug".spec_bytes()
    } else if mon == 9 {
        "Sep".spec_bytes()
    } else if mon == 10 {
        "Oct".spec_bytes()
    } else if mon == 11 {
        "Nov".spec_bytes()
    } else {
        "Dec".spec_bytes()
    }
}

/// The only time zone that a header names.
pub open spec fn zone() -> Seq<u8> {
    "GMT".spec_bytes()
}

/// `HH:MM:SS`
pub open spec fn time_of_day(t: DateTime) -> Seq<u8> {
    two_digits(t.hour as int) + seq![COLON] + two_digits(t.min as int) + seq![COLON] + two_digits(
        t.sec as int,
    )
}

/// The year that the two digits `yy` of an RFC 850 date stand for.
pub open spec fn rfc850_year(yy: int) -> int {
    if yy < PIVOT_YEAR {
        2000 + yy
    } else {
        1900 + yy
    }
}

/// `Www, dd Mon yyyy HH:MM:SS GMT`
pub open spec fn imf_fixdate(t: DateTime) -> Seq<u8> {
    weekday_abbrev(t.wday as int) + seq![COMMA, SP] + two_digits(t.day as int) + seq![SP]
        + month_abbrev(t.mon as int) + seq![SP] + four_digits(t.year as int) + seq![SP]
        + time_of_day(t) + seq![SP] + zone()
}

/// `Weekday, dd-Mon-yy HH:MM:SS GMT`
pub open spec fn rfc850_date(t: DateTime) -> Seq<u8> {
    weekday_name(t.wday as int) + seq![COMMA, SP] + two_digits(t.day as int) + seq![HYPHEN]
        + month_abbrev(t.mon as int) + seq![HYPHEN] + two_digits(t.year as int % 100) + seq![SP]
        + time_of_day(t) + seq![SP] + zone()
}

/// `Www Mon dd HH:MM:SS yyyy`, or with a space for the zero of a day below 10
/// where `padded` is set.
pub open spec fn asctime(t: DateTime, padded: bool) -> Seq<u8> {
    weekday_abbrev(t.wday as int) + seq![SP] + month_abbrev(t.mon as int) + seq![SP] + (if padded {
        seq![SP, digit(t.day as int)]
    } else {
        two_digits(t.day as int)
    }) + seq![SP] + time_of_day(t) + seq![SP] + four_digits(t.year as int)
}

/// `s` is the IMF-fixdate of `t`.
pub open spec fn spells_imf_fixdate(s: Seq<u8>, t: DateTime) -> bool {
    t.fits() && s == imf_fixdate(t)
}

/// `s` is the RFC 850 date of `t`, whose year is the one that its last two
/// digits stand for.
pub open spec fn spells_rfc850_date(s: Seq<u8>, t: DateTime) -> bool {
    t.fits() && t.year == rfc850_year(t.year as int % 100) && s == rfc850_date(t)
}

/// `s` is the asctime of `t`, its day written with two digits or, below 10,
/// with a space and one digit.
pub open spec fn spells_asctime(s: Seq<u8>, t: DateTime) -> bool {
    t.fits() && (s == asctime(t, false) || (t.day <= 9 && s == asctime(t, true)))
}

/// `s` is `t` in one of the three formats.
pub open spec fn spells(s: Seq<u8>, t: DateTime) -> bool {
    spells_imf_fixdate(s, t) || spells_rfc850_date(s, t) || spells_asctime(s, t)
}

/// `s` holds the date `t`: between white space it spells `t` in one of the
/// three formats, and `t` is valid.
pub open spec fn denotes(s: Seq<u8>, t: DateTime) -> bool {
    spells(trimmed(s), t) && t.valid()
}

/// Columns `i` and `i + 1` of `s` hold the two digits of `n`.
pub open spec fn two_at(s: Seq<u8>, i: int, n: int) -> bool {
    is_digit(s[i]) && is_digit(s[i + 1]) && n == 10 * digit_value(s[i]) + digit_value(s[i + 1])
}

/// Columns `i` to `i + 3` of `s` hold the four digits of `n`.
pub open spec fn four_at(s: Seq<u8>, i: int, n: int) -> bool {
    is_digit(s[i]) && is_digit(s[i + 1]) && is_digit(s[i + 2]) && is_digit(s[i + 3]) && n == 1000
        * digit_value(s[i]) + 100 * digit_value(s[i + 1]) + 10 * digit_value(s[i + 2])
        + digit_value(s[i + 3])
}

/// Columns `i` to `i + 7` of `s` hold the time of day of `t`.
pub open spec fn time_at(s: Seq<u8>, i: int, t: DateTime) -> bool {
    two_at(s, i, t.hour as int) && s[i + 2] == COLON && two_at(s, i + 3, t.min as int) && s[i + 5]
        == COLON && two_at(s, i + 6, t.sec as int)
}

/// What stands in each column of a text that is the IMF-fixdate of `t`.
pub open spec fn imf_fixdate_columns(s: Seq<u8>, t: DateTime) -> bool {
    &&& s.len() == 29
    &&& s.subrange(0, 3) == weekday_abbrev(t.wday as int)
    &&& s[3] == COMMA
    &&& s[4] == SP
    &&& two_at(s, 5, t.day as int)
    &&& s[7] == SP
    &&& s.subrange(8, 11) == month_abbrev(t.mon as int)
    &&& s[11] == SP
    &&& four_at(s, 12, t.year as int)
    &&& s[16] == SP
    &&& time_at(s, 17, t)
    &&& s[25] == SP
    &&& s.subrange(26, 29) == zone()
}

/// Columns `i` and `i + 1` of `s` hold the day `n` as asctime writes it: two
/// digits, or a space and one digit.
pub open spec fn day_at(s: Seq<u8>, i: int, n: int) -> bool {
    two_at(s, i, n) || (s[i] == SP && is_digit(s[i + 1]) && n == digit_value(s[i + 1]))
}

/// What stands in each column of a text that is the asctime of `t`.
pub open spec fn asctime_columns(s: Seq<u8>, t: DateTime) -> bool {
    &&& s.len() == 24
    &&& s.subrange(0, 3) == weekday_abbrev(t.wday as int)
    &&& s[3] == SP
    &&& s.subrange(4, 7) == month_abbrev(t.mon as int)
    &&& s[7] == SP
    &&& day_at(s, 8, t.day as int)
    &&& s[10] == SP
    &&& time_at(s, 11, t)
    &&& s[19] == SP
    &&& four_at(s, 20, t.year as int)
}

/// `s` begins with the name of weekday `wday`, a comma and a space.
pub open spec fn begins_with_weekday(s: Seq<u8>, wday: int) -> bool {
    let n = weekday_name(wday).len() as int;
    s.len() >= n + 2 && s.subrange(0, n) == weekday_name(wday) && s[n] == COMMA && s[n + 1] == SP
}

/// What stands in the 22 columns of `s` from column `k` on, where `s` is the
/// RFC 850 date of `t` and its weekday ends before `k`.
pub open spec fn rfc850_date_tail(s: Seq<u8>, k: int, t: DateTime) -> bool {
    &&& s.len() == k + 22
    &&& two_at(s, k, t.day as int)
    &&& s[k + 2] == HYPHEN
    &&& s.subrange(k + 3, k + 6) == month_abbrev(t.mon as int)
    &&& s[k + 6] == HYPHEN
    &&& two_at(s, k + 7, t.year as int % 100)
    &&& s[k + 9] == SP
    &&& time_at(s, k + 10, t)
    &&& s[k + 18] == SP
    &&& s.subrange(k + 19, k + 22) == zone()
}

/// What stands in each column of a text that is the RFC 850 date of `t`.
pub open spec fn rfc850_date_columns(s: Seq<u8>, t: DateTime) -> bool {
    begins_with_weekday(s, t.wday as int) && rfc850_date_tail(
        s,
        weekday_name(t.wday as int).len() as int + 2,
        t,
    )
}

} // verus!
