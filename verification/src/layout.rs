//! Where each field of a date stands in its text.
//!
//! The lemmas here turn "this text is the IMF-fixdate of that date" into
//! statements about single columns, and back. The parsers and the formatter
//! are proved through them.
use vstd::prelude::*;
use vstd::string::*;

use crate::datetime::DateTime;
use crate::text::{
    asctime, asctime_columns, begins_with_weekday, digit, digit_value, four_at, four_digits,
    imf_fixdate, imf_fixdate_columns, is_ascii_bytes, is_digit, is_space, month_abbrev, rfc850_date,
    rfc850_date_columns, rfc850_date_tail, rfc850_year, spells, spells_asctime, spells_imf_fixdate,
    spells_rfc850_date, time_at, time_of_day, trim_end, trim_start, trimmed, two_at, two_digits,
    weekday_abbrev, weekday_name, zone, COLON, COMMA, SP,
};

verus! {

/// The month names, letter by letter.
pub proof fn lemma_month_abbrevs()
    ensures
        month_abbrev(1) == seq!['J' as u8, 'a' as u8, 'n' as u8],
        month_abbrev(2) == seq!['F' as u8, 'e' as u8, 'b' as u8],
        month_abbrev(3) == seq!['M' as u8, 'a' as u8, 'r' as u8],
        month_abbrev(4) == seq!['A' as u8, 'p' as u8, 'r' as u8],
        month_abbrev(5) == seq!['M' as u8, 'a' as u8, 'y' as u8],
        month_abbrev(6) == seq!['J' as u8, 'u' as u8, 'n' as u8],
        month_abbrev(7) == seq!['J' as u8, 'u' as u8, 'l' as u8],
        month_abbrev(8) == seq!['A' as u8, 'u' as u8, 'g' as u8],
        month_abbrev(9) == seq!['S' as u8, 'e' as u8, 'p' as u8],
        month_abbrev(10) == seq!['O' as u8, 'c' as u8, 't' as u8],
        month_abbrev(11) == seq!['N' as u8, 'o' as u8, 'v' as u8],
        month_abbrev(12) == seq!['D' as u8, 'e' as u8, 'c' as u8],
{
    reveal_strlit("Jan");
    is_ascii_spec_bytes("Jan");
    reveal_strlit("Feb");
    is_ascii_spec_bytes("Feb");
    reveal_strlit("Mar");
    is_ascii_spec_bytes("Mar");
    reveal_strlit("Apr");
    is_ascii_spec_bytes("Apr");
    reveal_strlit("May");
    is_ascii_spec_bytes("May");
    reveal_strlit("Jun");
    is_ascii_spec_bytes("Jun");
    reveal_strlit("Jul");
    is_ascii_spec_bytes("Jul");
    reveal_strlit("Aug");
    is_ascii_spec_bytes("Aug");
    reveal_strlit("Sep");
    is_ascii_spec_bytes("Sep");
    reveal_strlit("Oct");
    is_ascii_spec_bytes("Oct");
    reveal_strlit("Nov");
    is_ascii_spec_bytes("Nov");
    reveal_strlit("Dec");
    is_ascii_spec_bytes("Dec");
    assert(month_abbrev(1) =~= seq!['J' as u8, 'a' as u8, 'n' as u8]);
    assert(month_abbrev(2) =~= seq!['F' as u8, 'e' as u8, 'b' as u8]);
    assert(month_abbrev(3) =~= seq!['M' as u8, 'a' as u8, 'r' as u8]);
    assert(month_abbrev(4) =~= seq!['A' as u8, 'p' as u8, 'r' as u8]);
    assert(month_abbrev(5) =~= seq!['M' as u8, 'a' as u8, 'y' as u8]);
    assert(month_abbrev(6) =~= seq!['J' as u8, 'u' as u8, 'n' as u8]);
    assert(month_abbrev(7) =~= seq!['J' as u8, 'u' as u8, 'l' as u8]);
    assert(month_abbrev(8) =~= seq!['A' as u8, 'u' as u8, 'g' as u8]);
    assert(month_abbrev(9) =~= seq!['S' as u8, 'e' as u8, 'p' as u8]);
    assert(month_abbrev(10) =~= seq!['O' as u8, 'c' as u8, 't' as u8]);
    assert(month_abbrev(11) =~= seq!['N' as u8, 'o' as u8, 'v' as u8]);
    assert(month_abbrev(12) =~= seq!['D' as u8, 'e' as u8, 'c' as u8]);
}

/// The weekday names, letter by letter.
pub proof fn lemma_weekday_names()
    ensures
        weekday_name(1) == seq!['M' as u8, 'o' as u8, 'n' as u8, 'd' as u8, 'a' as u8, 'y' as u8],
        weekday_name(2) == seq!['T' as u8, 'u' as u8, 'e' as u8, 's' as u8, 'd' as u8, 'a' as u8, 'y' as u8],
        weekday_name(3) == seq!['W' as u8, 'e' as u8, 'd' as u8, 'n' as u8, 'e' as u8, 's' as u8, 'd' as u8, 'a' as u8, 'y' as u8],
        weekday_name(4) == seq!['T' as u8, 'h' as u8, 'u' as u8, 'r' as u8, 's' as u8, 'd' as u8, 'a' as u8, 'y' as u8],
        weekday_name(5) == seq!['F' as u8, 'r' as u8, 'i' as u8, 'd' as u8, 'a' as u8, 'y' as u8],
        weekday_name(6) == seq!['S' as u8, 'a' as u8, 't' as u8, 'u' as u8, 'r' as u8, 'd' as u8, 'a' as u8, 'y' as u8],
        weekday_name(7) == seq!['S' as u8, 'u' as u8, 'n' as u8, 'd' as u8, 'a' as u8, 'y' as u8],
{
    reveal_strlit("Monday");
    is_ascii_spec_bytes("Monday");
    reveal_strlit("Tuesday");
    is_ascii_spec_bytes("Tuesday");
    reveal_strlit("Wednesday");
    is_ascii_spec_bytes("Wednesday");
    reveal_strlit("Thursday");
    is_ascii_spec_bytes("Thursday");
    reveal_strlit("Friday");
    is_ascii_spec_bytes("Friday");
    reveal_strlit("Saturday");
    is_ascii_spec_bytes("Saturday");
    reveal_strlit("Sunday");
    is_ascii_spec_bytes("Sunday");
    assert(weekday_name(1) =~= seq!['M' as u8, 'o' as u8, 'n' as u8, 'd' as u8, 'a' as u8, 'y' as u8]);
    assert(weekday_name(2) =~= seq!['T' as u8, 'u' as u8, 'e' as u8, 's' as u8, 'd' as u8, 'a' as u8, 'y' as u8]);
    assert(weekday_name(3) =~= seq!['W' as u8, 'e' as u8, 'd' as u8, 'n' as u8, 'e' as u8, 's' as u8, 'd' as u8, 'a' as u8, 'y' as u8]);
    assert(weekday_name(4) =~= seq!['T' as u8, 'h' as u8, 'u' as u8, 'r' as u8, 's' as u8, 'd' as u8, 'a' as u8, 'y' as u8]);
    assert(weekday_name(5) =~= seq!['F' as u8, 'r' as u8, 'i' as u8, 'd' as u8, 'a' as u8, 'y' as u8]);
    assert(weekday_name(6) =~= seq!['S' as u8, 'a' as u8, 't' as u8, 'u' as u8, 'r' as u8, 'd' as u8, 'a' as u8, 'y' as u8]);
    assert(weekday_name(7) =~= seq!['S' as u8, 'u' as u8, 'n' as u8, 'd' as u8, 'a' as u8, 'y' as u8]);
}

/// The zone's name, letter by letter.
pub proof fn lemma_zone()
    ensures
        zone() == seq!['G' as u8, 'M' as u8, 'T' as u8],
{
    reveal_strlit("GMT");
    is_ascii_spec_bytes("GMT");
    assert(zone() =~= seq!['G' as u8, 'M' as u8, 'T' as u8]);
}

/// Two columns hold the two digits of a number below 100, and only those.
pub proof fn lemma_two_digits(n: int, s: Seq<u8>)
    requires
        0 <= n <= 99,
    ensures
        two_digits(n).len() == 2,
        s == two_digits(n) <==> s.len() == 2 && is_digit(s[0]) && is_digit(s[1]) && n == 10
            * digit_value(s[0]) + digit_value(s[1]),
{
    if s.len() == 2 && s[0] == two_digits(n)[0] && s[1] == two_digits(n)[1] {
        assert(s =~= two_digits(n));
    }
}

/// The decimal digits of a number below 10000 are its quotients by the
/// powers of ten, each taken modulo ten.
pub proof fn lemma_decimal(a: int, b: int, c: int, d: int)
    requires
        0 <= a <= 9,
        0 <= b <= 9,
        0 <= c <= 9,
        0 <= d <= 9,
    ensures
        ({
            let n = 1000 * a + 100 * b + 10 * c + d;
            n / 1000 == a && n / 100 % 10 == b && n / 10 % 10 == c && n % 10 == d
        }),
{
    let n = 1000 * a + 100 * b + 10 * c + d;
    assert(n / 1000 == a);
    assert(n / 100 == 10 * a + b);
    assert(n / 10 == 100 * a + 10 * b + c);
}

/// Four columns hold the four digits of a number below 10000, and only those.
pub proof fn lemma_four_digits(n: int, s: Seq<u8>)
    requires
        0 <= n <= 9999,
    ensures
        four_digits(n).len() == 4,
        s == four_digits(n) <==> s.len() == 4 && is_digit(s[0]) && is_digit(s[1]) && is_digit(s[2])
            && is_digit(s[3]) && n == 1000 * digit_value(s[0]) + 100 * digit_value(s[1]) + 10
            * digit_value(s[2]) + digit_value(s[3]),
{
    let f = four_digits(n);
    let tens = n / 10;
    let hundreds = tens / 10;
    lemma_decimal(hundreds / 10, hundreds % 10, tens % 10, n % 10);
    if s.len() == 4 && is_digit(s[0]) && is_digit(s[1]) && is_digit(s[2]) && is_digit(s[3]) && n
        == 1000 * digit_value(s[0]) + 100 * digit_value(s[1]) + 10 * digit_value(s[2])
        + digit_value(s[3]) {
        lemma_decimal(digit_value(s[0]), digit_value(s[1]), digit_value(s[2]), digit_value(s[3]));
        assert(s =~= f);
    }
}

/// The time of day takes eight columns: two digits, a colon, two digits, a
/// colon, two digits.
pub proof fn lemma_time_of_day(t: DateTime, s: Seq<u8>)
    requires
        t.hour <= 99,
        t.min <= 99,
        t.sec <= 99,
    ensures
        time_of_day(t).len() == 8,
        s == time_of_day(t) <==> s.len() == 8 && s.subrange(0, 2) == two_digits(t.hour as int)
            && s[2] == COLON && s.subrange(3, 5) == two_digits(t.min as int) && s[5] == COLON
            && s.subrange(6, 8) == two_digits(t.sec as int),
{
    let h = two_digits(t.hour as int);
    let m = two_digits(t.min as int);
    let x = two_digits(t.sec as int);
    let d = time_of_day(t);
    assert(d.subrange(0, 2) =~= h);
    assert(d.subrange(3, 5) =~= m);
    assert(d.subrange(6, 8) =~= x);
    if s.len() == 8 && s.subrange(0, 2) == h && s[2] == COLON && s.subrange(3, 5) == m && s[5]
        == COLON && s.subrange(6, 8) == x {
        assert(s[0] == s.subrange(0, 2)[0]);
        assert(s[1] == s.subrange(0, 2)[1]);
        assert(s[3] == s.subrange(3, 5)[0]);
        assert(s[4] == s.subrange(3, 5)[1]);
        assert(s[6] == s.subrange(6, 8)[0]);
        assert(s[7] == s.subrange(6, 8)[1]);
        assert(s =~= d);
    }
}

/// Every weekday and month has a three-letter abbreviation, and the zone has
/// three letters too.
pub proof fn lemma_token_lengths(wday: int, mon: int)
    ensures
        weekday_name(wday).len() >= 6,
        weekday_abbrev(wday).len() == 3,
        month_abbrev(mon).len() == 3,
        zone().len() == 3,
{
    lemma_weekday_names();
    lemma_month_abbrevs();
    lemma_zone();
}

/// An IMF-fixdate has 29 columns, and a text is one exactly when each field
/// stands in its columns.
pub proof fn lemma_imf_fixdate_fields(s: Seq<u8>, t: DateTime)
    requires
        t.fits(),
    ensures
        imf_fixdate(t).len() == 29,
        s == imf_fixdate(t) <==> {
            &&& s.len() == 29
            &&& s.subrange(0, 3) == weekday_abbrev(t.wday as int)
            &&& s[3] == COMMA
            &&& s[4] == SP
            &&& s.subrange(5, 7) == two_digits(t.day as int)
            &&& s[7] == SP
            &&& s.subrange(8, 11) == month_abbrev(t.mon as int)
            &&& s[11] == SP
            &&& s.subrange(12, 16) == four_digits(t.year as int)
            &&& s[16] == SP
            &&& s.subrange(17, 25) == time_of_day(t)
            &&& s[25] == SP
            &&& s.subrange(26, 29) == zone()
        },
{
    lemma_token_lengths(t.wday as int, t.mon as int);
    lemma_time_of_day(t, s);
    let f = imf_fixdate(t);
    assert(f.len() == 29);
    assert(f.subrange(0, 3) =~= weekday_abbrev(t.wday as int));
    assert(f.subrange(5, 7) =~= two_digits(t.day as int));
    assert(f.subrange(8, 11) =~= month_abbrev(t.mon as int));
    assert(f.subrange(12, 16) =~= four_digits(t.year as int));
    assert(f.subrange(17, 25) =~= time_of_day(t));
    assert(f.subrange(26, 29) =~= zone());
    if s.len() == 29 {
        assert(s =~= s.subrange(0, 3) + seq![s[3], s[4]] + s.subrange(5, 7) + seq![s[7]]
            + s.subrange(8, 11) + seq![s[11]] + s.subrange(12, 16) + seq![s[16]] + s.subrange(
            17,
            25,
        ) + seq![s[25]] + s.subrange(26, 29));
    }
}

/// No two months share an abbreviation.
pub proof fn lemma_month_abbrev_injective(m1: int, m2: int)
    requires
        1 <= m1 <= 12,
        1 <= m2 <= 12,
        month_abbrev(m1) == month_abbrev(m2),
    ensures
        m1 == m2,
{
    lemma_month_abbrevs();
    let a = month_abbrev(m1);
    let b = month_abbrev(m2);
    assert(a[0] == b[0] && a[1] == b[1] && a[2] == b[2]);
}

/// No two weekdays share an abbreviation.
pub proof fn lemma_weekday_abbrev_injective(w1: int, w2: int)
    requires
        1 <= w1 <= 7,
        1 <= w2 <= 7,
        weekday_abbrev(w1) == weekday_abbrev(w2),
    ensures
        w1 == w2,
{
    lemma_weekday_names();
    let a = weekday_name(w1);
    let b = weekday_name(w2);
    assert(a[0] == weekday_abbrev(w1)[0] && a[1] == weekday_abbrev(w1)[1]);
    assert(b[0] == weekday_abbrev(w2)[0] && b[1] == weekday_abbrev(w2)[1]);
}

/// Two columns of a text hold the two digits of `n` exactly when they are
/// digits that stand for `n`.
pub proof fn lemma_two_at(s: Seq<u8>, i: int, n: int)
    requires
        0 <= n <= 99,
        0 <= i,
        i + 2 <= s.len(),
    ensures
        s.subrange(i, i + 2) == two_digits(n) <==> two_at(s, i, n),
{
    let w = s.subrange(i, i + 2);
    lemma_two_digits(n, w);
    assert(w[0] == s[i] && w[1] == s[i + 1]);
}

/// Four columns of a text hold the four digits of `n` exactly when they are
/// digits that stand for `n`.
pub proof fn lemma_four_at(s: Seq<u8>, i: int, n: int)
    requires
        0 <= n <= 9999,
        0 <= i,
        i + 4 <= s.len(),
    ensures
        s.subrange(i, i + 4) == four_digits(n) <==> four_at(s, i, n),
{
    let w = s.subrange(i, i + 4);
    lemma_four_digits(n, w);
    assert(w[0] == s[i] && w[1] == s[i + 1] && w[2] == s[i + 2] && w[3] == s[i + 3]);
}

/// Eight columns of a text hold the time of day of `t` exactly when they
/// hold its hour, minute and second with a colon between them.
pub proof fn lemma_time_at(s: Seq<u8>, i: int, t: DateTime)
    requires
        t.hour <= 99,
        t.min <= 99,
        t.sec <= 99,
        0 <= i,
        i + 8 <= s.len(),
    ensures
        s.subrange(i, i + 8) == time_of_day(t) <==> time_at(s, i, t),
{
    let w = s.subrange(i, i + 8);
    lemma_time_of_day(t, w);
    lemma_two_at(s, i, t.hour as int);
    lemma_two_at(s, i + 3, t.min as int);
    lemma_two_at(s, i + 6, t.sec as int);
    assert(w.subrange(0, 2) =~= s.subrange(i, i + 2));
    assert(w.subrange(3, 5) =~= s.subrange(i + 3, i + 5));
    assert(w.subrange(6, 8) =~= s.subrange(i + 6, i + 8));
    assert(w[2] == s[i + 2] && w[5] == s[i + 5]);
}

/// A text is the IMF-fixdate of `t` exactly when each column holds what it
/// should.
pub proof fn lemma_imf_fixdate_columns(s: Seq<u8>, t: DateTime)
    requires
        t.fits(),
    ensures
        s == imf_fixdate(t) <==> imf_fixdate_columns(s, t),
{
    lemma_imf_fixdate_fields(s, t);
    if s.len() == 29 {
        lemma_two_at(s, 5, t.day as int);
        lemma_four_at(s, 12, t.year as int);
        lemma_time_at(s, 17, t);
    }
}

/// Two dates with one IMF-fixdate are one date.
pub proof fn lemma_imf_fixdate_injective(t: DateTime, u: DateTime)
    requires
        t.fits(),
        u.fits(),
        imf_fixdate(t) == imf_fixdate(u),
    ensures
        t == u,
{
    let s = imf_fixdate(t);
    lemma_imf_fixdate_columns(s, t);
    lemma_imf_fixdate_columns(s, u);
    lemma_month_abbrev_injective(t.mon as int, u.mon as int);
    lemma_weekday_abbrev_injective(t.wday as int, u.wday as int);
}

/// An asctime has 24 columns, and a text is one exactly when each field
/// stands in its columns.
proof fn lemma_asctime_fields(s: Seq<u8>, t: DateTime, padded: bool)
    requires
        t.fits(),
    ensures
        asctime(t, padded).len() == 24,
        s == asctime(t, padded) <==> {
            &&& s.len() == 24
            &&& s.subrange(0, 3) == weekday_abbrev(t.wday as int)
            &&& s[3] == SP
            &&& s.subrange(4, 7) == month_abbrev(t.mon as int)
            &&& s[7] == SP
            &&& if padded {
                s[8] == SP && s[9] == digit(t.day as int)
            } else {
                s.subrange(8, 10) == two_digits(t.day as int)
            }
            &&& s[10] == SP
            &&& s.subrange(11, 19) == time_of_day(t)
            &&& s[19] == SP
            &&& s.subrange(20, 24) == four_digits(t.year as int)
        },
{
    lemma_token_lengths(t.wday as int, t.mon as int);
    lemma_time_of_day(t, s);
    let f = asctime(t, padded);
    assert(f.len() == 24);
    assert(f.subrange(0, 3) =~= weekday_abbrev(t.wday as int));
    assert(f.subrange(4, 7) =~= month_abbrev(t.mon as int));
    if !padded {
        assert(f.subrange(8, 10) =~= two_digits(t.day as int));
    }
    assert(f.subrange(11, 19) =~= time_of_day(t));
    assert(f.subrange(20, 24) =~= four_digits(t.year as int));
    if s.len() == 24 {
        assert(s =~= s.subrange(0, 3) + seq![s[3]] + s.subrange(4, 7) + seq![s[7]] + s.subrange(
            8,
            10,
        ) + seq![s[10]] + s.subrange(11, 19) + seq![s[19]] + s.subrange(20, 24));
        assert(s.subrange(8, 10) =~= seq![s[8], s[9]]);
    }
}

/// A text is the asctime of `t` exactly when each column holds what it
/// should.
pub proof fn lemma_asctime_columns(s: Seq<u8>, t: DateTime)
    requires
        t.fits(),
    ensures
        spells_asctime(s, t) <==> asctime_columns(s, t),
{
    lemma_asctime_fields(s, t, false);
    lemma_asctime_fields(s, t, true);
    if s.len() == 24 {
        lemma_two_at(s, 8, t.day as int);
        lemma_time_at(s, 11, t);
        lemma_four_at(s, 20, t.year as int);
    }
}

/// Two dates with one asctime are one date.
pub proof fn lemma_asctime_injective(s: Seq<u8>, t: DateTime, u: DateTime)
    requires
        spells_asctime(s, t),
        spells_asctime(s, u),
    ensures
        t == u,
{
    lemma_asctime_columns(s, t);
    lemma_asctime_columns(s, u);
    lemma_month_abbrev_injective(t.mon as int, u.mon as int);
    lemma_weekday_abbrev_injective(t.wday as int, u.wday as int);
}

/// An RFC 850 date has 22 columns after the weekday's name, comma and space,
/// and a text is one exactly when each column holds what it should.
pub proof fn lemma_rfc850_date_columns(s: Seq<u8>, t: DateTime)
    requires
        t.fits(),
    ensures
        rfc850_date(t).len() == weekday_name(t.wday as int).len() + 24,
        s == rfc850_date(t) <==> rfc850_date_columns(s, t),
{
    lemma_token_lengths(t.wday as int, t.mon as int);
    let name = weekday_name(t.wday as int);
    let k = name.len() as int + 2;
    let f = rfc850_date(t);
    assert(f.len() == k + 22);
    assert(f.subrange(0, k - 2) =~= name);
    assert(f.subrange(k, k + 2) =~= two_digits(t.day as int));
    assert(f.subrange(k + 3, k + 6) =~= month_abbrev(t.mon as int));
    assert(f.subrange(k + 7, k + 9) =~= two_digits(t.year as int % 100));
    assert(f.subrange(k + 10, k + 18) =~= time_of_day(t));
    assert(f.subrange(k + 19, k + 22) =~= zone());
    if s.len() == k + 22 {
        lemma_two_at(s, k, t.day as int);
        lemma_two_at(s, k + 7, t.year as int % 100);
        lemma_time_at(s, k + 10, t);
        assert(s =~= s.subrange(0, k - 2) + seq![s[k - 2], s[k - 1]] + s.subrange(k, k + 2)
            + seq![s[k + 2]] + s.subrange(k + 3, k + 6) + seq![s[k + 6]] + s.subrange(
            k + 7,
            k + 9,
        ) + seq![s[k + 9]] + s.subrange(k + 10, k + 18) + seq![s[k + 18]] + s.subrange(
            k + 19,
            k + 22,
        ));
    }
}

/// A text begins with the name of at most one weekday.
pub proof fn lemma_weekday_name_prefix(s: Seq<u8>, w1: int, w2: int)
    requires
        1 <= w1 <= 7,
        1 <= w2 <= 7,
        weekday_name(w1).len() <= s.len(),
        weekday_name(w2).len() <= s.len(),
        s.subrange(0, weekday_name(w1).len() as int) == weekday_name(w1),
        s.subrange(0, weekday_name(w2).len() as int) == weekday_name(w2),
    ensures
        w1 == w2,
{
    lemma_weekday_names();
    let a = s.subrange(0, weekday_name(w1).len() as int);
    let b = s.subrange(0, weekday_name(w2).len() as int);
    assert(a[0] == s[0] && a[1] == s[1]);
    assert(b[0] == s[0] && b[1] == s[1]);
}

/// Two dates with one RFC 850 date are one date.
pub proof fn lemma_rfc850_date_injective(s: Seq<u8>, t: DateTime, u: DateTime)
    requires
        spells_rfc850_date(s, t),
        spells_rfc850_date(s, u),
    ensures
        t == u,
{
    lemma_token_lengths(t.wday as int, t.mon as int);
    lemma_token_lengths(u.wday as int, u.mon as int);
    lemma_rfc850_date_columns(s, t);
    lemma_rfc850_date_columns(s, u);
    lemma_weekday_name_prefix(s, t.wday as int, u.wday as int);
    lemma_month_abbrev_injective(t.mon as int, u.mon as int);
}

/// Once `s` is known to begin with the name of weekday `wday`, it is the
/// RFC 850 date of `t` exactly when `t` has that weekday and the 22 columns
/// after the name hold the rest of `t`.
pub proof fn lemma_rfc850_date_after_weekday(s: Seq<u8>, wday: int, k: int, t: DateTime)
    requires
        1 <= wday <= 7,
        begins_with_weekday(s, wday),
        k == weekday_name(wday).len() + 2,
        t.fits(),
    ensures
        spells_rfc850_date(s, t) <==> {
            &&& t.wday == wday
            &&& t.year == rfc850_year(t.year as int % 100)
            &&& rfc850_date_tail(s, k, t)
        },
{
    lemma_token_lengths(t.wday as int, t.mon as int);
    lemma_token_lengths(wday, t.mon as int);
    lemma_rfc850_date_columns(s, t);
    if rfc850_date_columns(s, t) {
        lemma_weekday_name_prefix(s, t.wday as int, wday);
    }
}

/// A text that begins with the name of no weekday is no RFC 850 date.
pub proof fn lemma_rfc850_date_begins(s: Seq<u8>, t: DateTime)
    requires
        spells_rfc850_date(s, t),
    ensures
        begins_with_weekday(s, t.wday as int),
{
    lemma_rfc850_date_columns(s, t);
}

/// Two dates with the same 22 columns after the weekday, and the same
/// weekday, are one date.
pub proof fn lemma_rfc850_date_tail_injective(s: Seq<u8>, k: int, t: DateTime, u: DateTime)
    requires
        t.fits(),
        u.fits(),
        rfc850_date_tail(s, k, t),
        rfc850_date_tail(s, k, u),
        t.wday == u.wday,
        t.year == rfc850_year(t.year as int % 100),
        u.year == rfc850_year(u.year as int % 100),
    ensures
        t == u,
{
    lemma_month_abbrev_injective(t.mon as int, u.mon as int);
}

/// A text spells at most one date, whatever the format.
pub proof fn lemma_spells_unique(s: Seq<u8>, t: DateTime, u: DateTime)
    requires
        spells(s, t),
        spells(s, u),
    ensures
        t == u,
{
    lemma_token_lengths(t.wday as int, t.mon as int);
    lemma_token_lengths(u.wday as int, u.mon as int);
    lemma_imf_fixdate_columns(s, t);
    lemma_imf_fixdate_columns(s, u);
    lemma_rfc850_date_columns(s, t);
    lemma_rfc850_date_columns(s, u);
    lemma_asctime_columns(s, t);
    lemma_asctime_columns(s, u);
    if spells_imf_fixdate(s, t) {
        lemma_imf_fixdate_injective(t, u);
    } else if spells_rfc850_date(s, t) {
        lemma_rfc850_date_injective(s, t, u);
    } else {
        lemma_asctime_injective(s, t, u);
    }
}

/// Trimming takes only ASCII away.
pub proof fn lemma_trimmed_ascii(s: Seq<u8>)
    requires
        is_ascii_bytes(trimmed(s)),
    ensures
        is_ascii_bytes(s),
{
    lemma_trim_end_ascii(trim_start(s));
    lemma_trim_start_ascii(s);
}

/// Trimming the start takes only ASCII away.
proof fn lemma_trim_start_ascii(s: Seq<u8>)
    requires
        is_ascii_bytes(trim_start(s)),
    ensures
        is_ascii_bytes(s),
    decreases s.len(),
{
    if s.len() > 0 && is_space(s[0]) {
        let rest = s.drop_first();
        lemma_trim_start_ascii(rest);
        assert forall|i: int| 0 <= i < s.len() implies s[i] <= 0x7f by {
            if i > 0 {
                assert(s[i] == rest[i - 1]);
            }
        }
    }
}

/// Trimming the end takes only ASCII away.
proof fn lemma_trim_end_ascii(s: Seq<u8>)
    requires
        is_ascii_bytes(trim_end(s)),
    ensures
        is_ascii_bytes(s),
    decreases s.len(),
{
    if s.len() > 0 && is_space(s.last()) {
        let rest = s.drop_last();
        lemma_trim_end_ascii(rest);
        assert forall|i: int| 0 <= i < s.len() implies s[i] <= 0x7f by {
            if i < s.len() - 1 {
                assert(s[i] == rest[i]);
            }
        }
    }
}

/// The names of weekdays and months, and that of the zone, are ASCII.
pub proof fn lemma_tokens_ascii(wday: int, mon: int)
    ensures
        is_ascii_bytes(weekday_name(wday)),
        is_ascii_bytes(weekday_abbrev(wday)),
        is_ascii_bytes(month_abbrev(mon)),
        is_ascii_bytes(zone()),
{
    lemma_weekday_names();
    lemma_month_abbrevs();
    lemma_zone();
    let w = weekday_name(wday);
    let a = weekday_abbrev(wday);
    assert(is_ascii_bytes(w));
    assert forall|i: int| 0 <= i < a.len() implies a[i] <= 0x7f by {
        assert(a[i] == w[i]);
    }
}

/// Where columns `from` to `to` of `s` hold ASCII, column `i` among them
/// does.
proof fn lemma_ascii_within(s: Seq<u8>, from: int, to: int, i: int)
    requires
        0 <= from <= i < to <= s.len(),
        is_ascii_bytes(s.subrange(from, to)),
    ensures
        s[i] <= 0x7f,
{
    assert(s[i] == s.subrange(from, to)[i - from]);
}

/// Every byte of an IMF-fixdate is ASCII.
pub proof fn lemma_imf_fixdate_ascii(t: DateTime)
    requires
        t.fits(),
    ensures
        is_ascii_bytes(imf_fixdate(t)),
{
    let s = imf_fixdate(t);
    lemma_tokens_ascii(t.wday as int, t.mon as int);
    lemma_imf_fixdate_columns(s, t);
    assert forall|i: int| 0 <= i < s.len() implies s[i] <= 0x7f by {
        if i < 3 {
            lemma_ascii_within(s, 0, 3, i);
        } else if 8 <= i < 11 {
            lemma_ascii_within(s, 8, 11, i);
        } else if 26 <= i {
            lemma_ascii_within(s, 26, 29, i);
        }
    }
}

/// Every byte of an RFC 850 date is ASCII.
pub proof fn lemma_rfc850_date_ascii(t: DateTime)
    requires
        t.fits(),
    ensures
        is_ascii_bytes(rfc850_date(t)),
{
    let s = rfc850_date(t);
    lemma_tokens_ascii(t.wday as int, t.mon as int);
    lemma_rfc850_date_columns(s, t);
    let k = weekday_name(t.wday as int).len() as int + 2;
    assert forall|i: int| 0 <= i < s.len() implies s[i] <= 0x7f by {
        if i < k - 2 {
            lemma_ascii_within(s, 0, k - 2, i);
        } else if k + 3 <= i < k + 6 {
            lemma_ascii_within(s, k + 3, k + 6, i);
        } else if k + 19 <= i {
            lemma_ascii_within(s, k + 19, k + 22, i);
        }
    }
}

/// A text with the columns of an asctime is ASCII.
proof fn lemma_asctime_columns_ascii(s: Seq<u8>, t: DateTime)
    requires
        asctime_columns(s, t),
        is_ascii_bytes(weekday_abbrev(t.wday as int)),
        is_ascii_bytes(month_abbrev(t.mon as int)),
    ensures
        is_ascii_bytes(s),
{
    assert forall|i: int| 0 <= i < s.len() implies s[i] <= 0x7f by {
        if i < 3 {
            lemma_ascii_within(s, 0, 3, i);
        } else if 4 <= i < 7 {
            lemma_ascii_within(s, 4, 7, i);
        }
    }
}

/// Every byte of an asctime is ASCII.
pub proof fn lemma_asctime_ascii(s: Seq<u8>, t: DateTime)
    requires
        spells_asctime(s, t),
    ensures
        is_ascii_bytes(s),
{
    lemma_tokens_ascii(t.wday as int, t.mon as int);
    lemma_asctime_columns(s, t);
    lemma_asctime_columns_ascii(s, t);
}

/// Every byte of a date in one of the three formats is ASCII.
pub proof fn lemma_spells_ascii(s: Seq<u8>, t: DateTime)
    requires
        spells(s, t),
    ensures
        is_ascii_bytes(s),
{
    if spells_imf_fixdate(s, t) {
        lemma_imf_fixdate_ascii(t);
    } else if spells_rfc850_date(s, t) {
        lemma_rfc850_date_ascii(t);
    } else {
        lemma_asctime_ascii(s, t);
    }
}

} // verus!
