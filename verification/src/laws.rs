//! What holds of the library as a whole, proved from the contracts and the
//! model.
use std::cmp::Ordering;
use vstd::prelude::*;
use vstd::std_specs::cmp::PartialOrdSpec;
use vstd::utf8::encode_utf8;

use crate::calendar::{
    days_before_year, lemma_day_number_bounds, lemma_day_number_grows, lemma_days_before_month,
    lemma_days_before_year, month_length, SECS_END,
};
use crate::date::HttpDate;
use crate::datetime::{
    date_at, lemma_date_at, lemma_date_at_valid, lemma_secs_injective, DateTime,
};
use crate::format::{lemma_text_of, text_of};
use crate::layout::{
    lemma_imf_fixdate_ascii, lemma_imf_fixdate_columns, lemma_imf_fixdate_fields,
    lemma_spells_unique, lemma_weekday_names, lemma_zone,
};
use crate::order::order_of;
use crate::text::{
    denotes, imf_fixdate, imf_fixdate_columns, is_ascii_bytes, is_space, spells, trimmed,
};

verus! {

/// An IMF-fixdate has no white space around it.
pub proof fn lemma_imf_fixdate_trimmed(t: DateTime)
    requires
        t.fits(),
    ensures
        trimmed(imf_fixdate(t)) == imf_fixdate(t),
{
    let s = imf_fixdate(t);
    lemma_imf_fixdate_columns(s, t);
    lemma_weekday_names();
    lemma_zone();
    assert(s[0] == s.subrange(0, 3)[0]);
    assert(s[28] == s.subrange(26, 29)[2]);
    assert(!is_space(s[0]));
    assert(!is_space(s.last()));
}

/// Format stability: the formatter writes exactly 29 bytes, all of them
/// ASCII, and each column holds what the IMF-fixdate grammar puts there.
pub proof fn law_format_shape(t: DateTime)
    requires
        t.valid(),
    ensures
        imf_fixdate(t).len() == 29,
        is_ascii_bytes(imf_fixdate(t)),
        imf_fixdate_columns(imf_fixdate(t), t),
{
    lemma_imf_fixdate_fields(imf_fixdate(t), t);
    lemma_imf_fixdate_columns(imf_fixdate(t), t);
    lemma_imf_fixdate_ascii(t);
}

/// Round trip of dates: what the formatter writes of a valid date holds that
/// date, and no other.
pub proof fn law_format_then_parse(t: DateTime)
    requires
        t.valid(),
    ensures
        forall|u: DateTime| #[trigger] denotes(imf_fixdate(t), u) <==> u == t,
{
    lemma_imf_fixdate_trimmed(t);
    assert(spells(imf_fixdate(t), t));
    assert forall|u: DateTime| #[trigger] denotes(imf_fixdate(t), u) implies u == t by {
        lemma_spells_unique(imf_fixdate(t), t, u);
    }
}

/// Round trip of instants: the text that the formatter writes of the instant
/// `secs` holds the date of that instant and of no other, so that parsing it
/// gives `secs` back.
pub proof fn law_round_trip(secs: int)
    requires
        0 <= secs < SECS_END,
    ensures
        forall|u: DateTime| #[trigger]
            denotes(encode_utf8(text_of(imf_fixdate(date_at(secs)))), u) <==> u.valid() && u.secs()
                == secs,
{
    let t = date_at(secs);
    lemma_date_at_valid(secs);
    law_format_then_parse(t);
    lemma_imf_fixdate_ascii(t);
    lemma_text_of(imf_fixdate(t));
    assert forall|u: DateTime| u.valid() && u.secs() == secs implies u == t by {
        lemma_secs_injective(u, t);
    }
}

/// `t` comes before `u`, field by field from the year down to the second.
pub open spec fn fields_before(t: DateTime, u: DateTime) -> bool {
    t.year < u.year || (t.year == u.year && (t.mon < u.mon || (t.mon == u.mon && (t.day < u.day
        || (t.day == u.day && (t.hour < u.hour || (t.hour == u.hour && (t.min < u.min || (t.min
        == u.min && t.sec < u.sec)))))))))
}

/// Among valid dates, the order of the fields is the order of the instants.
pub proof fn law_fields_order(t: DateTime, u: DateTime)
    requires
        t.valid(),
        u.valid(),
    ensures
        fields_before(t, u) <==> t.secs() < u.secs(),
{
    if fields_before(t, u) {
        lemma_fields_order(t, u);
    } else if fields_before(u, t) {
        lemma_fields_order(u, t);
    } else {
        assert(t.secs() == u.secs());
    }
}

proof fn lemma_fields_order(t: DateTime, u: DateTime)
    requires
        t.valid(),
        u.valid(),
        fields_before(t, u),
    ensures
        t.secs() < u.secs(),
{
    if t.year < u.year || (t.year == u.year && (t.mon < u.mon || (t.mon == u.mon && t.day
        < u.day))) {
        lemma_day_number_grows(
            t.year as int,
            t.mon as int,
            t.day as int,
            u.year as int,
            u.mon as int,
            u.day as int,
        );
    }
}

/// Ordering matches chronological order: of two instants, the date of the
/// earlier one is less than the date of the later one.
pub proof fn law_chronological_order(x: int, y: int, a: HttpDate, b: HttpDate)
    requires
        0 <= x < y < SECS_END,
        a@ == date_at(x),
        b@ == date_at(y),
    ensures
        order_of(a@.secs(), b@.secs()) == Ordering::Less,
        a.partial_cmp_spec(&b) == Some(Ordering::Less),
        b.partial_cmp_spec(&a) == Some(Ordering::Greater),
        a.partial_cmp_spec(&a) == Some(Ordering::Equal),
        fields_before(a@, b@),
{
    lemma_date_at_valid(x);
    lemma_date_at_valid(y);
    law_fields_order(a@, b@);
}

/// The day after that of `t`, at the same time of day.
pub open spec fn next_day(t: DateTime) -> DateTime {
    let last = t.day == month_length(t.year as int, t.mon as int);
    DateTime {
        year: if last && t.mon == 12 {
            (t.year + 1) as u16
        } else {
            t.year
        },
        mon: if !last {
            t.mon
        } else if t.mon == 12 {
            1
        } else {
            (t.mon + 1) as u8
        },
        day: if last {
            1
        } else {
            (t.day + 1) as u8
        },
        hour: t.hour,
        min: t.min,
        sec: t.sec,
        wday: (t.wday % 7 + 1) as u8,
    }
}

/// Adding exactly 86400 seconds to an instant advances its date and its
/// weekday by exactly one day, and leaves the time of day as it is.
pub proof fn law_next_day(secs: int)
    requires
        0 <= secs,
        secs + 86_400 < SECS_END,
    ensures
        date_at(secs + 86_400) == next_day(date_at(secs)),
{
    lemma_date_at_valid(secs);
    let t = date_at(secs);
    let u = next_day(t);
    let (y, m, d) = (t.year as int, t.mon as int, t.day as int);
    lemma_day_number_bounds(y, m, d);
    lemma_days_before_month(y, m);
    lemma_days_before_month(y, m + 1);
    if m == 12 && d == 31 {
        assert(u.day_number() == days_before_year(y + 1));
        if y == 9999 {
            lemma_days_before_year(10000);
        }
    }
    assert(u.day_number() == t.day_number() + 1);
    assert(u.valid());
    lemma_date_at(u);
}

} // verus!
