//! The HTTP timestamp type.
use vstd::prelude::*;
use vstd::string::*;

use crate::calendar::SECS_END;
use crate::datetime::{date_at, lemma_date_at, DateTime};
use crate::format::{ascii_string, imf_fixdate_bytes, text_of};
use crate::gregorian::{date_to_weekday, datetime_to_secs, secs_to_datetime};
use crate::layout::{lemma_imf_fixdate_ascii, lemma_spells_ascii, lemma_trimmed_ascii};
use crate::parse::{is_ascii, parse_date, trim};
use crate::text::{denotes, imf_fixdate, trimmed};
use crate::Error;

verus! {

/// HTTP timestamp type: a second of the years 1970 to 9999, in GMT.
///
/// Parse with [`HttpDate::from_str`] or [`HttpDate::try_from`], format with
/// [`HttpDate::to_string`], and convert from and to seconds since the epoch
/// with [`HttpDate::from_secs`] and [`HttpDate::to_secs`]. Dates compare as
/// their instants do.
///
/// Every value is valid: the fields name a second of the calendar, and the
/// weekday is that of the day. Among valid dates the order of the fields,
/// which a sort by `Ord` goes by, is the order of the instants, which
/// [`HttpDate::cmp`] and `<` go by: see [`crate::laws::law_fields_order`].
#[derive(Copy, Clone, Debug, PartialEq, Eq, Hash, Ord)]
pub struct HttpDate {
    civil: DateTime,
}

impl View for HttpDate {
    type V = DateTime;

    /// The fields of the date.
    closed spec fn view(&self) -> DateTime {
        self.civil
    }
}

impl HttpDate {
    /// What holds of every date that executable code can hold.
    #[verifier::type_invariant]
    spec fn well_formed(self) -> bool {
        self.civil.valid()
    }

    /// The date with the fields `t`, if `t` is valid.
    pub fn new(t: DateTime) -> (r: Result<HttpDate, Error>)
        ensures
            r is Ok <==> t.valid(),
            r matches Ok(d) ==> d@ == t,
    {
        if t.is_valid() {
            Ok(HttpDate { civil: t })
        } else {
            Err(Error(()))
        }
    }

    /// The fields of the date, which are valid.
    pub fn datetime(&self) -> (t: DateTime)
        ensures
            t == self@,
            t.valid(),
    {
        proof {
            use_type_invariant(self);
        }
        self.civil
    }

    /// The date of the instant `secs` seconds after the epoch, which must lie
    /// before the year 10000.
    pub fn from_secs(secs: u64) -> (d: HttpDate)
        requires
            secs < SECS_END,
        ensures
            d@.valid(),
            d@.secs() == secs,
            d@ == date_at(secs as int),
    {
        let (year, mon, day, hour, min, sec) = secs_to_datetime(secs);
        let wday = date_to_weekday(year, mon, day);
        let civil = DateTime { year, mon, day, hour, min, sec, wday };
        proof {
            lemma_date_at(civil);
        }
        HttpDate { civil }
    }

    /// The instant of the date, in seconds after the epoch.
    pub fn to_secs(&self) -> (secs: u64)
        ensures
            secs == self@.secs(),
            secs < SECS_END,
            self@ == date_at(secs as int),
    {
        proof {
            use_type_invariant(self);
            lemma_date_at(self.civil);
        }
        let t = &self.civil;
        datetime_to_secs(t.year, t.mon, t.day, t.hour, t.min, t.sec)
    }

    /// The date that `bytes` hold: between white space, a valid date in one
    /// of the three formats. Bytes that are not ASCII are refused before
    /// anything else is looked at.
    pub fn try_from(bytes: &[u8]) -> (r: Result<HttpDate, Error>)
        ensures
            match r {
                Ok(d) => forall|u: DateTime| #[trigger] denotes(bytes@, u) <==> u == d@,
                Err(_) => forall|u: DateTime| !#[trigger] denotes(bytes@, u),
            },
    {
        if !is_ascii(bytes) {
            proof {
                assert forall|u: DateTime| !#[trigger] denotes(bytes@, u) by {
                    if denotes(bytes@, u) {
                        lemma_spells_ascii(trimmed(bytes@), u);
                        lemma_trimmed_ascii(bytes@);
                    }
                }
            }
            return Err(Error(()));
        }
        let t = parse_date(trim(bytes))?;
        HttpDate::new(t)
    }

    /// The date as an IMF-fixdate, such as `Sun, 06 Nov 1994 08:49:37 GMT`.
    pub fn to_string(&self) -> (s: String)
        ensures
            s@ == text_of(imf_fixdate(self@)),
    {
        proof {
            use_type_invariant(self);
            lemma_imf_fixdate_ascii(self.civil);
        }
        ascii_string(imf_fixdate_bytes(&self.civil))
    }
}

impl std::str::FromStr for HttpDate {
    type Err = Error;

    /// The date that `s` holds: see [`HttpDate::try_from`].
    fn from_str(s: &str) -> (r: Result<HttpDate, Error>)
        ensures
            match r {
                Ok(d) => forall|u: DateTime| #[trigger] denotes(s.spec_bytes(), u) <==> u == d@,
                Err(_) => forall|u: DateTime| !#[trigger] denotes(s.spec_bytes(), u),
            },
    {
        HttpDate::try_from(s.as_bytes())
    }
}

} // verus!
