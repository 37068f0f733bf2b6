//! Date and time utils for HTTP.
//!
//! Multiple HTTP header fields store timestamps. A response created on
//! May 15, 2015 may contain the header `Date: Fri, 15 May 2015 15:34:21 GMT`.
//! The timestamp names neither a time zone nor a leap second, so it is
//! equivalent to the Unix time 1431704061. Instants are therefore plain
//! counts of seconds since 1970-01-01T00:00:00Z.
//!
//! Every function of the crate carries a contract, and Verus proves each
//! body against it.
use std::str::FromStr;
use vstd::prelude::*;
use vstd::string::*;
use vstd::utf8::is_ascii_chars;

use crate::calendar::SECS_END;
use crate::datetime::{date_at, lemma_date_at_valid, lemma_secs_injective};
use crate::format::text_of;
use crate::layout::{lemma_imf_fixdate_ascii, lemma_imf_fixdate_fields};
use crate::text::{denotes, imf_fixdate};

pub use crate::date::HttpDate;
pub use crate::datetime::DateTime;

pub mod calendar;
pub mod date;
pub mod datetime;
pub mod format;
mod gregorian;
pub mod laws;
pub mod layout;
pub mod order;
pub mod parse;
pub mod text;

verus! {

/// An opaque error type for all parsing errors: the text holds no date, or
/// one that the calendar does not have.
#[derive(Debug)]
pub struct Error(pub(crate) ());

/// Parse a date from an HTTP header field.
///
/// Supports the preferred IMF-fixdate and the legacy RFC 850 and asctime
/// formats. Two digit years are mapped to dates between 1970 and 2069. The
/// result is the instant of the date, in seconds since the epoch.
pub fn parse_http_date(s: &str) -> (r: Result<u64, Error>)
    ensures
        match r {
            Ok(secs) => secs < SECS_END && forall|u: DateTime| #[trigger]
                denotes(s.spec_bytes(), u) <==> u.valid() && u.secs() == secs,
            Err(_) => forall|u: DateTime| !#[trigger] denotes(s.spec_bytes(), u),
        },
{
    match HttpDate::from_str(s) {
        Ok(d) => {
            let secs = d.to_secs();
            proof {
                lemma_date_at_valid(secs as int);
                assert forall|u: DateTime| u.valid() && u.secs() == secs implies u == d@ by {
                    lemma_secs_injective(u, d@);
                }
            }
            Ok(secs)
        },
        Err(e) => Err(e),
    }
}

/// Format a date to be used in a HTTP header field.
///
/// The instant `secs`, in seconds since the epoch, is formatted as an
/// IMF-fixdate: `Fri, 15 May 2015 15:34:21 GMT`. It must lie before the year
/// 10000.
pub fn fmt_http_date(secs: u64) -> (s: String)
    requires
        secs < SECS_END,
    ensures
        s@ == text_of(imf_fixdate(date_at(secs as int))),
        s@.len() == 29,
        is_ascii_chars(s@),
{
    let d = HttpDate::from_secs(secs);
    proof {
        lemma_imf_fixdate_fields(imf_fixdate(d@), d@);
        lemma_imf_fixdate_ascii(d@);
        format::lemma_text_of(imf_fixdate(d@));
    }
    d.to_string()
}

} // verus!
