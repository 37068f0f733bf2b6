//! The order of dates, which is that of their instants.
use std::cmp::Ordering;
use vstd::prelude::*;

use crate::date::HttpDate;

verus! {

/// How the instant `a` stands to the instant `b`.
pub open spec fn order_of(a: int, b: int) -> Ordering {
    if a < b {
        Ordering::Less
    } else if a == b {
        Ordering::Equal
    } else {
        Ordering::Greater
    }
}

impl HttpDate {
    /// Compares the instants of the two dates.
    pub fn cmp(&self, other: &HttpDate) -> (r: Ordering)
        ensures
            r == order_of(self@.secs(), other@.secs()),
    {
        let a = self.to_secs();
        let b = other.to_secs();
        if a < b {
            Ordering::Less
        } else if a == b {
            Ordering::Equal
        } else {
            Ordering::Greater
        }
    }
}

impl PartialOrd for HttpDate {
    /// Compares the instants of the two dates.
    fn partial_cmp(&self, other: &HttpDate) -> (r: Option<Ordering>) {
        Some(self.cmp(other))
    }
}

impl vstd::std_specs::cmp::PartialOrdSpecImpl for HttpDate {
    open spec fn obeys_partial_cmp_spec() -> bool {
        true
    }

    /// A date is less than another when its instant comes first.
    open spec fn partial_cmp_spec(&self, other: &HttpDate) -> Option<Ordering> {
        Some(order_of(self@.secs(), other@.secs()))
    }
}

} // verus!
