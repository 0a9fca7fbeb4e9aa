//! Calendar dates used as the sort key for post listings.

use vstd::prelude::*;

verus! {

/// A calendar date, compared lexicographically by year, month, day.
#[derive(Clone, Copy, PartialEq, Eq, Structural, Debug)]
pub struct Date {
    pub year: i32,
    pub month: u8,
    pub day: u8,
}

impl Date {
    /// `self` is on or before `other` in calendar order.
    pub open spec fn spec_le(self, other: Date) -> bool {
        ||| self.year < other.year
        ||| (self.year == other.year && self.month < other.month)
        ||| (self.year == other.year && self.month == other.month && self.day <= other.day)
    }

    pub fn new(year: i32, month: u8, day: u8) -> (d: Date)
        ensures
            d == (Date { year, month, day }),
    {
        Date { year, month, day }
    }

    /// Decides the calendar order on two dates.
    pub fn le(&self, other: &Date) -> (r: bool)
        ensures
            r == self.spec_le(*other),
    {
        if self.year != other.year {
            self.year < other.year
        } else if self.month != other.month {
            self.month < other.month
        } else {
            self.day <= other.day
        }
    }
}

/// The calendar order is total: any two dates compare one way or the other.
pub proof fn lemma_date_le_total(a: Date, b: Date)
    ensures
        a.spec_le(b) || b.spec_le(a),
{
}

} // verus!
