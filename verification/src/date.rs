//! Calendar dates as plain values.
//!
//! Chunk files are partitioned by calendar day, so the store needs a date
//! model of its own: validity (so that malformed directory names can be
//! skipped), ordering (so that days are replayed chronologically), and
//! nothing else. Dates are proleptic Gregorian.

use vstd::prelude::*;

verus! {

/// One calendar date, held as plain year, month and day numbers.
#[derive(Clone, Copy, PartialEq, Eq, Structural, Debug, Hash)]
pub struct Date {
    pub year: u32,
    pub month: u32,
    pub day: u32,
}

/// A year is a leap year when divisible by 4 but not by 100, or by 400.
pub open spec fn spec_is_leap_year(y: int) -> bool {
    (y % 4 == 0 && y % 100 != 0) || y % 400 == 0
}

/// Number of days in month `m` of year `y`, for `1 <= m <= 12`.
pub open spec fn spec_days_in_month(y: int, m: int) -> int {
    if m == 2 {
        if spec_is_leap_year(y) {
            29
        } else {
            28
        }
    } else if m == 4 || m == 6 || m == 9 || m == 11 {
        30
    } else {
        31
    }
}

/// A (year, month, day) triple forms a real calendar date.
pub open spec fn spec_valid_date(y: int, m: int, d: int) -> bool {
    1 <= m <= 12 && 1 <= d <= spec_days_in_month(y, m)
}

/// Strict chronological order: year first, then month, then day.
pub open spec fn spec_date_lt(a: Date, b: Date) -> bool {
    ||| a.year < b.year
    ||| (a.year == b.year && a.month < b.month)
    ||| (a.year == b.year && a.month == b.month && a.day < b.day)
}

/// Non-strict chronological order.
pub open spec fn spec_date_le(a: Date, b: Date) -> bool {
    spec_date_lt(a, b) || a == b
}

pub fn is_leap_year(y: u32) -> (r: bool)
    ensures
        r == spec_is_leap_year(y as int),
{
    (y % 4 == 0 && y % 100 != 0) || y % 400 == 0
}

pub fn days_in_month(y: u32, m: u32) -> (r: u32)
    ensures
        r == spec_days_in_month(y as int, m as int),
{
    if m == 2 {
        if is_leap_year(y) {
            29
        } else {
            28
        }
    } else if m == 4 || m == 6 || m == 9 || m == 11 {
        30
    } else {
        31
    }
}

impl Date {
    /// The triple held really is a calendar date.
    pub open spec fn wf(self) -> bool {
        spec_valid_date(self.year as int, self.month as int, self.day as int)
    }

    /// Builds a date, rejecting triples that are not real calendar dates.
    pub fn new(year: u32, month: u32, day: u32) -> (r: Option<Date>)
        ensures
            r is Some <==> spec_valid_date(year as int, month as int, day as int),
            r is Some ==> r->0 == (Date { year, month, day }) && r->0.wf(),
    {
        if 1 <= month && month <= 12 && 1 <= day && day <= days_in_month(year, month) {
            Some(Date { year, month, day })
        } else {
            None
        }
    }

    /// Strict chronological comparison.
    pub fn lt(&self, other: &Date) -> (r: bool)
        ensures
            r == spec_date_lt(*self, *other),
    {
        self.year < other.year || (self.year == other.year && (self.month < other.month || (
        self.month == other.month && self.day < other.day)))
    }

    /// Non-strict chronological comparison.
    pub fn le(&self, other: &Date) -> (r: bool)
        ensures
            r == spec_date_le(*self, *other),
    {
        self.lt(other) || (self.year == other.year && self.month == other.month && self.day
            == other.day)
    }
}

/// The shape of a textual day argument: exactly `YYYY-MM-DD`, all digits,
/// dashes in between.
pub open spec fn spec_date_text_shape(s: Seq<u8>) -> bool {
    &&& s.len() == 10
    &&& s[4] == 45
    &&& s[7] == 45
    &&& forall|i: int|
        0 <= i < 10 && i != 4 && i != 7 ==> 48 <= #[trigger] s[i] <= 57
}

/// What a textual day argument denotes: its date when it has the
/// `YYYY-MM-DD` shape and forms a real calendar date, otherwise nothing.
pub open spec fn spec_parse_date(s: Seq<u8>) -> Option<Date> {
    if spec_date_text_shape(s) {
        let y = ((s[0] - 48) * 1000 + (s[1] - 48) * 100 + (s[2] - 48) * 10 + (s[3] - 48)) as u32;
        let m = ((s[5] - 48) * 10 + (s[6] - 48)) as u32;
        let d = ((s[8] - 48) * 10 + (s[9] - 48)) as u32;
        if spec_valid_date(y as int, m as int, d as int) {
            Some(Date { year: y, month: m, day: d })
        } else {
            None
        }
    } else {
        None
    }
}

/// Parses a `YYYY-MM-DD` day argument. Anything that is not exactly that
/// shape, or does not form a real calendar date, is rejected with no side
/// effects.
pub fn parse_date(s: &Vec<u8>) -> (r: Option<Date>)
    ensures
        r == spec_parse_date(s@),
{
    if s.len() != 10 {
        return None;
    }
    if s[4] != 45 || s[7] != 45 {
        return None;
    }
    let mut i: usize = 0;
    while i < 10
        invariant
            i <= 10,
            s@.len() == 10,
            forall|j: int| 0 <= j < i && j != 4 && j != 7 ==> 48 <= #[trigger] s@[j] <= 57,
        decreases 10 - i,
    {
        if i != 4 && i != 7 {
            let b = s[i];
            if b < 48 || b > 57 {
                return None;
            }
        }
        i = i + 1;
    }
    let y: u32 = ((s[0] - 48) as u32) * 1000 + ((s[1] - 48) as u32) * 100 + ((s[2] - 48) as u32)
        * 10 + ((s[3] - 48) as u32);
    let m: u32 = ((s[5] - 48) as u32) * 10 + ((s[6] - 48) as u32);
    let d: u32 = ((s[8] - 48) as u32) * 10 + ((s[9] - 48) as u32);
    Date::new(y, m, d)
}

} // verus!
