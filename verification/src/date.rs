//! Calendar dates.
//!
//! A date is a plain year/month/day triple with no time-of-day and no
//! time zone.  Construction validates the month and day ranges against
//! the Gregorian calendar, so an out-of-range date is a parse error
//! rather than a value that crashes later.

use vstd::prelude::*;
use crate::decimal::digits_of;
use crate::decimal::zero_pad;
use crate::text::chars_to_string;
use crate::symbol::push_all;

verus! {

/// A validated calendar date.
#[derive(Clone, Copy, Debug, PartialEq, Eq, Structural)]
pub struct Date {
    pub year: i32,
    pub month: u32,
    pub day: u32,
}

pub open spec fn is_leap_year(y: int) -> bool {
    y % 4 == 0 && (y % 100 != 0 || y % 400 == 0)
}

pub open spec fn days_in_month(y: int, m: int) -> int {
    if m == 2 {
        if is_leap_year(y) {
            29
        } else {
            28
        }
    } else if m == 4 || m == 6 || m == 9 || m == 11 {
        30
    } else {
        31
    }
}

/// The dates accepted: a four-digit year and a real calendar day.
pub open spec fn valid_date(y: int, m: int, d: int) -> bool {
    &&& 0 <= y <= 9999
    &&& 1 <= m <= 12
    &&& 1 <= d <= days_in_month(y, m)
}

impl Date {
    /// Builds a date, or nothing exactly when the triple is not a real
    /// calendar date.
    pub fn from_ymd(year: i32, month: u32, day: u32) -> (r: Option<Date>)
        ensures
            r is Some <==> valid_date(year as int, month as int, day as int),
            r is Some ==> r->0 == (Date { year, month, day }),
    {
        if year < 0 || year > 9999 || month < 1 || month > 12 {
            return None;
        }
        let dim: u32 = if month == 2 {
            if (year % 4 == 0) && (year % 100 != 0 || year % 400 == 0) {
                29
            } else {
                28
            }
        } else if month == 4 || month == 6 || month == 9 || month == 11 {
            30
        } else {
            31
        };
        if day < 1 || day > dim {
            None
        } else {
            Some(Date { year, month, day })
        }
    }

    /// The characters of the date in `YYYY-MM-DD` form.
    pub fn to_chars(&self) -> (v: Vec<char>)
        requires
            valid_date(self.year as int, self.month as int, self.day as int),
        ensures
            v@ == date_chars(*self),
    {
        let mut v: Vec<char> = Vec::new();
        let y = push_padded(self.year as u128, 4);
        push_all(&mut v, &y);
        v.push('-');
        let m = push_padded(self.month as u128, 2);
        push_all(&mut v, &m);
        v.push('-');
        let d = push_padded(self.day as u128, 2);
        push_all(&mut v, &d);
        assert(v@ =~= date_chars(*self));
        v
    }

    /// The date written as text.
    pub fn render(&self) -> (r: String)
        requires
            valid_date(self.year as int, self.month as int, self.day as int),
        ensures
            r@ == date_chars(*self),
    {
        let v = self.to_chars();
        chars_to_string(&v)
    }
}

/// The text of a date: zero-padded year, month and day joined by dashes.
pub open spec fn date_chars(d: Date) -> Seq<char> {
    zero_pad(digits_of(d.year as nat), 4) + seq!['-'] + zero_pad(digits_of(d.month as nat), 2)
        + seq!['-'] + zero_pad(digits_of(d.day as nat), 2)
}

/// The digits of `n`, zero-padded on the left to at least `width`.
fn push_padded(n: u128, width: usize) -> (v: Vec<char>)
    ensures
        v@ == zero_pad(digits_of(n as nat), width as nat),
{
    let mut ds: Vec<char> = Vec::new();
    crate::decimal::push_digits(n, &mut ds);
    let ghost base = digits_of(n as nat);
    while ds.len() < width
        invariant
            ds@ =~= Seq::new((ds@.len() - base.len()) as nat, |i: int| '0') + base,
            ds@.len() >= base.len(),
            ds@.len() <= width || ds@.len() == base.len(),
        decreases width - ds.len(),
    {
        ds.insert(0, '0');
        assert(ds@ =~= Seq::new((ds@.len() - base.len()) as nat, |i: int| '0') + base);
    }
    assert(ds@ =~= zero_pad(base, width as nat));
    ds
}

} // verus!
