//! Transaction headers.

use vstd::prelude::*;
use crate::date::Date;

verus! {

/// Clearing status of a transaction.
#[derive(Clone, Copy, Debug, PartialEq, Eq, Structural)]
pub enum Status {
    Cleared,
    Uncleared,
}

/// One transaction's metadata.  A header is never mutated after
/// construction; every posting of the transaction carries a value-equal
/// copy of it.
#[derive(Debug)]
pub struct Header {
    pub date: Date,
    pub status: Status,
    pub code: Option<String>,
    pub payee: String,
    pub comment: Option<String>,
}

/// The mathematical content of a `Header`.
pub ghost struct HeaderV {
    pub date: Date,
    pub status: Status,
    pub code: Option<Seq<char>>,
    pub payee: Seq<char>,
    pub comment: Option<Seq<char>>,
}

/// The view of an optional text field.
pub open spec fn opt_text_view(o: Option<String>) -> Option<Seq<char>> {
    match o {
        Option::None => Option::None,
        Option::Some(s) => Option::Some(s@),
    }
}

impl View for Header {
    type V = HeaderV;

    open spec fn view(&self) -> HeaderV {
        HeaderV {
            date: self.date,
            status: self.status,
            code: opt_text_view(self.code),
            payee: self.payee@,
            comment: opt_text_view(self.comment),
        }
    }
}

/// A value-equal copy of an optional text field.
pub fn duplicate_opt_text(o: &Option<String>) -> (r: Option<String>)
    ensures
        opt_text_view(r) == opt_text_view(*o),
{
    match o {
        Option::None => Option::None,
        Option::Some(s) => Option::Some(s.clone()),
    }
}

/// Compares two optional text fields by value.
pub fn opt_text_eq(a: &Option<String>, b: &Option<String>) -> (r: bool)
    ensures
        r == (opt_text_view(*a) == opt_text_view(*b)),
{
    match (a, b) {
        (Option::None, Option::None) => true,
        (Option::Some(x), Option::Some(y)) => x.eq(y),
        _ => false,
    }
}

impl Header {
    pub fn new(
        date: Date,
        status: Status,
        code: Option<String>,
        payee: String,
        comment: Option<String>,
    ) -> (r: Header)
        ensures
            r@.date == date,
            r@.status == status,
            r@.code == opt_text_view(code),
            r@.payee == payee@,
            r@.comment == opt_text_view(comment),
    {
        Header { date, status, code, payee, comment }
    }

    /// A value-equal copy, shared by every posting of the transaction.
    pub fn duplicate(&self) -> (r: Header)
        ensures
            r@ == self@,
    {
        Header {
            date: self.date,
            status: self.status,
            code: duplicate_opt_text(&self.code),
            payee: self.payee.clone(),
            comment: duplicate_opt_text(&self.comment),
        }
    }
}

impl PartialEq for Header {
    fn eq(&self, other: &Header) -> bool {
        self.date == other.date && self.status == other.status && opt_text_eq(
            &self.code,
            &other.code,
        ) && self.payee == other.payee && opt_text_eq(&self.comment, &other.comment)
    }
}

impl vstd::std_specs::cmp::PartialEqSpecImpl for Header {
    open spec fn obeys_eq_spec() -> bool {
        true
    }

    open spec fn eq_spec(&self, other: &Header) -> bool {
        self@ == other@
    }
}

} // verus!
