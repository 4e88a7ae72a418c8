//! Standalone price records: a dated valuation of one symbol in terms
//! of another commodity.

use vstd::prelude::*;
use crate::amount::Amount;
use crate::amount::AmountV;
use crate::amount::amount_chars;
use crate::date::Date;
use crate::date::date_chars;
use crate::date::valid_date;
use crate::decimal::MAX_SCALE;
use crate::symbol::Symbol;
use crate::symbol::SymbolV;
use crate::symbol::symbol_chars;
use crate::symbol::push_all;
use crate::text::chars_to_string;

verus! {

/// A price record; never mutated after parsing.
#[derive(Debug)]
pub struct Price {
    pub date: Date,
    pub symbol: Symbol,
    pub amount: Amount,
}

/// The mathematical content of a `Price`.
pub ghost struct PriceV {
    pub date: Date,
    pub symbol: SymbolV,
    pub amount: AmountV,
}

impl View for Price {
    type V = PriceV;

    open spec fn view(&self) -> PriceV {
        PriceV { date: self.date, symbol: self.symbol@, amount: self.amount@ }
    }
}

/// The text of a price record: `P`, the date, the priced symbol and its
/// value, separated by single spaces.
pub open spec fn price_chars(p: PriceV) -> Seq<char> {
    seq!['P', ' '] + date_chars(p.date) + seq![' '] + symbol_chars(p.symbol) + seq![' ']
        + amount_chars(p.amount)
}

impl Price {
    pub fn new(date: Date, symbol: Symbol, amount: Amount) -> (r: Price)
        ensures
            r@.date == date,
            r@.symbol == symbol@,
            r@.amount == amount@,
    {
        Price { date, symbol, amount }
    }

    /// The price record written as text.
    pub fn render(&self) -> (r: String)
        requires
            valid_date(self.date.year as int, self.date.month as int, self.date.day as int),
            self.amount.quantity.mantissa > i128::MIN,
            self.amount.quantity.scale <= MAX_SCALE,
        ensures
            r@ == price_chars(self@),
    {
        let mut v: Vec<char> = Vec::new();
        v.push('P');
        v.push(' ');
        let d = self.date.to_chars();
        push_all(&mut v, &d);
        v.push(' ');
        let s = self.symbol.to_chars();
        push_all(&mut v, &s);
        v.push(' ');
        let a = self.amount.to_chars();
        push_all(&mut v, &a);
        assert(v@ =~= price_chars(self@));
        chars_to_string(&v)
    }
}

impl PartialEq for Price {
    fn eq(&self, other: &Price) -> bool {
        self.date == other.date && self.symbol == other.symbol && self.amount == other.amount
    }
}

impl vstd::std_specs::cmp::PartialEqSpecImpl for Price {
    open spec fn obeys_eq_spec() -> bool {
        true
    }

    open spec fn eq_spec(&self, other: &Price) -> bool {
        &&& self.date == other.date
        &&& self@.symbol == other@.symbol
        &&& crate::decimal::eq_value(self.amount@.quantity, other.amount@.quantity)
        &&& self.amount@.symbol == other.amount@.symbol
        &&& self.amount@.render_options == other.amount@.render_options
    }
}

} // verus!
