//! Amounts: an exact decimal quantity tied to a symbol, together with
//! the purely cosmetic record of how the two were laid out in the input.

use vstd::prelude::*;
use crate::decimal::Decimal;
use crate::decimal::dec_chars;
use crate::decimal::eq_value;
use crate::decimal::MAX_SCALE;
use crate::symbol::Symbol;
use crate::symbol::SymbolV;
use crate::symbol::symbol_chars;
use crate::symbol::push_all;
use crate::text::chars_to_string;

verus! {

/// Which side of the number the symbol was written on.
#[derive(Clone, Copy, Debug, PartialEq, Eq, Structural)]
pub enum SymbolPosition {
    Left,
    Right,
}

/// Whether a space separated the symbol from the number.
#[derive(Clone, Copy, Debug, PartialEq, Eq, Structural)]
pub enum Spacing {
    Space,
    NoSpace,
}

/// How an amount was written; never affects balancing or equality.
#[derive(Clone, Copy, Debug, PartialEq, Eq, Structural)]
pub struct RenderOptions {
    pub symbol_position: SymbolPosition,
    pub spacing: Spacing,
}

impl RenderOptions {
    pub fn new(position: SymbolPosition, spacing: Spacing) -> (r: RenderOptions)
        ensures
            r.symbol_position == position,
            r.spacing == spacing,
    {
        RenderOptions { symbol_position: position, spacing }
    }
}

/// An exact decimal quantity of one commodity.
#[derive(Debug)]
pub struct Amount {
    pub quantity: Decimal,
    pub symbol: Symbol,
    pub render_options: RenderOptions,
}

/// The mathematical content of an `Amount`.
pub ghost struct AmountV {
    pub quantity: Decimal,
    pub symbol: SymbolV,
    pub render_options: RenderOptions,
}

impl View for Amount {
    type V = AmountV;

    open spec fn view(&self) -> AmountV {
        AmountV {
            quantity: self.quantity,
            symbol: self.symbol@,
            render_options: self.render_options,
        }
    }
}

impl AmountV {
    pub open spec fn wf(self) -> bool {
        &&& self.quantity.wf()
        &&& self.symbol.wf()
    }
}

/// The space between symbol and number, if any.
pub open spec fn spacing_chars(s: Spacing) -> Seq<char> {
    match s {
        Spacing::Space => seq![' '],
        Spacing::NoSpace => Seq::<char>::empty(),
    }
}

/// The text of an amount as its render options lay it out.
pub open spec fn amount_chars(a: AmountV) -> Seq<char> {
    let q = dec_chars(a.quantity.mantissa as int, a.quantity.scale as nat);
    let s = symbol_chars(a.symbol);
    let sp = spacing_chars(a.render_options.spacing);
    match a.render_options.symbol_position {
        SymbolPosition::Left => s + sp + q,
        SymbolPosition::Right => q + sp + s,
    }
}

impl Amount {
    pub fn new(quantity: Decimal, symbol: Symbol, render_opts: RenderOptions) -> (r: Amount)
        ensures
            r@.quantity == quantity,
            r@.symbol == symbol@,
            r@.render_options == render_opts,
    {
        Amount { quantity, symbol, render_options: render_opts }
    }

    /// A value-equal copy.
    pub fn duplicate(&self) -> (r: Amount)
        ensures
            r@ == self@,
    {
        Amount {
            quantity: self.quantity,
            symbol: self.symbol.duplicate(),
            render_options: self.render_options,
        }
    }

    /// The characters `amount_chars` describes.
    pub fn to_chars(&self) -> (v: Vec<char>)
        requires
            self.quantity.mantissa > i128::MIN,
            self.quantity.scale <= MAX_SCALE,
        ensures
            v@ == amount_chars(self@),
    {
        let q = self.quantity.to_chars();
        let s = self.symbol.to_chars();
        let mut v: Vec<char> = Vec::new();
        match self.render_options.symbol_position {
            SymbolPosition::Left => {
                push_all(&mut v, &s);
                if let Spacing::Space = self.render_options.spacing {
                    v.push(' ');
                }
                push_all(&mut v, &q);
            },
            SymbolPosition::Right => {
                push_all(&mut v, &q);
                if let Spacing::Space = self.render_options.spacing {
                    v.push(' ');
                }
                push_all(&mut v, &s);
            },
        }
        assert(v@ =~= amount_chars(self@));
        v
    }

    /// The amount written as text.
    pub fn render(&self) -> (r: String)
        requires
            self.quantity.mantissa > i128::MIN,
            self.quantity.scale <= MAX_SCALE,
        ensures
            r@ == amount_chars(self@),
    {
        let v = self.to_chars();
        chars_to_string(&v)
    }
}

impl PartialEq for Amount {
    fn eq(&self, other: &Amount) -> bool {
        self.quantity == other.quantity && self.symbol == other.symbol && self.render_options
            == other.render_options
    }
}

impl vstd::std_specs::cmp::PartialEqSpecImpl for Amount {
    open spec fn obeys_eq_spec() -> bool {
        true
    }

    open spec fn eq_spec(&self, other: &Amount) -> bool {
        &&& eq_value(self.quantity, other.quantity)
        &&& self@.symbol.value == other@.symbol.value
        &&& self@.symbol.quote_option == other@.symbol.quote_option
        &&& self.render_options == other.render_options
    }
}

} // verus!
