//! Commodity and currency symbols.

use vstd::prelude::*;
use crate::text::chars_to_string;
use crate::text::str_to_chars;

verus! {

/// Whether a symbol was written inside double quotes.  Quoting affects
/// rendering only; balancing keys on the text value alone.
#[derive(Clone, Copy, Debug, PartialEq, Eq, Structural)]
pub enum QuoteOption {
    Quoted,
    Unquoted,
}

/// A commodity designator: its text and how it was quoted.
#[derive(Debug)]
pub struct Symbol {
    pub value: String,
    pub quote_option: QuoteOption,
}

/// The mathematical content of a `Symbol`.
pub ghost struct SymbolV {
    pub value: Seq<char>,
    pub quote_option: QuoteOption,
}

impl View for Symbol {
    type V = SymbolV;

    open spec fn view(&self) -> SymbolV {
        SymbolV { value: self.value@, quote_option: self.quote_option }
    }
}

/// A character allowed in the body of a quoted symbol.
pub open spec fn quoted_symbol_char(c: char) -> bool {
    c != '"' && c != '\r' && c != '\n'
}

/// A character allowed in an unquoted symbol.
pub open spec fn unquoted_symbol_char(c: char) -> bool {
    &&& !('0' <= c && c <= '9')
    &&& c != '-'
    &&& c != ';'
    &&& c != '"'
    &&& c != '\r'
    &&& c != '\n'
    &&& c != ' '
    &&& c != '\t'
}

impl SymbolV {
    /// The text is non-empty and every character is legal for the way
    /// the symbol is quoted.
    pub open spec fn wf(self) -> bool {
        &&& self.value.len() >= 1
        &&& match self.quote_option {
            QuoteOption::Quoted => forall|i: int|
                0 <= i < self.value.len() ==> quoted_symbol_char(#[trigger] self.value[i]),
            QuoteOption::Unquoted => forall|i: int|
                0 <= i < self.value.len() ==> unquoted_symbol_char(#[trigger] self.value[i]),
        }
    }
}

/// The text of a symbol as it is written: quoted symbols regain their
/// surrounding quotes.
pub open spec fn symbol_chars(s: SymbolV) -> Seq<char> {
    match s.quote_option {
        QuoteOption::Quoted => seq!['"'] + s.value + seq!['"'],
        QuoteOption::Unquoted => s.value,
    }
}

impl Symbol {
    pub fn new(symbol: &str, quote_option: QuoteOption) -> (r: Symbol)
        ensures
            r@.value == symbol@,
            r@.quote_option == quote_option,
    {
        Symbol { value: symbol.to_owned(), quote_option }
    }

    /// A value-equal copy.
    pub fn duplicate(&self) -> (r: Symbol)
        ensures
            r@ == self@,
    {
        Symbol { value: self.value.clone(), quote_option: self.quote_option }
    }

    /// The characters `symbol_chars` describes.
    pub fn to_chars(&self) -> (v: Vec<char>)
        ensures
            v@ == symbol_chars(self@),
    {
        let cs = str_to_chars(self.value.as_str());
        match self.quote_option {
            QuoteOption::Quoted => {
                let mut v: Vec<char> = Vec::new();
                v.push('"');
                push_all(&mut v, &cs);
                v.push('"');
                assert(v@ =~= symbol_chars(self@));
                v
            },
            QuoteOption::Unquoted => cs,
        }
    }

    /// The symbol written as text.
    pub fn render(&self) -> (r: String)
        ensures
            r@ == symbol_chars(self@),
    {
        let v = self.to_chars();
        chars_to_string(&v)
    }
}

impl PartialEq for Symbol {
    fn eq(&self, other: &Symbol) -> bool {
        self.value == other.value && self.quote_option == other.quote_option
    }
}

impl vstd::std_specs::cmp::PartialEqSpecImpl for Symbol {
    open spec fn obeys_eq_spec() -> bool {
        true
    }

    open spec fn eq_spec(&self, other: &Symbol) -> bool {
        self@.value == other@.value && self@.quote_option == other@.quote_option
    }
}

/// Appends every character of `s` to `v`.
pub fn push_all(v: &mut Vec<char>, s: &Vec<char>)
    ensures
        final(v)@ == old(v)@ + s@,
{
    let mut i: usize = 0;
    while i < s.len()
        invariant
            i <= s@.len(),
            v@ =~= old(v)@ + s@.take(i as int),
        decreases s@.len() - i,
    {
        v.push(s[i]);
        i = i + 1;
    }
    assert(v@ =~= old(v)@ + s@);
}

} // verus!
