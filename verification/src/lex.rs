//! Lexical primitives: character predicates and the atomic token
//! parsers.
//!
//! Every parser works on a buffer of characters and a position.  It
//! consumes a prefix of the remaining input and returns the parsed value
//! with the new position, or nothing — never consuming input on failure,
//! so alternatives can be tried from the same position.  Each executable
//! parser is proved to return exactly what its specification-level
//! mirror describes.

use vstd::prelude::*;
use crate::date::Date;
use crate::date::valid_date;
use crate::decimal::Decimal;
use crate::decimal::MAX_COEFF;
use crate::decimal::MAX_SCALE;
use crate::decimal::char_digit;
use crate::decimal::digits_val;
use crate::decimal::is_digit_char;
use crate::amount::Spacing;
use crate::symbol::Symbol;
use crate::symbol::SymbolV;
use crate::symbol::QuoteOption;
use crate::symbol::quoted_symbol_char;
use crate::symbol::unquoted_symbol_char;
use crate::text::chars_to_string;

verus! {

/// A space or a tab.
pub open spec fn horizontal_space(c: char) -> bool {
    c == ' ' || c == '\t'
}

/// A character of a decimal literal: a digit, a radix point or a
/// thousands separator.
pub open spec fn amount_char(c: char) -> bool {
    is_digit_char(c) || c == '.' || c == ','
}

/// An ASCII alphanumeric character, the only ones account segments may
/// use.
pub open spec fn alnum_char(c: char) -> bool {
    ('a' <= c && c <= 'z') || ('A' <= c && c <= 'Z') || ('0' <= c && c <= '9')
}

/// A character of a comment body: anything but a line break.
pub open spec fn comment_char(c: char) -> bool {
    c != '\r' && c != '\n'
}

/// A character of a payee: anything but a comment mark or a line break.
pub open spec fn payee_char(c: char) -> bool {
    c != ';' && c != '\r' && c != '\n'
}

/// A character of a parenthesized code body.
pub open spec fn code_char(c: char) -> bool {
    c != ')' && c != '\r' && c != '\n'
}

/// The first position at or after `pos` whose character fails `pred`
/// (or the end of the buffer).
pub open spec fn scan_while(s: Seq<char>, pos: int, pred: spec_fn(char) -> bool) -> int
    decreases s.len() - pos,
{
    if pos < 0 || pos >= s.len() || !pred(s[pos]) {
        pos
    } else {
        scan_while(s, pos + 1, pred)
    }
}

/// What a scan returns: a maximal run of `pred` characters.
pub proof fn lemma_scan_while(s: Seq<char>, pos: int, pred: spec_fn(char) -> bool)
    requires
        0 <= pos <= s.len(),
    ensures
        pos <= scan_while(s, pos, pred) <= s.len(),
        forall|i: int| pos <= i < scan_while(s, pos, pred) ==> pred(#[trigger] s[i]),
        scan_while(s, pos, pred) < s.len() ==> !pred(s[scan_while(s, pos, pred)]),
    decreases s.len() - pos,
{
    if pos < s.len() && pred(s[pos]) {
        lemma_scan_while(s, pos + 1, pred);
    }
}

// Executable character predicates.
pub fn is_quoted_symbol_char(c: char) -> (r: bool)
    ensures
        r == quoted_symbol_char(c),
{
    c != '"' && c != '\r' && c != '\n'
}

pub fn is_unquoted_symbol_char(c: char) -> (r: bool)
    ensures
        r == unquoted_symbol_char(c),
{
    !(c >= '0' && c <= '9') && c != '-' && c != ';' && c != '"' && c != '\r' && c != '\n' && c
        != ' ' && c != '\t'
}

pub fn is_amount_char(c: char) -> (r: bool)
    ensures
        r == amount_char(c),
{
    (c >= '0' && c <= '9') || c == '.' || c == ','
}

pub fn is_digit(c: char) -> (r: bool)
    ensures
        r == is_digit_char(c),
{
    c >= '0' && c <= '9'
}

pub fn is_horizontal_space(c: char) -> (r: bool)
    ensures
        r == horizontal_space(c),
{
    c == ' ' || c == '\t'
}

pub fn is_alnum_char(c: char) -> (r: bool)
    ensures
        r == alnum_char(c),
{
    (c >= 'a' && c <= 'z') || (c >= 'A' && c <= 'Z') || (c >= '0' && c <= '9')
}

/// The numeric value of one digit character.
pub fn digit_value(c: char) -> (r: u32)
    requires
        is_digit_char(c),
    ensures
        r == char_digit(c),
        r < 10,
{
    (c as u32) - ('0' as u32)
}

/// The character classes the scanners recognize.
#[derive(Clone, Copy, Debug, PartialEq, Eq, Structural)]
pub enum CharClass {
    HorizontalSpace,
    Digit,
    QuotedSymbol,
    UnquotedSymbol,
    AmountChar,
    CommentChar,
    PayeeChar,
    CodeChar,
    Alnum,
}

/// The predicate a character class stands for.
pub open spec fn class_pred(cc: CharClass) -> spec_fn(char) -> bool {
    match cc {
        CharClass::HorizontalSpace => |c: char| horizontal_space(c),
        CharClass::Digit => |c: char| is_digit_char(c),
        CharClass::QuotedSymbol => |c: char| quoted_symbol_char(c),
        CharClass::UnquotedSymbol => |c: char| unquoted_symbol_char(c),
        CharClass::AmountChar => |c: char| amount_char(c),
        CharClass::CommentChar => |c: char| comment_char(c),
        CharClass::PayeeChar => |c: char| payee_char(c),
        CharClass::CodeChar => |c: char| code_char(c),
        CharClass::Alnum => |c: char| alnum_char(c),
    }
}

/// Whether `c` belongs to the class.
pub fn class_holds(cc: CharClass, c: char) -> (r: bool)
    ensures
        r == class_pred(cc)(c),
{
    match cc {
        CharClass::HorizontalSpace => is_horizontal_space(c),
        CharClass::Digit => is_digit(c),
        CharClass::QuotedSymbol => is_quoted_symbol_char(c),
        CharClass::UnquotedSymbol => is_unquoted_symbol_char(c),
        CharClass::AmountChar => is_amount_char(c),
        CharClass::CommentChar => is_comment_char(c),
        CharClass::PayeeChar => is_payee_char(c),
        CharClass::CodeChar => is_code_char(c),
        CharClass::Alnum => is_alnum_char(c),
    }
}

pub fn is_comment_char(c: char) -> (r: bool)
    ensures
        r == comment_char(c),
{
    c != '\r' && c != '\n'
}

pub fn is_payee_char(c: char) -> (r: bool)
    ensures
        r == payee_char(c),
{
    c != ';' && c != '\r' && c != '\n'
}

pub fn is_code_char(c: char) -> (r: bool)
    ensures
        r == code_char(c),
{
    c != ')' && c != '\r' && c != '\n'
}

/// Scans the longest run of characters of class `cc` starting at `pos`.
pub fn scan_class(s: &Vec<char>, pos: usize, cc: CharClass) -> (r: usize)
    requires
        pos <= s@.len(),
    ensures
        r == scan_while(s@, pos as int, class_pred(cc)),
        pos <= r <= s@.len(),
{
    proof {
        lemma_scan_while(s@, pos as int, class_pred(cc));
    }
    let mut cur: usize = pos;
    while cur < s.len() && class_holds(cc, s[cur])
        invariant
            pos <= cur <= s@.len(),
            scan_while(s@, pos as int, class_pred(cc)) == scan_while(s@, cur as int, class_pred(cc)),
        decreases s@.len() - cur,
    {
        cur = cur + 1;
    }
    cur
}

/// Copies the characters of `s` between `from` and `to`.
pub fn copy_range(s: &Vec<char>, from: usize, to: usize) -> (v: Vec<char>)
    requires
        from <= to <= s@.len(),
    ensures
        v@ == s@.subrange(from as int, to as int),
{
    let mut v: Vec<char> = Vec::new();
    let mut i: usize = from;
    while i < to
        invariant
            from <= i <= to <= s@.len(),
            v@ =~= s@.subrange(from as int, i as int),
        decreases to - i,
    {
        v.push(s[i]);
        assert(v@ =~= s@.subrange(from as int, i + 1));
        i = i + 1;
    }
    v
}

/// A digit string's value stays under one power of ten per digit.
pub proof fn lemma_digits_val_bounds(ds: Seq<char>)
    requires
        forall|i: int| 0 <= i < ds.len() ==> is_digit_char(#[trigger] ds[i]),
    ensures
        0 <= digits_val(ds) < crate::decimal::pow10(ds.len()),
    decreases ds.len(),
{
    crate::decimal::lemma_pow10_pos(ds.len());
    if ds.len() > 0 {
        lemma_digits_val_bounds(ds.drop_last());
    }
}

/// The value of the digits of `s` between `from` and `to`.
pub fn digits_value(s: &Vec<char>, from: usize, to: usize) -> (r: u32)
    requires
        from <= to <= s@.len(),
        to - from <= 9,
        forall|i: int| from <= i < to ==> is_digit_char(#[trigger] s@[i]),
    ensures
        r == digits_val(s@.subrange(from as int, to as int)),
{
    proof {
        assert(crate::decimal::pow10(9) == 1_000_000_000) by {
            reveal_with_fuel(crate::decimal::pow10, 10);
        }
    }
    let mut acc: u32 = 0;
    let mut i: usize = from;
    while i < to
        invariant
            from <= i <= to <= s@.len(),
            to - from <= 9,
            forall|k: int| from <= k < to ==> is_digit_char(#[trigger] s@[k]),
            acc == digits_val(s@.subrange(from as int, i as int)),
            acc < crate::decimal::pow10((i - from) as nat),
        decreases to - i,
    {
        proof {
            lemma_digits_val_bounds(s@.subrange(from as int, i as int));
            crate::decimal::lemma_pow10_monotonic((i - from) as nat, 8);
            assert(crate::decimal::pow10(8) == 100_000_000) by {
                reveal_with_fuel(crate::decimal::pow10, 10);
            }
            assert(s@.subrange(from as int, i + 1).drop_last() =~= s@.subrange(
                from as int,
                i as int,
            ));
            assert(s@.subrange(from as int, i + 1).last() == s@[i as int]);
        }
        acc = acc * 10 + digit_value(s[i]);
        i = i + 1;
    }
    acc
}

/// Converts a digit string to a `u32`; every character must be a digit.
pub fn to_u32(slice: &Vec<char>) -> (r: u32)
    requires
        slice@.len() <= 9,
        forall|i: int| 0 <= i < slice@.len() ==> is_digit_char(#[trigger] slice@[i]),
    ensures
        r == digits_val(slice@),
{
    let r = digits_value(slice, 0, slice.len());
    proof {
        assert(slice@.subrange(0, slice@.len() as int) =~= slice@);
    }
    r
}

/// Converts a digit string to an `i32`; every character must be a digit.
pub fn to_i32(slice: &Vec<char>) -> (r: i32)
    requires
        slice@.len() <= 9,
        forall|i: int| 0 <= i < slice@.len() ==> is_digit_char(#[trigger] slice@[i]),
    ensures
        r == digits_val(slice@),
{
    let r = to_u32(slice);
    proof {
        lemma_digits_val_bounds(slice@);
        crate::decimal::lemma_pow10_monotonic(slice@.len(), 9);
        assert(crate::decimal::pow10(9) == 1_000_000_000) by {
            reveal_with_fuel(crate::decimal::pow10, 10);
        }
    }
    r as i32
}

/// The spacing classification of an optional whitespace run and the
/// position after it; never fails.
pub open spec fn spec_whitespace(s: Seq<char>, pos: int) -> (Spacing, int) {
    let e = scan_while(s, pos, |c: char| horizontal_space(c));
    (
        if e > pos {
            Spacing::Space
        } else {
            Spacing::NoSpace
        },
        e,
    )
}

/// Parses a run of spaces and tabs, classifying whether one was present.
pub fn whitespace(s: &Vec<char>, pos: usize) -> (r: (Spacing, usize))
    requires
        pos <= s@.len(),
    ensures
        (r.0, r.1 as int) == spec_whitespace(s@, pos as int),
        pos <= r.1 <= s@.len(),
{
    let e = scan_class(s, pos, CharClass::HorizontalSpace);
    (
        if e > pos {
            Spacing::Space
        } else {
            Spacing::NoSpace
        },
        e,
    )
}

/// The position after one-or-more whitespace characters, or nothing.
pub open spec fn spec_mandatory_whitespace(s: Seq<char>, pos: int) -> Option<int> {
    let e = scan_while(s, pos, |c: char| horizontal_space(c));
    if e > pos {
        Option::Some(e)
    } else {
        Option::None
    }
}

/// Parses at least one whitespace character (space or tab).
pub fn mandatory_whitespace(s: &Vec<char>, pos: usize) -> (r: Option<usize>)
    requires
        pos <= s@.len(),
    ensures
        r is Some <==> spec_mandatory_whitespace(s@, pos as int) is Some,
        r is Some ==> r->0 as int == spec_mandatory_whitespace(s@, pos as int)->0 && pos < r->0
            <= s@.len(),
{
    let e = scan_class(s, pos, CharClass::HorizontalSpace);
    if e > pos {
        Option::Some(e)
    } else {
        Option::None
    }
}

/// The position after a Unix or Windows line ending, or nothing.
pub open spec fn spec_line_ending(s: Seq<char>, pos: int) -> Option<int> {
    if pos < s.len() && s[pos] == '\n' {
        Option::Some(pos + 1)
    } else if s.len() - pos >= 2 && s[pos] == '\r' && s[pos + 1] == '\n' {
        Option::Some(pos + 2)
    } else {
        Option::None
    }
}

/// Parses a Unix or Windows style line ending; both count as a single
/// logical line break.
pub fn line_ending(s: &Vec<char>, pos: usize) -> (r: Option<usize>)
    requires
        pos <= s@.len(),
    ensures
        r is Some <==> spec_line_ending(s@, pos as int) is Some,
        r is Some ==> r->0 as int == spec_line_ending(s@, pos as int)->0 && pos < r->0 <= s@.len(),
{
    if pos < s.len() && s[pos] == '\n' {
        Option::Some(pos + 1)
    } else if s.len() - pos >= 2 && s[pos] == '\r' && s[pos + 1] == '\n' {
        Option::Some(pos + 2)
    } else {
        Option::None
    }
}

/// A run of exactly `n` digits starting at `pos`.
pub open spec fn spec_fixed_digits(s: Seq<char>, pos: int, n: int) -> bool {
    &&& pos + n <= s.len()
    &&& forall|i: int| pos <= i < pos + n ==> is_digit_char(#[trigger] s[i])
}

/// The value of a four-digit year and the position after it.
pub open spec fn spec_year(s: Seq<char>, pos: int) -> Option<(i32, int)> {
    if spec_fixed_digits(s, pos, 4) {
        Option::Some((digits_val(s.subrange(pos, pos + 4)) as i32, pos + 4))
    } else {
        Option::None
    }
}

/// Checks that `n` digits start at `pos`; returns the position after
/// them.
fn fixed_digits(s: &Vec<char>, pos: usize, n: usize) -> (r: Option<usize>)
    requires
        pos <= s@.len(),
    ensures
        r is Some <==> spec_fixed_digits(s@, pos as int, n as int),
        r is Some ==> r->0 == pos + n,
{
    if n > s.len() - pos {
        return Option::None;
    }
    let end: usize = pos + n;
    let mut i: usize = pos;
    while i < end
        invariant
            pos <= i <= end <= s@.len(),
            end == pos + n,
            forall|k: int| pos <= k < i ==> is_digit_char(#[trigger] s@[k]),
        decreases end - i,
    {
        if !is_digit(s[i]) {
            return Option::None;
        }
        i = i + 1;
    }
    Option::Some(end)
}

/// Parses a four-digit year.
pub fn year(s: &Vec<char>, pos: usize) -> (r: Option<(i32, usize)>)
    requires
        pos <= s@.len(),
    ensures
        r is Some <==> spec_year(s@, pos as int) is Some,
        r is Some ==> ((r->0).0, (r->0).1 as int) == spec_year(s@, pos as int)->0 && pos < (r->0).1
            <= s@.len(),
{
    match fixed_digits(s, pos, 4) {
        Option::Some(end) => {
            let v = digits_value(s, pos, end);
            proof {
                lemma_digits_val_bounds(s@.subrange(pos as int, pos as int + 4));
                assert(crate::decimal::pow10(4) == 10_000) by {
                    reveal_with_fuel(crate::decimal::pow10, 5);
                }
            }
            Option::Some((v as i32, end))
        },
        Option::None => Option::None,
    }
}

/// The value of a two-digit field and the position after it.
pub open spec fn spec_two_digits(s: Seq<char>, pos: int) -> Option<(u32, int)> {
    if spec_fixed_digits(s, pos, 2) {
        Option::Some((digits_val(s.subrange(pos, pos + 2)) as u32, pos + 2))
    } else {
        Option::None
    }
}

/// Parses a two-digit month.
pub fn month(s: &Vec<char>, pos: usize) -> (r: Option<(u32, usize)>)
    requires
        pos <= s@.len(),
    ensures
        r is Some <==> spec_two_digits(s@, pos as int) is Some,
        r is Some ==> ((r->0).0, (r->0).1 as int) == spec_two_digits(s@, pos as int)->0 && pos < (r->0).1
            <= s@.len(),
{
    two_digits(s, pos)
}

/// Parses a two-digit day.
pub fn day(s: &Vec<char>, pos: usize) -> (r: Option<(u32, usize)>)
    requires
        pos <= s@.len(),
    ensures
        r is Some <==> spec_two_digits(s@, pos as int) is Some,
        r is Some ==> ((r->0).0, (r->0).1 as int) == spec_two_digits(s@, pos as int)->0 && pos < (r->0).1
            <= s@.len(),
{
    two_digits(s, pos)
}

/// Parses two digits.
pub fn two_digits(s: &Vec<char>, pos: usize) -> (r: Option<(u32, usize)>)
    requires
        pos <= s@.len(),
    ensures
        r is Some <==> spec_two_digits(s@, pos as int) is Some,
        r is Some ==> ((r->0).0, (r->0).1 as int) == spec_two_digits(s@, pos as int)->0 && pos < (r->0).1
            <= s@.len(),
{
    match fixed_digits(s, pos, 2) {
        Option::Some(end) => {
            let v = digits_value(s, pos, end);
            Option::Some((v, end))
        },
        Option::None => Option::None,
    }
}

/// A calendar date `YYYY-MM-DD`, range-checked, and the position after
/// it.  An out-of-range month or day is a parse failure.
pub open spec fn spec_date(s: Seq<char>, pos: int) -> Option<(Date, int)> {
    match spec_year(s, pos) {
        Option::None => Option::None,
        Option::Some((y, p1)) => {
            if p1 < s.len() && s[p1] == '-' {
                match spec_two_digits(s, p1 + 1) {
                    Option::None => Option::None,
                    Option::Some((m, p2)) => {
                        if p2 < s.len() && s[p2] == '-' {
                            match spec_two_digits(s, p2 + 1) {
                                Option::None => Option::None,
                                Option::Some((d, p3)) => {
                                    if valid_date(y as int, m as int, d as int) {
                                        Option::Some((Date { year: y, month: m, day: d }, p3))
                                    } else {
                                        Option::None
                                    }
                                },
                            }
                        } else {
                            Option::None
                        }
                    },
                }
            } else {
                Option::None
            }
        },
    }
}

/// Parses a date, e.g. `2015-10-17`.
pub fn date(s: &Vec<char>, pos: usize) -> (r: Option<(Date, usize)>)
    requires
        pos <= s@.len(),
    ensures
        r is Some <==> spec_date(s@, pos as int) is Some,
        r is Some ==> ((r->0).0, (r->0).1 as int) == spec_date(s@, pos as int)->0 && pos < (r->0).1
            <= s@.len(),
{
    let (y, p1) = match year(s, pos) {
        Option::Some(v) => v,
        Option::None => {
            return Option::None;
        },
    };
    if !(p1 < s.len() && s[p1] == '-') {
        return Option::None;
    }
    let (m, p2) = match two_digits(s, p1 + 1) {
        Option::Some(v) => v,
        Option::None => {
            return Option::None;
        },
    };
    if !(p2 < s.len() && s[p2] == '-') {
        return Option::None;
    }
    let (d, p3) = match two_digits(s, p2 + 1) {
        Option::Some(v) => v,
        Option::None => {
            return Option::None;
        },
    };
    match Date::from_ymd(y, m, d) {
        Option::Some(dt) => Option::Some((dt, p3)),
        Option::None => Option::None,
    }
}

/// A quoted symbol and the position after it: a quote, one or more
/// characters other than quotes and line breaks, and a closing quote.
pub open spec fn spec_quoted_symbol(s: Seq<char>, pos: int) -> Option<(SymbolV, int)> {
    if pos < s.len() && s[pos] == '"' {
        let e = scan_while(s, pos + 1, |c: char| quoted_symbol_char(c));
        if e > pos + 1 && e < s.len() && s[e] == '"' {
            Option::Some(
                (
                    SymbolV { value: s.subrange(pos + 1, e), quote_option: QuoteOption::Quoted },
                    e + 1,
                ),
            )
        } else {
            Option::None
        }
    } else {
        Option::None
    }
}

/// Parses a quoted symbol.
pub fn quoted_symbol(s: &Vec<char>, pos: usize) -> (r: Option<(Symbol, usize)>)
    requires
        pos <= s@.len(),
    ensures
        r is Some <==> spec_quoted_symbol(s@, pos as int) is Some,
        r is Some ==> {
            let (sv, e) = spec_quoted_symbol(s@, pos as int)->0;
            (r->0).0@ == sv && (r->0).1 as int == e && pos < (r->0).1 <= s@.len()
        },
{
    if pos < s.len() && s[pos] == '"' {
        let e = scan_class(s, pos + 1, CharClass::QuotedSymbol);
        if e > pos + 1 && e < s.len() && s[e] == '"' {
            let body = copy_range(s, pos + 1, e);
            let value = chars_to_string(&body);
            Option::Some((Symbol { value, quote_option: QuoteOption::Quoted }, e + 1))
        } else {
            Option::None
        }
    } else {
        Option::None
    }
}

/// An unquoted symbol and the position after it: one or more characters
/// other than digits, whitespace, `-`, `;`, quotes and line breaks.
pub open spec fn spec_unquoted_symbol(s: Seq<char>, pos: int) -> Option<(SymbolV, int)> {
    let e = scan_while(s, pos, |c: char| unquoted_symbol_char(c));
    if e > pos {
        Option::Some(
            (SymbolV { value: s.subrange(pos, e), quote_option: QuoteOption::Unquoted }, e),
        )
    } else {
        Option::None
    }
}

/// Parses an unquoted symbol.
pub fn unquoted_symbol(s: &Vec<char>, pos: usize) -> (r: Option<(Symbol, usize)>)
    requires
        pos <= s@.len(),
    ensures
        r is Some <==> spec_unquoted_symbol(s@, pos as int) is Some,
        r is Some ==> {
            let (sv, e) = spec_unquoted_symbol(s@, pos as int)->0;
            (r->0).0@ == sv && (r->0).1 as int == e && pos < (r->0).1 <= s@.len()
        },
{
    let e = scan_class(s, pos, CharClass::UnquotedSymbol);
    if e > pos {
        let body = copy_range(s, pos, e);
        let value = chars_to_string(&body);
        Option::Some((Symbol { value, quote_option: QuoteOption::Unquoted }, e))
    } else {
        Option::None
    }
}

/// A symbol: quoted or, failing that, unquoted.
pub open spec fn spec_symbol(s: Seq<char>, pos: int) -> Option<(SymbolV, int)> {
    match spec_quoted_symbol(s, pos) {
        Option::Some(r) => Option::Some(r),
        Option::None => spec_unquoted_symbol(s, pos),
    }
}

/// Parses a quoted or unquoted symbol, trying quoted first.
pub fn symbol(s: &Vec<char>, pos: usize) -> (r: Option<(Symbol, usize)>)
    requires
        pos <= s@.len(),
    ensures
        r is Some <==> spec_symbol(s@, pos as int) is Some,
        r is Some ==> {
            let (sv, e) = spec_symbol(s@, pos as int)->0;
            (r->0).0@ == sv && (r->0).1 as int == e && pos < (r->0).1 <= s@.len()
        },
{
    match quoted_symbol(s, pos) {
        Option::Some(r) => Option::Some(r),
        Option::None => unquoted_symbol(s, pos),
    }
}

/// The running interpretation of a decimal literal, read left to right:
/// digits extend the mantissa (and the scale once a radix point was
/// seen), commas are dropped, and a second radix point is malformed.
pub ghost struct LitState {
    pub mantissa: int,
    pub scale: nat,
    pub seen_dot: bool,
    pub digits: nat,
    pub ok: bool,
}

pub open spec fn lit_step(st: LitState, c: char) -> LitState {
    if is_digit_char(c) {
        LitState {
            mantissa: 10 * st.mantissa + char_digit(c),
            scale: if st.seen_dot {
                st.scale + 1
            } else {
                st.scale
            },
            seen_dot: st.seen_dot,
            digits: st.digits + 1,
            ok: st.ok,
        }
    } else if c == '.' {
        LitState {
            mantissa: st.mantissa,
            scale: st.scale,
            seen_dot: true,
            digits: st.digits,
            ok: st.ok && !st.seen_dot,
        }
    } else if c == ',' {
        st
    } else {
        LitState {
            mantissa: st.mantissa,
            scale: st.scale,
            seen_dot: st.seen_dot,
            digits: st.digits,
            ok: false,
        }
    }
}

/// The state after reading the first `i` characters of the literal.
pub open spec fn lit_state(cs: Seq<char>, i: int) -> LitState
    decreases i,
{
    if i <= 0 {
        LitState { mantissa: 0, scale: 0, seen_dot: false, digits: 0, ok: true }
    } else {
        lit_step(lit_state(cs, i - 1), cs[i - 1])
    }
}

/// The mantissa never shrinks and never goes negative.
pub proof fn lemma_lit_state_grows(cs: Seq<char>, i: int)
    ensures
        lit_state(cs, i).mantissa >= 0,
    decreases i,
{
    if i > 0 {
        lemma_lit_state_grows(cs, i - 1);
    }
}

/// The decimal a literal region denotes: defined when it is well formed
/// (at least one digit, at most one radix point) and within the
/// library's capacity (mantissa at most `MAX_COEFF`, at most `MAX_SCALE`
/// fraction digits).
pub open spec fn lit_decimal(cs: Seq<char>, neg: bool) -> Option<Decimal> {
    let st = lit_state(cs, cs.len() as int);
    if st.ok && st.digits >= 1 && st.mantissa <= MAX_COEFF && st.scale <= MAX_SCALE {
        Option::Some(
            Decimal {
                mantissa: (if neg {
                    -st.mantissa
                } else {
                    st.mantissa
                }) as i128,
                scale: st.scale as u32,
            },
        )
    } else {
        Option::None
    }
}

/// A quantity and the position after it: an optional leading minus sign
/// (absence means positive), then one or more digits, radix points and
/// thousands separators, interpreted by `lit_decimal`.
pub open spec fn spec_quantity(s: Seq<char>, pos: int) -> Option<(Decimal, int)> {
    let neg = pos < s.len() && s[pos] == '-';
    let p1 = if neg {
        pos + 1
    } else {
        pos
    };
    let e = scan_while(s, p1, |c: char| amount_char(c));
    if e > p1 {
        match lit_decimal(s.subrange(p1, e), neg) {
            Option::Some(d) => Option::Some((d, e)),
            Option::None => Option::None,
        }
    } else {
        Option::None
    }
}

/// Parses a quantity.  Thousands separators are dropped; a literal with
/// no digit, more than one radix point, more than `MAX_SCALE` fraction
/// digits or a mantissa beyond `MAX_COEFF` is a parse failure, never a
/// silent truncation.  The parsed quantity is always well formed.
#[verifier::loop_isolation(false)]
pub fn quantity(s: &Vec<char>, pos: usize) -> (r: Option<(Decimal, usize)>)
    requires
        pos <= s@.len(),
    ensures
        r is Some <==> spec_quantity(s@, pos as int) is Some,
        r is Some ==> {
            let (d, e) = spec_quantity(s@, pos as int)->0;
            (r->0).0 == d && (r->0).1 as int == e && pos < (r->0).1 <= s@.len() && d.wf()
        },
{
    let neg: bool = pos < s.len() && s[pos] == '-';
    let p1: usize = if neg {
        pos + 1
    } else {
        pos
    };
    let e = scan_class(s, p1, CharClass::AmountChar);
    if e == p1 {
        return Option::None;
    }
    let ghost cs = s@.subrange(p1 as int, e as int);
    proof {
        lemma_scan_while(s@, p1 as int, class_pred(CharClass::AmountChar));
    }
    let mut m: i128 = 0;
    let mut sc: u32 = 0;
    let mut seen: bool = false;
    let mut has_digit: bool = false;
    let mut okf: bool = true;
    let mut big: bool = false;
    let mut scale_big: bool = false;
    let mut i: usize = p1;
    while i < e
        invariant
            p1 <= i <= e,
            lit_state(cs, i - p1).seen_dot == seen,
            lit_state(cs, i - p1).ok == okf,
            (lit_state(cs, i - p1).digits >= 1) == has_digit,
            big == (lit_state(cs, i - p1).mantissa > MAX_COEFF),
            !big ==> m == lit_state(cs, i - p1).mantissa,
            scale_big == (lit_state(cs, i - p1).scale > MAX_SCALE),
            !scale_big ==> sc == lit_state(cs, i - p1).scale,
        decreases e - i,
    {
        let ghost st = lit_state(cs, i - p1);
        proof {
            lemma_lit_state_grows(cs, i - p1);
            assert(cs[i - p1] == s@[i as int]);
            assert(lit_state(cs, i + 1 - p1) == lit_step(st, cs[i - p1]));
            assert(amount_char(s@[i as int]));
        }
        let c = s[i];
        if is_digit(c) {
            let d = digit_value(c);
            if !big {
                m = m * 10 + (d as i128);
                if m > MAX_COEFF {
                    big = true;
                }
            }
            if seen && !scale_big {
                sc = sc + 1;
                if sc > MAX_SCALE {
                    scale_big = true;
                }
            }
            has_digit = true;
        } else if c == '.' {
            if seen {
                okf = false;
            } else {
                seen = true;
            }
        }
        i = i + 1;
    }
    if okf && has_digit && !big && !scale_big {
        proof {
            lemma_lit_state_grows(cs, e - p1);
        }
        let mant: i128 = if neg {
            -m
        } else {
            m
        };
        Option::Some((Decimal { mantissa: mant, scale: sc }, e))
    } else {
        Option::None
    }
}

/// A scan over a region known to satisfy the predicate, with a stopper
/// after it, ends exactly at the stopper.
pub proof fn lemma_scan_exact(s: Seq<char>, pos: int, end: int, pred: spec_fn(char) -> bool)
    requires
        0 <= pos <= end <= s.len(),
        forall|i: int| pos <= i < end ==> pred(#[trigger] s[i]),
        end == s.len() || !pred(s[end]),
    ensures
        scan_while(s, pos, pred) == end,
    decreases end - pos,
{
    if pos < end {
        lemma_scan_exact(s, pos + 1, end, pred);
    }
}

/// Reading a pure digit prefix accumulates exactly its value.
pub proof fn lemma_lit_digits_only(cs: Seq<char>, i: int)
    requires
        0 <= i <= cs.len(),
        forall|k: int| 0 <= k < i ==> is_digit_char(#[trigger] cs[k]),
    ensures
        lit_state(cs, i) == (LitState {
            mantissa: digits_val(cs.take(i)),
            scale: 0,
            seen_dot: false,
            digits: i as nat,
            ok: true,
        }),
    decreases i,
{
    if i == 0 {
        assert(cs.take(0) =~= Seq::<char>::empty());
    } else {
        lemma_lit_digits_only(cs, i - 1);
        assert(cs.take(i).drop_last() =~= cs.take(i - 1));
        assert(cs.take(i).last() == cs[i - 1]);
    }
}

/// Reading digits, one radix point and more digits accumulates the
/// value of all the digits with the fraction length as the scale.
pub proof fn lemma_lit_with_dot(cs: Seq<char>, dotpos: int, i: int)
    requires
        0 <= dotpos < i <= cs.len(),
        cs[dotpos] == '.',
        forall|k: int| 0 <= k < i && k != dotpos ==> is_digit_char(#[trigger] cs[k]),
    ensures
        lit_state(cs, i) == (LitState {
            mantissa: digits_val(cs.take(dotpos) + cs.subrange(dotpos + 1, i)),
            scale: (i - dotpos - 1) as nat,
            seen_dot: true,
            digits: (i - 1) as nat,
            ok: true,
        }),
    decreases i,
{
    if i == dotpos + 1 {
        lemma_lit_digits_only(cs, dotpos);
        assert(!is_digit_char('.'));
        assert(cs.subrange(dotpos + 1, i) =~= Seq::<char>::empty());
        assert(cs.take(dotpos) + cs.subrange(dotpos + 1, i) =~= cs.take(dotpos));
    } else {
        lemma_lit_with_dot(cs, dotpos, i - 1);
        let a = cs.take(dotpos);
        let b1 = cs.subrange(dotpos + 1, i - 1);
        let b2 = cs.subrange(dotpos + 1, i);
        assert((a + b2).drop_last() =~= a + b1);
        assert((a + b2).last() == cs[i - 1]);
    }
}

/// Parsing the text of a well-formed quantity, embedded in a larger
/// buffer and followed by a character that cannot extend a decimal
/// literal, yields exactly that quantity.
#[verifier::rlimit(100)]
pub proof fn lemma_quantity_embedded(s: Seq<char>, pos: int, d: Decimal)
    requires
        d.wf(),
        0 <= pos,
        pos + crate::decimal::dec_chars(d.mantissa as int, d.scale as nat).len() <= s.len(),
        s.subrange(pos, pos + crate::decimal::dec_chars(d.mantissa as int, d.scale as nat).len())
            == crate::decimal::dec_chars(d.mantissa as int, d.scale as nat),
        pos + crate::decimal::dec_chars(d.mantissa as int, d.scale as nat).len() == s.len()
            || !amount_char(
            s[pos + crate::decimal::dec_chars(d.mantissa as int, d.scale as nat).len()],
        ),
    ensures
        spec_quantity(s, pos) == Option::Some(
            (d, pos + crate::decimal::dec_chars(d.mantissa as int, d.scale as nat).len()),
        ),
{
    let m = d.mantissa as int;
    let sc = d.scale as nat;
    let txt = crate::decimal::dec_chars(m, sc);
    let end = pos + txt.len();
    let neg = m < 0;
    let mag: nat = (if m < 0 {
        -m
    } else {
        m
    }) as nat;
    crate::decimal::lemma_digits_of_val(mag);
    let ds0 = crate::decimal::digits_of(mag);
    crate::decimal::lemma_zero_pad_val(ds0, sc + 1);
    let ds = crate::decimal::zero_pad(ds0, sc + 1);
    let sign: Seq<char> = if neg {
        seq!['-']
    } else {
        Seq::<char>::empty()
    };
    let region: Seq<char> = if sc == 0 {
        ds
    } else {
        ds.take(ds.len() - sc) + seq!['.'] + ds.skip(ds.len() - sc)
    };
    assert(txt =~= sign + region);
    let p1 = if neg {
        pos + 1
    } else {
        pos
    };
    assert forall|k: int| 0 <= k < region.len() implies #[trigger] region[k] == s[p1 + k] by {
        assert(s.subrange(pos, end)[k + p1 - pos] == s[p1 + k]);
        assert(txt[k + p1 - pos] == (sign + region)[k + p1 - pos]);
    }
    // Every character of the region extends a decimal literal.
    assert forall|i: int| p1 <= i < end implies amount_char(#[trigger] s[i]) by {
        assert(region[i - p1] == s[i]);
        if sc == 0 {
        } else {
            let cut = ds.len() - sc;
            if i - p1 < cut {
                assert(region[i - p1] == ds[i - p1]);
            } else if i - p1 == cut {
                assert(region[i - p1] == '.');
            } else {
                assert(region[i - p1] == ds[i - p1 - 1]);
            }
        }
    }
    // The sign is recognized.
    if neg {
        assert(s.subrange(pos, end)[0] == s[pos]);
        assert(txt[0] == (sign + region)[0]);
        assert(s[pos] == '-');
    } else {
        assert(region[0] == s[pos]);
        if sc == 0 {
            assert(region[0] == ds[0]);
        } else {
            assert(region[0] == ds[0]);
        }
        assert(is_digit_char(ds[0]));
        assert(s[pos] != '-');
    }
    lemma_scan_exact(s, p1, end, |c: char| amount_char(c));
    let cs = s.subrange(p1, end);
    assert forall|k: int| 0 <= k < cs.len() implies #[trigger] cs[k] == region[k] by {
        assert(region[k] == s[p1 + k]);
    }
    assert(cs =~= region);
    // The literal machine reads back the mantissa and the scale.
    if sc == 0 {
        lemma_lit_digits_only(region, region.len() as int);
        assert(region.take(region.len() as int) =~= region);
        assert(lit_state(cs, cs.len() as int).mantissa == mag);
    } else {
        let cut = ds.len() - sc;
        assert(forall|k: int|
            0 <= k < region.len() && k != cut ==> is_digit_char(#[trigger] region[k]));
        assert(region[cut as int] == '.');
        lemma_lit_with_dot(region, cut as int, region.len() as int);
        assert(region.take(cut as int) =~= ds.take(cut as int));
        assert(region.subrange(cut + 1, region.len() as int) =~= ds.skip(cut as int));
        assert(ds.take(cut as int) + ds.skip(cut as int) =~= ds);
        assert(lit_state(cs, cs.len() as int).mantissa == mag);
        assert(lit_state(cs, cs.len() as int).scale == sc);
    }
    assert(lit_decimal(cs, neg) == Option::Some(d));
}

/// Parsing the text of a well-formed symbol, embedded in a larger
/// buffer (followed, when the symbol is unquoted, by a character that
/// cannot extend it), yields exactly that symbol.
pub proof fn lemma_symbol_embedded(s: Seq<char>, pos: int, sv: SymbolV)
    requires
        sv.wf(),
        0 <= pos,
        pos + crate::symbol::symbol_chars(sv).len() <= s.len(),
        s.subrange(pos, pos + crate::symbol::symbol_chars(sv).len())
            == crate::symbol::symbol_chars(sv),
        sv.quote_option == QuoteOption::Unquoted ==> (pos + crate::symbol::symbol_chars(sv).len()
            == s.len() || !unquoted_symbol_char(
            s[pos + crate::symbol::symbol_chars(sv).len()],
        )),
    ensures
        spec_symbol(s, pos) == Option::Some(
            (sv, pos + crate::symbol::symbol_chars(sv).len()),
        ),
{
    let txt = crate::symbol::symbol_chars(sv);
    let end = pos + txt.len();
    assert forall|k: int| 0 <= k < txt.len() implies #[trigger] txt[k] == s[pos + k] by {
        assert(s.subrange(pos, end)[k] == s[pos + k]);
    }
    match sv.quote_option {
        QuoteOption::Quoted => {
            assert(txt =~= seq!['"'] + sv.value + seq!['"']);
            assert(s[pos] == txt[0]);
            assert(txt[0] == '"');
            let vend = pos + 1 + sv.value.len();
            assert forall|i: int| pos + 1 <= i < vend implies quoted_symbol_char(
                #[trigger] s[i],
            ) by {
                assert(txt[i - pos] == sv.value[i - pos - 1]);
            }
            assert(s[vend] == txt[txt.len() - 1]);
            assert(txt[txt.len() - 1] == '"');
            assert(!quoted_symbol_char(s[vend]));
            lemma_scan_exact(s, pos + 1, vend, |c: char| quoted_symbol_char(c));
            assert forall|k: int| 0 <= k < sv.value.len() implies #[trigger] s.subrange(
                pos + 1,
                vend,
            )[k] == sv.value[k] by {
                assert(txt[k + 1] == sv.value[k]);
            }
            assert(s.subrange(pos + 1, vend) =~= sv.value);
        },
        QuoteOption::Unquoted => {
            assert(txt =~= sv.value);
            assert forall|i: int| pos <= i < end implies unquoted_symbol_char(
                #[trigger] s[i],
            ) by {
                assert(txt[i - pos] == sv.value[i - pos]);
            }
            lemma_scan_exact(s, pos, end, |c: char| unquoted_symbol_char(c));
            // The quoted alternative fails: an unquoted symbol cannot
            // begin with a quote.
            assert(s[pos] == txt[0]);
            assert(unquoted_symbol_char(txt[0]));
            assert(s[pos] != '"');
            assert(s.subrange(pos, end) =~= sv.value);
        },
    }
}

/// A decimal literal with its thousands separators removed.
pub open spec fn strip_separators(cs: Seq<char>) -> Seq<char> {
    cs.filter(|c: char| c != ',')
}

/// Reading a prefix depends only on the characters before `i`.
proof fn lemma_lit_state_prefix(cs1: Seq<char>, cs2: Seq<char>, i: int)
    requires
        forall|k: int| 0 <= k < i ==> cs1[k] == cs2[k],
    ensures
        lit_state(cs1, i) == lit_state(cs2, i),
    decreases i,
{
    if i > 0 {
        lemma_lit_state_prefix(cs1, cs2, i - 1);
    }
}

/// Reading a literal prefix is the same as reading it with its
/// thousands separators removed.
proof fn lemma_lit_state_strip(cs: Seq<char>, i: int)
    requires
        0 <= i <= cs.len(),
    ensures
        lit_state(cs, i) == lit_state(
            strip_separators(cs.take(i)),
            strip_separators(cs.take(i)).len() as int,
        ),
    decreases i,
{
    reveal(Seq::filter);
    if i == 0 {
        assert(cs.take(0) =~= Seq::<char>::empty());
        assert(strip_separators(Seq::<char>::empty()) =~= Seq::<char>::empty());
    } else {
        lemma_lit_state_strip(cs, i - 1);
        let prev = cs.take(i - 1);
        let here = cs.take(i);
        assert(here.drop_last() =~= prev);
        assert(here.last() == cs[i - 1]);
        let fprev = strip_separators(prev);
        let fhere = strip_separators(here);
        assert(here.drop_last() == prev);
        assert(fhere == (if here.last() != ',' {
            fprev.push(here.last())
        } else {
            fprev
        }));
        if cs[i - 1] == ',' {
            assert(fhere == fprev);
        } else {
            assert(fhere == fprev.push(cs[i - 1]));
            assert(fhere.drop_last() =~= fprev);
            assert(fhere.last() == cs[i - 1]);
            lemma_lit_state_prefix(fhere, fprev, fprev.len() as int);
            assert(fhere[fhere.len() - 1] == cs[i - 1]);
            assert(lit_state(fhere, fhere.len() as int) == lit_step(
                lit_state(fprev, fprev.len() as int),
                cs[i - 1],
            ));
        }
    }
}

/// Thousands-separator insensitivity: a decimal literal denotes exactly
/// the quantity its separator-free spelling denotes.
pub proof fn lemma_separators_ignored(cs: Seq<char>, neg: bool)
    ensures
        lit_decimal(cs, neg) == lit_decimal(strip_separators(cs), neg),
{
    lemma_lit_state_strip(cs, cs.len() as int);
    assert(cs.take(cs.len() as int) =~= cs);
}

} // verus!
