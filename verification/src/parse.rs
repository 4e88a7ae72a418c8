//! Structural parsers: amounts with their symbols, price records,
//! transaction headers, account paths, postings, whole transactions and
//! whole ledgers.
//!
//! As in the lexical layer, every parser consumes a prefix of the input
//! from a position and never consumes anything on failure, and every
//! executable parser is proved against its specification-level mirror.

use vstd::prelude::*;
use crate::amount::Amount;
use crate::amount::AmountV;
use crate::amount::RenderOptions;
use crate::amount::SymbolPosition;
use crate::ast::ParseTree;
use crate::ast::ParseTreeV;
use crate::ast::RawPosting;
use crate::ast::RawPostingV;
use crate::ast::RawTransaction;
use crate::ast::RawTransactionV;
use crate::header::Header;
use crate::header::HeaderV;
use crate::header::Status;
use crate::lex::CharClass;
use crate::lex::class_pred;
use crate::lex::code_char;
use crate::lex::comment_char;
use crate::lex::alnum_char;
use crate::lex::payee_char;
use crate::lex::scan_class;
use crate::lex::scan_while;
use crate::lex::copy_range;
use crate::lex::spec_date;
use crate::lex::spec_line_ending;
use crate::lex::spec_mandatory_whitespace;
use crate::lex::spec_quantity;
use crate::lex::spec_symbol;
use crate::lex::spec_whitespace;
use crate::lex::date;
use crate::lex::line_ending;
use crate::lex::mandatory_whitespace;
use crate::lex::quantity;
use crate::lex::symbol;
use crate::lex::whitespace;
use crate::posting::AmountSource;
use crate::price::Price;
use crate::price::PriceV;
use crate::text::chars_to_string;

verus! {

/// An amount written symbol-first and the position after it.
pub open spec fn spec_amount_symbol_then_quantity(s: Seq<char>, pos: int) -> Option<
    (AmountV, int),
> {
    match spec_symbol(s, pos) {
        Option::None => Option::None,
        Option::Some((sym, p1)) => {
            let (sp, p2) = spec_whitespace(s, p1);
            match spec_quantity(s, p2) {
                Option::None => Option::None,
                Option::Some((q, e)) => Option::Some(
                    (
                        AmountV {
                            quantity: q,
                            symbol: sym,
                            render_options: RenderOptions {
                                symbol_position: SymbolPosition::Left,
                                spacing: sp,
                            },
                        },
                        e,
                    ),
                ),
            }
        },
    }
}

/// Parses an amount in the format of symbol then quantity.
pub fn amount_symbol_then_quantity(s: &Vec<char>, pos: usize) -> (r: Option<(Amount, usize)>)
    requires
        pos <= s@.len(),
    ensures
        r is Some <==> spec_amount_symbol_then_quantity(s@, pos as int) is Some,
        r is Some ==> {
            let (av, e) = spec_amount_symbol_then_quantity(s@, pos as int)->0;
            (r->0).0@ == av && (r->0).1 as int == e && pos < (r->0).1 <= s@.len()
        },
{
    let (sym, p1) = match symbol(s, pos) {
        Option::Some(v) => v,
        Option::None => {
            return Option::None;
        },
    };
    let (sp, p2) = whitespace(s, p1);
    let (q, e) = match quantity(s, p2) {
        Option::Some(v) => v,
        Option::None => {
            return Option::None;
        },
    };
    Option::Some(
        (
            Amount {
                quantity: q,
                symbol: sym,
                render_options: RenderOptions {
                    symbol_position: SymbolPosition::Left,
                    spacing: sp,
                },
            },
            e,
        ),
    )
}

/// An amount written quantity-first and the position after it.
pub open spec fn spec_amount_quantity_then_symbol(s: Seq<char>, pos: int) -> Option<
    (AmountV, int),
> {
    match spec_quantity(s, pos) {
        Option::None => Option::None,
        Option::Some((q, p1)) => {
            let (sp, p2) = spec_whitespace(s, p1);
            match spec_symbol(s, p2) {
                Option::None => Option::None,
                Option::Some((sym, e)) => Option::Some(
                    (
                        AmountV {
                            quantity: q,
                            symbol: sym,
                            render_options: RenderOptions {
                                symbol_position: SymbolPosition::Right,
                                spacing: sp,
                            },
                        },
                        e,
                    ),
                ),
            }
        },
    }
}

/// Parses an amount in the format of quantity then symbol.
pub fn amount_quantity_then_symbol(s: &Vec<char>, pos: usize) -> (r: Option<(Amount, usize)>)
    requires
        pos <= s@.len(),
    ensures
        r is Some <==> spec_amount_quantity_then_symbol(s@, pos as int) is Some,
        r is Some ==> {
            let (av, e) = spec_amount_quantity_then_symbol(s@, pos as int)->0;
            (r->0).0@ == av && (r->0).1 as int == e && pos < (r->0).1 <= s@.len()
        },
{
    let (q, p1) = match quantity(s, pos) {
        Option::Some(v) => v,
        Option::None => {
            return Option::None;
        },
    };
    let (sp, p2) = whitespace(s, p1);
    let (sym, e) = match symbol(s, p2) {
        Option::Some(v) => v,
        Option::None => {
            return Option::None;
        },
    };
    Option::Some(
        (
            Amount {
                quantity: q,
                symbol: sym,
                render_options: RenderOptions {
                    symbol_position: SymbolPosition::Right,
                    spacing: sp,
                },
            },
            e,
        ),
    )
}

/// An amount either way around; the symbol-first ordering is tried
/// before the quantity-first ordering, and a bare quantity with no
/// symbol is never an amount.
pub open spec fn spec_amount(s: Seq<char>, pos: int) -> Option<(AmountV, int)> {
    match spec_amount_symbol_then_quantity(s, pos) {
        Option::Some(r) => Option::Some(r),
        Option::None => spec_amount_quantity_then_symbol(s, pos),
    }
}

/// Parses an amount.
pub fn amount(s: &Vec<char>, pos: usize) -> (r: Option<(Amount, usize)>)
    requires
        pos <= s@.len(),
    ensures
        r is Some <==> spec_amount(s@, pos as int) is Some,
        r is Some ==> {
            let (av, e) = spec_amount(s@, pos as int)->0;
            (r->0).0@ == av && (r->0).1 as int == e && pos < (r->0).1 <= s@.len()
        },
{
    match amount_symbol_then_quantity(s, pos) {
        Option::Some(r) => Option::Some(r),
        Option::None => amount_quantity_then_symbol(s, pos),
    }
}

/// An optional amount and its source tag; never fails.
pub open spec fn spec_amount_or_inferred(s: Seq<char>, pos: int) -> (
    (AmountSource, Option<AmountV>),
    int,
) {
    match spec_amount(s, pos) {
        Option::Some((av, e)) => ((AmountSource::Provided, Option::Some(av)), e),
        Option::None => ((AmountSource::Inferred, Option::None), pos),
    }
}

/// Parses an amount or classifies it as one to be inferred.
pub fn amount_or_inferred(s: &Vec<char>, pos: usize) -> (r: ((AmountSource, Option<Amount>), usize))
    requires
        pos <= s@.len(),
    ensures
        ({
            let ((src, av), e) = spec_amount_or_inferred(s@, pos as int);
            r.0.0 == src && crate::ast::opt_amount_view(r.0.1) == av && r.1 as int == e && pos
                <= r.1 <= s@.len()
        }),
{
    match amount(s, pos) {
        Option::Some((a, e)) => ((AmountSource::Provided, Option::Some(a)), e),
        Option::None => ((AmountSource::Inferred, Option::None), pos),
    }
}

/// A price record and the position after it: `P`, then the date, the
/// priced symbol and its value, separated by mandatory whitespace.
pub open spec fn spec_price(s: Seq<char>, pos: int) -> Option<(PriceV, int)> {
    if pos < s.len() && s[pos] == 'P' {
        match spec_mandatory_whitespace(s, pos + 1) {
            Option::None => Option::None,
            Option::Some(p1) => match spec_date(s, p1) {
                Option::None => Option::None,
                Option::Some((dt, p2)) => match spec_mandatory_whitespace(s, p2) {
                    Option::None => Option::None,
                    Option::Some(p3) => match spec_symbol(s, p3) {
                        Option::None => Option::None,
                        Option::Some((sym, p4)) => match spec_mandatory_whitespace(s, p4) {
                            Option::None => Option::None,
                            Option::Some(p5) => match spec_amount(s, p5) {
                                Option::None => Option::None,
                                Option::Some((av, e)) => Option::Some(
                                    (PriceV { date: dt, symbol: sym, amount: av }, e),
                                ),
                            },
                        },
                    },
                },
            },
        }
    } else {
        Option::None
    }
}

/// Parses a price entry.
pub fn price(s: &Vec<char>, pos: usize) -> (r: Option<(Price, usize)>)
    requires
        pos <= s@.len(),
    ensures
        r is Some <==> spec_price(s@, pos as int) is Some,
        r is Some ==> {
            let (pv, e) = spec_price(s@, pos as int)->0;
            (r->0).0@ == pv && (r->0).1 as int == e && pos < (r->0).1 <= s@.len()
        },
{
    if !(pos < s.len() && s[pos] == 'P') {
        return Option::None;
    }
    let p1 = match mandatory_whitespace(s, pos + 1) {
        Option::Some(v) => v,
        Option::None => {
            return Option::None;
        },
    };
    let (dt, p2) = match date(s, p1) {
        Option::Some(v) => v,
        Option::None => {
            return Option::None;
        },
    };
    let p3 = match mandatory_whitespace(s, p2) {
        Option::Some(v) => v,
        Option::None => {
            return Option::None;
        },
    };
    let (sym, p4) = match symbol(s, p3) {
        Option::Some(v) => v,
        Option::None => {
            return Option::None;
        },
    };
    let p5 = match mandatory_whitespace(s, p4) {
        Option::Some(v) => v,
        Option::None => {
            return Option::None;
        },
    };
    let (am, e) = match amount(s, p5) {
        Option::Some(v) => v,
        Option::None => {
            return Option::None;
        },
    };
    Option::Some((Price { date: dt, symbol: sym, amount: am }, e))
}

/// A transaction status token: `*` is cleared, `!` is uncleared.
pub open spec fn spec_status(s: Seq<char>, pos: int) -> Option<(Status, int)> {
    if pos < s.len() && s[pos] == '*' {
        Option::Some((Status::Cleared, pos + 1))
    } else if pos < s.len() && s[pos] == '!' {
        Option::Some((Status::Uncleared, pos + 1))
    } else {
        Option::None
    }
}

/// Parses a transaction status token.
pub fn status(s: &Vec<char>, pos: usize) -> (r: Option<(Status, usize)>)
    requires
        pos <= s@.len(),
    ensures
        r is Some <==> spec_status(s@, pos as int) is Some,
        r is Some ==> (r->0).0 == (spec_status(s@, pos as int)->0).0 && (r->0).1 as int
            == (spec_status(s@, pos as int)->0).1 && pos < (r->0).1 <= s@.len(),
{
    if pos < s.len() && s[pos] == '*' {
        Option::Some((Status::Cleared, pos + 1))
    } else if pos < s.len() && s[pos] == '!' {
        Option::Some((Status::Uncleared, pos + 1))
    } else {
        Option::None
    }
}

/// A parenthesized transaction code (possibly empty) and the position
/// after it.
pub open spec fn spec_code(s: Seq<char>, pos: int) -> Option<(Seq<char>, int)> {
    if pos < s.len() && s[pos] == '(' {
        let e = scan_while(s, pos + 1, |c: char| code_char(c));
        if e < s.len() && s[e] == ')' {
            Option::Some((s.subrange(pos + 1, e), e + 1))
        } else {
            Option::None
        }
    } else {
        Option::None
    }
}

/// Parses a transaction code, e.g. `(cheque #802)`.
pub fn code(s: &Vec<char>, pos: usize) -> (r: Option<(String, usize)>)
    requires
        pos <= s@.len(),
    ensures
        r is Some <==> spec_code(s@, pos as int) is Some,
        r is Some ==> {
            let (cv, e) = spec_code(s@, pos as int)->0;
            (r->0).0@ == cv && (r->0).1 as int == e && pos < (r->0).1 <= s@.len()
        },
{
    if !(pos < s.len() && s[pos] == '(') {
        return Option::None;
    }
    let e = scan_class(s, pos + 1, CharClass::CodeChar);
    if e < s.len() && s[e] == ')' {
        let body = copy_range(s, pos + 1, e);
        Option::Some((chars_to_string(&body), e + 1))
    } else {
        Option::None
    }
}

/// A payee (one or more characters other than `;` and line breaks) and
/// the position after it.
pub open spec fn spec_payee(s: Seq<char>, pos: int) -> Option<(Seq<char>, int)> {
    let e = scan_while(s, pos, |c: char| payee_char(c));
    if e > pos {
        Option::Some((s.subrange(pos, e), e))
    } else {
        Option::None
    }
}

/// Parses a payee.
pub fn payee(s: &Vec<char>, pos: usize) -> (r: Option<(String, usize)>)
    requires
        pos <= s@.len(),
    ensures
        r is Some <==> spec_payee(s@, pos as int) is Some,
        r is Some ==> {
            let (pv, e) = spec_payee(s@, pos as int)->0;
            (r->0).0@ == pv && (r->0).1 as int == e && pos < (r->0).1 <= s@.len()
        },
{
    let e = scan_class(s, pos, CharClass::PayeeChar);
    if e > pos {
        let body = copy_range(s, pos, e);
        Option::Some((chars_to_string(&body), e))
    } else {
        Option::None
    }
}

/// A comment body (possibly empty) after a `;`, and the position after
/// it.
pub open spec fn spec_comment(s: Seq<char>, pos: int) -> Option<(Seq<char>, int)> {
    if pos < s.len() && s[pos] == ';' {
        let e = scan_while(s, pos + 1, |c: char| comment_char(c));
        Option::Some((s.subrange(pos + 1, e), e))
    } else {
        Option::None
    }
}

/// Parses a comment.
pub fn comment(s: &Vec<char>, pos: usize) -> (r: Option<(String, usize)>)
    requires
        pos <= s@.len(),
    ensures
        r is Some <==> spec_comment(s@, pos as int) is Some,
        r is Some ==> {
            let (cv, e) = spec_comment(s@, pos as int)->0;
            (r->0).0@ == cv && (r->0).1 as int == e && pos < (r->0).1 <= s@.len()
        },
{
    if pos < s.len() && s[pos] == ';' {
        let e = scan_class(s, pos + 1, CharClass::CommentChar);
        let body = copy_range(s, pos + 1, e);
        Option::Some((chars_to_string(&body), e))
    } else {
        Option::None
    }
}

/// An account segment: one or more alphanumeric characters.
pub open spec fn spec_sub_account(s: Seq<char>, pos: int) -> Option<(Seq<char>, int)> {
    let e = scan_while(s, pos, |c: char| alnum_char(c));
    if e > pos {
        Option::Some((s.subrange(pos, e), e))
    } else {
        Option::None
    }
}

/// Parses a sub-account name, which must be alphanumeric.
pub fn sub_account(s: &Vec<char>, pos: usize) -> (r: Option<(String, usize)>)
    requires
        pos <= s@.len(),
    ensures
        r is Some <==> spec_sub_account(s@, pos as int) is Some,
        r is Some ==> {
            let (sv, e) = spec_sub_account(s@, pos as int)->0;
            (r->0).0@ == sv && (r->0).1 as int == e && pos < (r->0).1 <= s@.len()
        },
{
    let e = scan_class(s, pos, CharClass::Alnum);
    if e > pos {
        let body = copy_range(s, pos, e);
        Option::Some((chars_to_string(&body), e))
    } else {
        Option::None
    }
}

/// The colon-separated segments after the first one.  A colon must be
/// followed by a segment, or the whole account fails.
pub open spec fn spec_account_rest(s: Seq<char>, pos: int) -> Option<(Seq<Seq<char>>, int)>
    decreases s.len() - pos,
{
    if pos < s.len() && s[pos] == ':' {
        match spec_sub_account(s, pos + 1) {
            Option::None => Option::None,
            Option::Some((seg, e)) => {
                if pos < e <= s.len() {
                    match spec_account_rest(s, e) {
                        Option::None => Option::None,
                        Option::Some((segs, e2)) => Option::Some((seq![seg] + segs, e2)),
                    }
                } else {
                    Option::None
                }
            },
        }
    } else {
        Option::Some((Seq::<Seq<char>>::empty(), pos))
    }
}

/// An account path and the position after it: one or more alphanumeric
/// segments separated by colons.
pub open spec fn spec_account(s: Seq<char>, pos: int) -> Option<(Seq<Seq<char>>, int)> {
    match spec_sub_account(s, pos) {
        Option::None => Option::None,
        Option::Some((seg, e)) => match spec_account_rest(s, e) {
            Option::None => Option::None,
            Option::Some((segs, e2)) => Option::Some((seq![seg] + segs, e2)),
        },
    }
}

/// Parses an account, made up of sub-accounts separated by colons.
pub fn account(s: &Vec<char>, pos: usize) -> (r: Option<(Vec<String>, usize)>)
    requires
        pos <= s@.len(),
    ensures
        r is Some <==> spec_account(s@, pos as int) is Some,
        r is Some ==> {
            let (segs, e) = spec_account(s@, pos as int)->0;
            crate::posting::seq_view((r->0).0@) == segs && (r->0).1 as int == e && pos < (r->0).1
                <= s@.len()
        },
{
    let (seg0, e0) = match sub_account(s, pos) {
        Option::Some(v) => v,
        Option::None => {
            return Option::None;
        },
    };
    let mut segs: Vec<String> = Vec::new();
    segs.push(seg0);
    let mut cur: usize = e0;
    proof {
        assert(crate::posting::seq_view(segs@) =~= seq![seg0@]);
    }
    loop
        invariant
            pos < cur <= s@.len(),
            segs@.len() >= 1,
            spec_account(s@, pos as int) == (match spec_account_rest(s@, cur as int) {
                Option::None => Option::None::<(Seq<Seq<char>>, int)>,
                Option::Some((more, e2)) => Option::Some(
                    (crate::posting::seq_view(segs@) + more, e2),
                ),
            }),
        decreases s@.len() - cur,
    {
        if cur < s.len() && s[cur] == ':' {
            match sub_account(s, cur + 1) {
                Option::Some((seg, e)) => {
                    segs.push(seg);
                    proof {
                        assert(crate::posting::seq_view(segs@) =~= crate::posting::seq_view(
                            segs@.drop_last(),
                        ) + seq![seg@]);
                        assert(forall|a: Seq<Seq<char>>, b: Seq<Seq<char>>, c: Seq<Seq<char>>|
                            (a + b) + c =~= a + (b + c));
                    }
                    cur = e;
                },
                Option::None => {
                    return Option::None;
                },
            }
        } else {
            proof {
                assert(spec_account_rest(s@, cur as int) == Option::Some(
                    (Seq::<Seq<char>>::empty(), cur as int),
                ));
                assert(crate::posting::seq_view(segs@) + Seq::<Seq<char>>::empty()
                    =~= crate::posting::seq_view(segs@));
            }
            return Option::Some((segs, cur));
        }
    }
}

/// A raw posting and the position after it: an account path, optional
/// whitespace, an optional amount, optional whitespace and an optional
/// comment.  An absent amount is tagged for inference.
pub open spec fn spec_posting(s: Seq<char>, pos: int) -> Option<(RawPostingV, int)> {
    match spec_account(s, pos) {
        Option::None => Option::None,
        Option::Some((segs, p1)) => {
            let (_sp1, p2) = spec_whitespace(s, p1);
            let ((src, av), p3) = spec_amount_or_inferred(s, p2);
            let (_sp2, p4) = spec_whitespace(s, p3);
            match spec_comment(s, p4) {
                Option::Some((cv, e)) => Option::Some(
                    (
                        RawPostingV {
                            full_account: crate::posting::joined_name(segs),
                            sub_accounts: segs,
                            amount: av,
                            amount_source: src,
                            comment: Option::Some(cv),
                        },
                        e,
                    ),
                ),
                Option::None => Option::Some(
                    (
                        RawPostingV {
                            full_account: crate::posting::joined_name(segs),
                            sub_accounts: segs,
                            amount: av,
                            amount_source: src,
                            comment: Option::None,
                        },
                        p4,
                    ),
                ),
            }
        },
    }
}

/// Parses a transaction posting.
pub fn posting(s: &Vec<char>, pos: usize) -> (r: Option<(RawPosting, usize)>)
    requires
        pos <= s@.len(),
    ensures
        r is Some <==> spec_posting(s@, pos as int) is Some,
        r is Some ==> {
            let (pv, e) = spec_posting(s@, pos as int)->0;
            (r->0).0@ == pv && (r->0).1 as int == e && pos < (r->0).1 <= s@.len()
        },
{
    let (segs, p1) = match account(s, pos) {
        Option::Some(v) => v,
        Option::None => {
            return Option::None;
        },
    };
    let (_sp1, p2) = whitespace(s, p1);
    let ((src, av), p3) = amount_or_inferred(s, p2);
    let (_sp2, p4) = whitespace(s, p3);
    let (com, e): (Option<String>, usize) = match comment(s, p4) {
        Option::Some((cv, ce)) => (Option::Some(cv), ce),
        Option::None => (Option::None, p4),
    };
    let rp = RawPosting::new(segs, av, src, com);
    Option::Some((rp, e))
}

/// A posting line and the position after it: mandatory leading
/// whitespace (what distinguishes it from a header line), the posting,
/// and a line ending.
pub open spec fn spec_posting_line(s: Seq<char>, pos: int) -> Option<(RawPostingV, int)> {
    match spec_mandatory_whitespace(s, pos) {
        Option::None => Option::None,
        Option::Some(p1) => match spec_posting(s, p1) {
            Option::None => Option::None,
            Option::Some((pv, p2)) => match spec_line_ending(s, p2) {
                Option::None => Option::None,
                Option::Some(e) => Option::Some((pv, e)),
            },
        },
    }
}

/// Parses a transaction posting line, which must begin with whitespace.
pub fn posting_line(s: &Vec<char>, pos: usize) -> (r: Option<(RawPosting, usize)>)
    requires
        pos <= s@.len(),
    ensures
        r is Some <==> spec_posting_line(s@, pos as int) is Some,
        r is Some ==> {
            let (pv, e) = spec_posting_line(s@, pos as int)->0;
            (r->0).0@ == pv && (r->0).1 as int == e && pos < (r->0).1 <= s@.len()
        },
{
    let p1 = match mandatory_whitespace(s, pos) {
        Option::Some(v) => v,
        Option::None => {
            return Option::None;
        },
    };
    let (pv, p2) = match posting(s, p1) {
        Option::Some(v) => v,
        Option::None => {
            return Option::None;
        },
    };
    match line_ending(s, p2) {
        Option::Some(e) => Option::Some((pv, e)),
        Option::None => Option::None,
    }
}

/// A comment line and the position after it: optional leading
/// whitespace, a comment and a line ending.
pub open spec fn spec_comment_line(s: Seq<char>, pos: int) -> Option<(Seq<char>, int)> {
    let (_sp, p1) = spec_whitespace(s, pos);
    match spec_comment(s, p1) {
        Option::None => Option::None,
        Option::Some((cv, p2)) => match spec_line_ending(s, p2) {
            Option::None => Option::None,
            Option::Some(e) => Option::Some((cv, e)),
        },
    }
}

/// Parses a comment line, which may start with whitespace.
pub fn comment_line(s: &Vec<char>, pos: usize) -> (r: Option<(String, usize)>)
    requires
        pos <= s@.len(),
    ensures
        r is Some <==> spec_comment_line(s@, pos as int) is Some,
        r is Some ==> {
            let (cv, e) = spec_comment_line(s@, pos as int)->0;
            (r->0).0@ == cv && (r->0).1 as int == e && pos < (r->0).1 <= s@.len()
        },
{
    let (_sp, p1) = whitespace(s, pos);
    let (cv, p2) = match comment(s, p1) {
        Option::Some(v) => v,
        Option::None => {
            return Option::None;
        },
    };
    match line_ending(s, p2) {
        Option::Some(e) => Option::Some((cv, e)),
        Option::None => Option::None,
    }
}

/// A transaction header and the position after it: date, status, an
/// optional parenthesized code, the payee and an optional trailing
/// comment.  A code must be followed by whitespace.
pub open spec fn spec_header(s: Seq<char>, pos: int) -> Option<(HeaderV, int)> {
    match spec_date(s, pos) {
        Option::None => Option::None,
        Option::Some((dt, p1)) => match spec_mandatory_whitespace(s, p1) {
            Option::None => Option::None,
            Option::Some(p2) => match spec_status(s, p2) {
                Option::None => Option::None,
                Option::Some((st, p3)) => match spec_mandatory_whitespace(s, p3) {
                    Option::None => Option::None,
                    Option::Some(p4) => {
                        let code_part: Option<(Option<Seq<char>>, int)> = match spec_code(s, p4) {
                            Option::Some((cv, p5)) => match spec_mandatory_whitespace(s, p5) {
                                Option::Some(p6) => Option::Some((Option::Some(cv), p6)),
                                Option::None => Option::None,
                            },
                            Option::None => Option::Some((Option::None, p4)),
                        };
                        match code_part {
                            Option::None => Option::None,
                            Option::Some((cd, p7)) => match spec_payee(s, p7) {
                                Option::None => Option::None,
                                Option::Some((py, p8)) => match spec_comment(s, p8) {
                                    Option::Some((cv, e)) => Option::Some(
                                        (
                                            HeaderV {
                                                date: dt,
                                                status: st,
                                                code: cd,
                                                payee: py,
                                                comment: Option::Some(cv),
                                            },
                                            e,
                                        ),
                                    ),
                                    Option::None => Option::Some(
                                        (
                                            HeaderV {
                                                date: dt,
                                                status: st,
                                                code: cd,
                                                payee: py,
                                                comment: Option::None,
                                            },
                                            p8,
                                        ),
                                    ),
                                },
                            },
                        }
                    },
                },
            },
        },
    }
}

/// Parses a transaction header.
pub fn header(s: &Vec<char>, pos: usize) -> (r: Option<(Header, usize)>)
    requires
        pos <= s@.len(),
    ensures
        r is Some <==> spec_header(s@, pos as int) is Some,
        r is Some ==> {
            let (hv, e) = spec_header(s@, pos as int)->0;
            (r->0).0@ == hv && (r->0).1 as int == e && pos < (r->0).1 <= s@.len()
        },
{
    let (dt, p1) = match date(s, pos) {
        Option::Some(v) => v,
        Option::None => {
            return Option::None;
        },
    };
    let p2 = match mandatory_whitespace(s, p1) {
        Option::Some(v) => v,
        Option::None => {
            return Option::None;
        },
    };
    let (st, p3) = match status(s, p2) {
        Option::Some(v) => v,
        Option::None => {
            return Option::None;
        },
    };
    let p4 = match mandatory_whitespace(s, p3) {
        Option::Some(v) => v,
        Option::None => {
            return Option::None;
        },
    };
    let (cd, p7): (Option<String>, usize) = match code(s, p4) {
        Option::Some((cv, p5)) => {
            match mandatory_whitespace(s, p5) {
                Option::Some(p6) => (Option::Some(cv), p6),
                Option::None => {
                    return Option::None;
                },
            }
        },
        Option::None => (Option::None, p4),
    };
    let (py, p8) = match payee(s, p7) {
        Option::Some(v) => v,
        Option::None => {
            return Option::None;
        },
    };
    let (com, e): (Option<String>, usize) = match comment(s, p8) {
        Option::Some((cv, ce)) => (Option::Some(cv), ce),
        Option::None => (Option::None, p8),
    };
    Option::Some((Header { date: dt, status: st, code: cd, payee: py, comment: com }, e))
}

/// The lines of a transaction body after the header: comment lines are
/// discarded, posting lines are collected in order, and the body ends at
/// the first line that is neither.  Returns how many lines were seen,
/// the postings, and the position after the body.
pub open spec fn spec_tx_lines(s: Seq<char>, pos: int) -> (nat, Seq<RawPostingV>, int)
    decreases s.len() - pos,
{
    match spec_comment_line(s, pos) {
        Option::Some((_cv, e)) => {
            if pos < e <= s.len() {
                let (n, ps, e2) = spec_tx_lines(s, e);
                (n + 1, ps, e2)
            } else {
                (1, Seq::<RawPostingV>::empty(), e)
            }
        },
        Option::None => match spec_posting_line(s, pos) {
            Option::Some((pv, e)) => {
                if pos < e <= s.len() {
                    let (n, ps, e2) = spec_tx_lines(s, e);
                    (n + 1, seq![pv] + ps, e2)
                } else {
                    (1, seq![pv], e)
                }
            },
            Option::None => (0, Seq::<RawPostingV>::empty(), pos),
        },
    }
}

/// A whole transaction and the position after it: a header line followed
/// by one or more comment or posting lines.
pub open spec fn spec_transaction(s: Seq<char>, pos: int) -> Option<(RawTransactionV, int)> {
    match spec_header(s, pos) {
        Option::None => Option::None,
        Option::Some((hv, p1)) => match spec_line_ending(s, p1) {
            Option::None => Option::None,
            Option::Some(p2) => {
                let (n, ps, e) = spec_tx_lines(s, p2);
                if n >= 1 {
                    Option::Some((RawTransactionV { header: hv, postings: ps }, e))
                } else {
                    Option::None
                }
            },
        },
    }
}

/// Parses a whole transaction.
#[verifier::loop_isolation(false)]
pub fn transaction(s: &Vec<char>, pos: usize) -> (r: Option<(RawTransaction, usize)>)
    requires
        pos <= s@.len(),
    ensures
        r is Some <==> spec_transaction(s@, pos as int) is Some,
        r is Some ==> {
            let (tv, e) = spec_transaction(s@, pos as int)->0;
            (r->0).0@ == tv && (r->0).1 as int == e && pos < (r->0).1 <= s@.len()
        },
{
    let (hv, p1) = match header(s, pos) {
        Option::Some(v) => v,
        Option::None => {
            return Option::None;
        },
    };
    let p2 = match line_ending(s, p1) {
        Option::Some(v) => v,
        Option::None => {
            return Option::None;
        },
    };
    let mut postings: Vec<RawPosting> = Vec::new();
    let mut lines: usize = 0;
    let mut cur: usize = p2;
    proof {
        assert(crate::ast::postings_view(postings@) =~= Seq::<RawPostingV>::empty());
    }
    loop
        invariant
            pos < cur <= s@.len(),
            lines <= cur,
            spec_tx_lines(s@, p2 as int) == {
                let (n, ps, e) = spec_tx_lines(s@, cur as int);
                ((lines + n) as nat, crate::ast::postings_view(postings@) + ps, e)
            },
        decreases s@.len() - cur,
    {
        match comment_line(s, cur) {
            Option::Some((_cv, e)) => {
                lines = lines + 1;
                cur = e;
            },
            Option::None => {
                match posting_line(s, cur) {
                    Option::Some((pv, e)) => {
                        let ghost prev = postings@;
                        postings.push(pv);
                        proof {
                            assert(crate::ast::postings_view(postings@) =~= crate::ast::postings_view(
                                prev,
                            ) + seq![pv@]);
                            assert(forall|a: Seq<RawPostingV>, b: Seq<RawPostingV>, c: Seq<
                                RawPostingV,
                            >| (a + b) + c =~= a + (b + c));
                        }
                        lines = lines + 1;
                        cur = e;
                    },
                    Option::None => {
                        proof {
                            assert(spec_tx_lines(s@, cur as int) == (
                                0nat,
                                Seq::<RawPostingV>::empty(),
                                cur as int,
                            ));
                            assert(crate::ast::postings_view(postings@) + Seq::<
                                RawPostingV,
                            >::empty() =~= crate::ast::postings_view(postings@));
                            assert(spec_tx_lines(s@, p2 as int) == (
                                lines as nat,
                                crate::ast::postings_view(postings@),
                                cur as int,
                            ));
                        }
                        if lines == 0 {
                            return Option::None;
                        }
                        return Option::Some(
                            (RawTransaction { header: hv, postings }, cur),
                        );
                    },
                }
            },
        }
    }
}

/// One skippable line: optional whitespace, an optional comment and a
/// line ending.  Returns the position after it, or nothing — consuming
/// nothing — when the line is anything else.
pub open spec fn spec_skip_one(s: Seq<char>, pos: int) -> Option<int> {
    let (_sp, p1) = spec_whitespace(s, pos);
    let p2 = match spec_comment(s, p1) {
        Option::Some((_cv, ce)) => ce,
        Option::None => p1,
    };
    spec_line_ending(s, p2)
}

/// The position after any number of comment or empty lines.
pub open spec fn spec_skip_lines(s: Seq<char>, pos: int) -> int
    decreases s.len() - pos,
{
    match spec_skip_one(s, pos) {
        Option::Some(e) => if pos < e <= s.len() {
            spec_skip_lines(s, e)
        } else {
            e
        },
        Option::None => pos,
    }
}

/// Parses and discards any number of comment or empty lines.
#[verifier::loop_isolation(false)]
pub fn skip_comment_or_empty_lines(s: &Vec<char>, pos: usize) -> (r: usize)
    requires
        pos <= s@.len(),
    ensures
        r as int == spec_skip_lines(s@, pos as int),
        pos <= r <= s@.len(),
{
    let mut cur: usize = pos;
    loop
        invariant
            pos <= cur <= s@.len(),
            spec_skip_lines(s@, pos as int) == spec_skip_lines(s@, cur as int),
        decreases s@.len() - cur,
    {
        let (_sp, p1) = whitespace(s, cur);
        let p2 = match comment(s, p1) {
            Option::Some((_cv, ce)) => ce,
            Option::None => p1,
        };
        match line_ending(s, p2) {
            Option::Some(e) => {
                cur = e;
            },
            Option::None => {
                return cur;
            },
        }
    }
}

/// The entries of a ledger from a position: transactions and prices in
/// source order, each followed by skipped comment or blank lines, and
/// the position where no further entry parses.
pub open spec fn spec_ledger_items(s: Seq<char>, pos: int) -> (Seq<ParseTreeV>, int)
    decreases s.len() - pos,
{
    match spec_transaction(s, pos) {
        Option::Some((tv, e)) => {
            if pos < e <= s.len() {
                let e2 = spec_skip_lines(s, e);
                if e < e2 <= s.len() {
                    let (items, e3) = spec_ledger_items(s, e2);
                    (seq![ParseTreeV::Transaction(tv)] + items, e3)
                } else {
                    let (items, e3) = spec_ledger_items(s, e);
                    (seq![ParseTreeV::Transaction(tv)] + items, e3)
                }
            } else {
                (seq![ParseTreeV::Transaction(tv)], e)
            }
        },
        Option::None => match spec_price(s, pos) {
            Option::Some((pv, e)) => {
                if pos < e <= s.len() {
                    let e2 = spec_skip_lines(s, e);
                    if e < e2 <= s.len() {
                        let (items, e3) = spec_ledger_items(s, e2);
                        (seq![ParseTreeV::Price(pv)] + items, e3)
                    } else {
                        let (items, e3) = spec_ledger_items(s, e);
                        (seq![ParseTreeV::Price(pv)] + items, e3)
                    }
                } else {
                    (seq![ParseTreeV::Price(pv)], e)
                }
            },
            Option::None => (Seq::<ParseTreeV>::empty(), pos),
        },
    }
}

/// A whole ledger: leading comment or blank lines, then the entries, and
/// the position where parsing stopped.
pub open spec fn spec_ledger(s: Seq<char>) -> (Seq<ParseTreeV>, int) {
    spec_ledger_items(s, spec_skip_lines(s, 0))
}

/// The views of a sequence of parse trees.
pub open spec fn trees_view(v: Seq<ParseTree>) -> Seq<ParseTreeV> {
    v.map_values(|t: ParseTree| t@)
}

/// Parses ledger entries from `pos` until neither a transaction nor a
/// price matches.
#[verifier::loop_isolation(false)]
#[verifier::rlimit(60)]
pub fn ledger_items(s: &Vec<char>, pos: usize) -> (r: (Vec<ParseTree>, usize))
    requires
        pos <= s@.len(),
    ensures
        trees_view(r.0@) == spec_ledger_items(s@, pos as int).0,
        r.1 as int == spec_ledger_items(s@, pos as int).1,
        pos <= r.1 <= s@.len(),
{
    let mut out: Vec<ParseTree> = Vec::new();
    let mut cur: usize = pos;
    proof {
        assert(trees_view(out@) =~= Seq::<ParseTreeV>::empty());
        assert(Seq::<ParseTreeV>::empty() + spec_ledger_items(s@, pos as int).0
            =~= spec_ledger_items(s@, pos as int).0);
    }
    loop
        invariant
            pos <= cur <= s@.len(),
            spec_ledger_items(s@, pos as int).0 == trees_view(out@) + spec_ledger_items(
                s@,
                cur as int,
            ).0,
            spec_ledger_items(s@, pos as int).1 == spec_ledger_items(s@, cur as int).1,
        decreases s@.len() - cur,
    {
        let ghost prev = out@;
        let (entry, e): (ParseTree, usize) = match transaction(s, cur) {
            Option::Some((tv, e)) => (ParseTree::Transaction(tv), e),
            Option::None => {
                match price(s, cur) {
                    Option::Some((pv, e)) => (ParseTree::Price(pv), e),
                    Option::None => {
                        proof {
                            assert(spec_ledger_items(s@, cur as int).0 =~= Seq::<
                                ParseTreeV,
                            >::empty());
                            assert(trees_view(out@) + Seq::<ParseTreeV>::empty() =~= trees_view(
                                out@,
                            ));
                        }
                        return (out, cur);
                    },
                }
            },
        };
        out.push(entry);
        let ghost ev = entry@;
        proof {
            assert(trees_view(out@) =~= trees_view(prev) + seq![ev]);
            assert(forall|a: Seq<ParseTreeV>, b: Seq<ParseTreeV>, c: Seq<ParseTreeV>|
                (a + b) + c =~= a + (b + c));
        }
        let e2 = skip_comment_or_empty_lines(s, e);
        cur = e2;
    }
}

/// The position error of an aborted whole-file parse.
#[derive(Clone, Copy, Debug, PartialEq, Eq, Structural)]
pub struct ParseError {
    /// The character offset at which the grammar stopped matching.
    pub position: usize,
}

/// Parses a buffer containing interleaved price records, transactions
/// and comment or blank lines.  Any structural failure aborts the whole
/// parse: the error carries the offset of the first unparsable entry,
/// and no partial ledger is returned.
pub fn parse_ledger(text: &str) -> (r: Result<Vec<ParseTree>, ParseError>)
    ensures
        ({
            let (items, e) = spec_ledger(text@);
            match r {
                Result::Ok(trees) => e == text@.len() && trees_view(trees@) == items,
                Result::Err(err) => e < text@.len() && err.position == e,
            }
        }),
{
    let v = crate::text::str_to_chars(text);
    let p0 = skip_comment_or_empty_lines(&v, 0);
    let (trees, e) = ledger_items(&v, p0);
    if e == v.len() {
        Result::Ok(trees)
    } else {
        Result::Err(ParseError { position: e })
    }
}

/// The price records from a position, one per line: each price may be
/// followed by a line ending introducing the next.
pub open spec fn spec_price_db(s: Seq<char>, pos: int) -> (Seq<PriceV>, int)
    decreases s.len() - pos,
{
    match spec_price(s, pos) {
        Option::Some((pv, e)) => {
            if pos < e <= s.len() {
                match spec_line_ending(s, e) {
                    Option::Some(e2) => {
                        if e < e2 <= s.len() {
                            let (ps, e3) = spec_price_db(s, e2);
                            (seq![pv] + ps, e3)
                        } else {
                            (seq![pv], e2)
                        }
                    },
                    Option::None => (seq![pv], e),
                }
            } else {
                (seq![pv], e)
            }
        },
        Option::None => (Seq::<PriceV>::empty(), pos),
    }
}

/// The views of a sequence of prices.
pub open spec fn prices_view(v: Seq<Price>) -> Seq<PriceV> {
    v.map_values(|p: Price| p@)
}

/// Parses price records separated by line endings.
#[verifier::loop_isolation(false)]
pub fn price_db(s: &Vec<char>, pos: usize) -> (r: (Vec<Price>, usize))
    requires
        pos <= s@.len(),
    ensures
        prices_view(r.0@) == spec_price_db(s@, pos as int).0,
        r.1 as int == spec_price_db(s@, pos as int).1,
        pos <= r.1 <= s@.len(),
{
    let mut out: Vec<Price> = Vec::new();
    let mut cur: usize = pos;
    proof {
        assert(prices_view(out@) =~= Seq::<PriceV>::empty());
        assert(Seq::<PriceV>::empty() + spec_price_db(s@, pos as int).0 =~= spec_price_db(
            s@,
            pos as int,
        ).0);
    }
    loop
        invariant
            pos <= cur <= s@.len(),
            spec_price_db(s@, pos as int).0 == prices_view(out@) + spec_price_db(
                s@,
                cur as int,
            ).0,
            spec_price_db(s@, pos as int).1 == spec_price_db(s@, cur as int).1,
        decreases s@.len() - cur,
    {
        match price(s, cur) {
            Option::None => {
                proof {
                    assert(spec_price_db(s@, cur as int).0 =~= Seq::<PriceV>::empty());
                    assert(prices_view(out@) + Seq::<PriceV>::empty() =~= prices_view(out@));
                }
                return (out, cur);
            },
            Option::Some((pv, e)) => {
                let ghost prev = out@;
                let ghost pvv = pv@;
                out.push(pv);
                proof {
                    assert(prices_view(out@) =~= prices_view(prev) + seq![pvv]);
                    assert(forall|a: Seq<PriceV>, b: Seq<PriceV>, c: Seq<PriceV>|
                        (a + b) + c =~= a + (b + c));
                }
                match line_ending(s, e) {
                    Option::Some(e2) => {
                        cur = e2;
                    },
                    Option::None => {
                        proof {
                            assert(spec_price_db(s@, cur as int).0 =~= seq![pvv]);
                            assert(prices_view(prev) + seq![pvv] =~= prices_view(out@));
                        }
                        return (out, e);
                    },
                }
            },
        }
    }
}

/// The position after trailing blank content: whitespace-only lines.
pub open spec fn spec_skip_blank(s: Seq<char>, pos: int) -> int
    decreases s.len() - pos,
{
    let (_sp, p1) = spec_whitespace(s, pos);
    match spec_line_ending(s, p1) {
        Option::Some(e) => if pos < e <= s.len() {
            spec_skip_blank(s, e)
        } else {
            e
        },
        Option::None => pos,
    }
}

/// Skips trailing blank lines.
#[verifier::loop_isolation(false)]
fn skip_blank(s: &Vec<char>, pos: usize) -> (r: usize)
    requires
        pos <= s@.len(),
    ensures
        r as int == spec_skip_blank(s@, pos as int),
        pos <= r <= s@.len(),
{
    let mut cur: usize = pos;
    loop
        invariant
            pos <= cur <= s@.len(),
            spec_skip_blank(s@, pos as int) == spec_skip_blank(s@, cur as int),
        decreases s@.len() - cur,
    {
        let (_sp, p1) = whitespace(s, cur);
        match line_ending(s, p1) {
            Option::Some(e) => {
                cur = e;
            },
            Option::None => {
                return cur;
            },
        }
    }
}

/// Parses a buffer containing only price records, one per line, with
/// optional trailing blank content.  Anything else aborts the parse with
/// the offset where the grammar stopped matching.
pub fn parse_pricedb(text: &str) -> (r: Result<Vec<Price>, ParseError>)
    ensures
        ({
            let (ps, e) = spec_price_db(text@, 0);
            let e2 = spec_skip_blank(text@, e);
            match r {
                Result::Ok(prices) => e2 == text@.len() && prices_view(prices@) == ps,
                Result::Err(err) => e2 < text@.len() && err.position == e2,
            }
        }),
{
    let v = crate::text::str_to_chars(text);
    let (prices, e) = price_db(&v, 0);
    let e2 = skip_blank(&v, e);
    if e2 == v.len() {
        Result::Ok(prices)
    } else {
        Result::Err(ParseError { position: e2 })
    }
}

/// Round trip of amounts: formatting any well-formed amount and
/// re-parsing the text as an amount yields the identical quantity
/// (mantissa and scale alike), a symbol with the same text and the same
/// quoting, and the same render options, consuming the whole text.  The
/// one family of inputs left out: an unquoted symbol that begins with a
/// radix point or a thousands separator and is written immediately after
/// the number cannot be told apart from the number itself.
#[verifier::rlimit(100)]
pub proof fn lemma_amount_round_trip(a: AmountV)
    requires
        a.wf(),
        !(a.render_options.symbol_position == SymbolPosition::Right && a.render_options.spacing
            == crate::amount::Spacing::NoSpace && a.symbol.quote_option
            == crate::symbol::QuoteOption::Unquoted && crate::lex::amount_char(a.symbol.value[0])),
    ensures
        spec_amount(crate::amount::amount_chars(a), 0) == Option::Some(
            (a, crate::amount::amount_chars(a).len() as int),
        ),
{
    let s = crate::amount::amount_chars(a);
    let q = crate::decimal::dec_chars(a.quantity.mantissa as int, a.quantity.scale as nat);
    let symt = crate::symbol::symbol_chars(a.symbol);
    let sp = crate::amount::spacing_chars(a.render_options.spacing);
    let splen = sp.len() as int;
    crate::decimal::lemma_dec_chars_first(a.quantity.mantissa as int, a.quantity.scale as nat);
    assert(symt.len() >= 1);
    let sym0 = symt[0];
    match a.symbol.quote_option {
        crate::symbol::QuoteOption::Quoted => {
            assert(symt =~= seq!['"'] + a.symbol.value + seq!['"']);
            assert(sym0 == '"');
        },
        crate::symbol::QuoteOption::Unquoted => {
            assert(symt =~= a.symbol.value);
            assert(crate::symbol::unquoted_symbol_char(sym0));
        },
    }
    match a.render_options.symbol_position {
        SymbolPosition::Left => {
            assert(s =~= symt + sp + q);
            let p1 = symt.len() as int;
            let p2 = p1 + splen;
            assert(s.subrange(0, p1) =~= symt);
            assert(s.subrange(0, p1) == symt);
            // What follows the symbol cannot extend an unquoted symbol.
            assert(s[p1] == (symt + sp + q)[p1]);
            if a.render_options.spacing == crate::amount::Spacing::Space {
                assert(s[p1] == ' ');
            } else {
                assert(s[p1] == q[0]);
            }
            assert(!crate::symbol::unquoted_symbol_char(s[p1]));
            crate::lex::lemma_symbol_embedded(s, 0, a.symbol);
            // The optional whitespace run is exactly the spacing.
            assert(s[p2] == q[0]);
            assert(!crate::lex::horizontal_space(s[p2]));
            if a.render_options.spacing == crate::amount::Spacing::Space {
                crate::lex::lemma_scan_exact(
                    s,
                    p1,
                    p1 + 1,
                    |c: char| crate::lex::horizontal_space(c),
                );
            } else {
                crate::lex::lemma_scan_exact(s, p1, p1, |c: char| crate::lex::horizontal_space(c));
            }
            assert(spec_whitespace(s, p1) == (a.render_options.spacing, p2));
            // The quantity runs to the end of the text.
            assert(s.subrange(p2, p2 + q.len()) =~= q);
            assert(p2 + q.len() == s.len());
            crate::lex::lemma_quantity_embedded(s, p2, a.quantity);
            assert(a.render_options == crate::amount::RenderOptions {
                symbol_position: SymbolPosition::Left,
                spacing: a.render_options.spacing,
            });
        },
        SymbolPosition::Right => {
            assert(s =~= q + sp + symt);
            let p1 = q.len() as int;
            let p2 = p1 + splen;
            // The symbol-first alternative fails: the text begins with a
            // sign or a digit, which no symbol may contain.
            assert(s[0] == q[0]);
            assert(!crate::symbol::unquoted_symbol_char(s[0]));
            assert(s[0] != '"');
            crate::lex::lemma_scan_exact(
                s,
                0,
                0,
                |c: char| crate::symbol::unquoted_symbol_char(c),
            );
            assert(crate::lex::spec_quoted_symbol(s, 0) is None);
            assert(crate::lex::spec_unquoted_symbol(s, 0) is None);
            assert(spec_amount_symbol_then_quantity(s, 0) is None);
            // The quantity stops exactly where the spacing or the symbol
            // begins.
            assert(s.subrange(0, p1) =~= q);
            assert(s[p1] == (q + sp + symt)[p1]);
            if a.render_options.spacing == crate::amount::Spacing::Space {
                assert(s[p1] == ' ');
                assert(!crate::lex::amount_char(s[p1]));
            } else {
                assert(s[p1] == sym0);
                match a.symbol.quote_option {
                    crate::symbol::QuoteOption::Quoted => {
                        assert(!crate::lex::amount_char(s[p1]));
                    },
                    crate::symbol::QuoteOption::Unquoted => {
                        assert(sym0 == a.symbol.value[0]);
                        assert(!crate::lex::amount_char(s[p1]));
                    },
                }
            }
            crate::lex::lemma_quantity_embedded(s, 0, a.quantity);
            // The optional whitespace run is exactly the spacing.
            assert(s[p2] == sym0);
            assert(!crate::lex::horizontal_space(s[p2]));
            if a.render_options.spacing == crate::amount::Spacing::Space {
                crate::lex::lemma_scan_exact(
                    s,
                    p1,
                    p1 + 1,
                    |c: char| crate::lex::horizontal_space(c),
                );
            } else {
                crate::lex::lemma_scan_exact(s, p1, p1, |c: char| crate::lex::horizontal_space(c));
            }
            assert(spec_whitespace(s, p1) == (a.render_options.spacing, p2));
            // The symbol runs to the end of the text.
            assert(s.subrange(p2, p2 + symt.len()) =~= symt);
            assert(p2 + symt.len() == s.len());
            crate::lex::lemma_symbol_embedded(s, p2, a.symbol);
            assert(a.render_options == crate::amount::RenderOptions {
                symbol_position: SymbolPosition::Right,
                spacing: a.render_options.spacing,
            });
        },
    }
}

} // verus!
