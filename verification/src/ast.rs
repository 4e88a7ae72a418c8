//! Raw parse results and the transaction balance engine.
//!
//! A parsed transaction holds `RawPosting`s whose amounts may still be
//! missing.  The balance engine sums the provided amounts per symbol,
//! classifies the transaction, infers at most one missing amount, and
//! lowers the validated postings into final `Posting` values.

use vstd::prelude::*;
use crate::amount::Amount;
use crate::amount::AmountV;
use crate::header::Header;
use crate::header::HeaderV;
use crate::header::opt_text_view;
use crate::header::duplicate_opt_text;
use crate::header::opt_text_eq;
use crate::posting::AmountSource;
use crate::posting::Posting;
use crate::posting::joined_name;
use crate::posting::join_accounts;
use crate::posting::seq_view;
use crate::price::Price;

verus! {

/// A posting as the parser saw it: the amount may be absent, to be
/// inferred by the balance engine.
#[derive(Debug)]
pub struct RawPosting {
    pub full_account: String,
    pub sub_accounts: Vec<String>,
    pub amount: Option<Amount>,
    pub amount_source: AmountSource,
    pub comment: Option<String>,
}

/// The mathematical content of a `RawPosting`.
pub ghost struct RawPostingV {
    pub full_account: Seq<char>,
    pub sub_accounts: Seq<Seq<char>>,
    pub amount: Option<AmountV>,
    pub amount_source: AmountSource,
    pub comment: Option<Seq<char>>,
}

/// The view of an optional amount.
pub open spec fn opt_amount_view(o: Option<Amount>) -> Option<AmountV> {
    match o {
        Option::None => Option::None,
        Option::Some(a) => Option::Some(a@),
    }
}

impl View for RawPosting {
    type V = RawPostingV;

    open spec fn view(&self) -> RawPostingV {
        RawPostingV {
            full_account: self.full_account@,
            sub_accounts: seq_view(self.sub_accounts@),
            amount: opt_amount_view(self.amount),
            amount_source: self.amount_source,
            comment: opt_text_view(self.comment),
        }
    }
}

impl RawPosting {
    /// Builds a raw posting; the full account name is the colon-joined
    /// segment list.
    pub fn new(
        sub_accounts: Vec<String>,
        amount: Option<Amount>,
        amount_source: AmountSource,
        comment: Option<String>,
    ) -> (r: RawPosting)
        ensures
            r@.sub_accounts == seq_view(sub_accounts@),
            r@.full_account == joined_name(seq_view(sub_accounts@)),
            r@.amount == opt_amount_view(amount),
            r@.amount_source == amount_source,
            r@.comment == opt_text_view(comment),
    {
        let full_account = join_accounts(&sub_accounts);
        RawPosting { full_account, sub_accounts, amount, amount_source, comment }
    }

    /// A value-equal copy.
    pub fn duplicate(&self) -> (r: RawPosting)
        ensures
            r@ == self@,
    {
        let amount = match &self.amount {
            Option::None => Option::None,
            Option::Some(a) => Option::Some(a.duplicate()),
        };
        RawPosting {
            full_account: self.full_account.clone(),
            sub_accounts: duplicate_strings(&self.sub_accounts),
            amount,
            amount_source: self.amount_source,
            comment: duplicate_opt_text(&self.comment),
        }
    }
}

/// A value-equal copy of a string list.
pub fn duplicate_strings(v: &Vec<String>) -> (r: Vec<String>)
    ensures
        seq_view(r@) == seq_view(v@),
{
    let mut out: Vec<String> = Vec::new();
    let mut i: usize = 0;
    while i < v.len()
        invariant
            i <= v@.len(),
            out@.len() == i,
            forall|j: int| 0 <= j < i ==> (#[trigger] out@[j])@ == v@[j]@,
        decreases v@.len() - i,
    {
        out.push(v[i].clone());
        i = i + 1;
    }
    proof {
        assert forall|j: int| 0 <= j < v@.len() implies #[trigger] seq_view(out@)[j] == seq_view(
            v@,
        )[j] by {
            assert(seq_view(out@)[j] == out@[j]@);
            assert(seq_view(v@)[j] == v@[j]@);
        }
        assert(seq_view(out@) =~= seq_view(v@));
    }
    out
}

/// Compares two optional amounts by value.
pub fn opt_amount_eq(a: &Option<Amount>, b: &Option<Amount>) -> (r: bool)
    ensures
        r == amount_opt_eq_spec(opt_amount_view(*a), opt_amount_view(*b)),
{
    match (a, b) {
        (Option::None, Option::None) => true,
        (Option::Some(x), Option::Some(y)) => x.eq(y),
        _ => false,
    }
}

/// Optional amounts are equal: both absent, or equal quantity (by
/// value), symbol and render options.
pub open spec fn amount_opt_eq_spec(a: Option<AmountV>, b: Option<AmountV>) -> bool {
    match (a, b) {
        (Option::None, Option::None) => true,
        (Option::Some(x), Option::Some(y)) => amount_eq_spec(x, y),
        _ => false,
    }
}

/// Amount equality: quantities denote the same number and the symbol and
/// layout agree.
pub open spec fn amount_eq_spec(x: AmountV, y: AmountV) -> bool {
    &&& crate::decimal::eq_value(x.quantity, y.quantity)
    &&& x.symbol == y.symbol
    &&& x.render_options == y.render_options
}

/// Raw posting equality, field by field; quantities compare by value.
pub open spec fn raw_posting_eq_spec(a: RawPostingV, b: RawPostingV) -> bool {
    &&& a.full_account == b.full_account
    &&& a.sub_accounts == b.sub_accounts
    &&& amount_opt_eq_spec(a.amount, b.amount)
    &&& a.amount_source == b.amount_source
    &&& a.comment == b.comment
}

impl PartialEq for RawPosting {
    fn eq(&self, other: &RawPosting) -> bool {
        self.full_account == other.full_account && strings_eq(
            &self.sub_accounts,
            &other.sub_accounts,
        ) && opt_amount_eq(&self.amount, &other.amount) && self.amount_source
            == other.amount_source && opt_text_eq(&self.comment, &other.comment)
    }
}

impl vstd::std_specs::cmp::PartialEqSpecImpl for RawPosting {
    open spec fn obeys_eq_spec() -> bool {
        true
    }

    open spec fn eq_spec(&self, other: &RawPosting) -> bool {
        raw_posting_eq_spec(self@, other@)
    }
}

/// Compares two string lists by value.
pub fn strings_eq(a: &Vec<String>, b: &Vec<String>) -> (r: bool)
    ensures
        r == (seq_view(a@) == seq_view(b@)),
{
    if a.len() != b.len() {
        proof {
            assert(seq_view(a@).len() != seq_view(b@).len());
        }
        return false;
    }
    let mut i: usize = 0;
    while i < a.len()
        invariant
            a@.len() == b@.len(),
            i <= a@.len(),
            forall|j: int| 0 <= j < i ==> (#[trigger] a@[j])@ == b@[j]@,
        decreases a@.len() - i,
    {
        if !a[i].eq(&b[i]) {
            proof {
                assert(seq_view(a@)[i as int] == a@[i as int]@);
                assert(seq_view(b@)[i as int] == b@[i as int]@);
            }
            return false;
        }
        i = i + 1;
    }
    proof {
        assert forall|j: int| 0 <= j < a@.len() implies #[trigger] seq_view(a@)[j] == seq_view(
            b@,
        )[j] by {
            assert(seq_view(a@)[j] == a@[j]@);
            assert(seq_view(b@)[j] == b@[j]@);
        }
        assert(seq_view(a@) =~= seq_view(b@));
    }
    true
}

/// One parsed transaction: its header and its raw postings, in source
/// order.
#[derive(Debug)]
pub struct RawTransaction {
    pub header: Header,
    pub postings: Vec<RawPosting>,
}

/// The mathematical content of a `RawTransaction`.
pub ghost struct RawTransactionV {
    pub header: HeaderV,
    pub postings: Seq<RawPostingV>,
}

/// The views of a sequence of raw postings.
pub open spec fn postings_view(v: Seq<RawPosting>) -> Seq<RawPostingV> {
    v.map_values(|p: RawPosting| p@)
}

impl View for RawTransaction {
    type V = RawTransactionV;

    open spec fn view(&self) -> RawTransactionV {
        RawTransactionV { header: self.header@, postings: postings_view(self.postings@) }
    }
}

impl RawTransaction {
    pub fn new(header: Header, postings: Vec<RawPosting>) -> (r: RawTransaction)
        ensures
            r@.header == header@,
            r@.postings == postings_view(postings@),
    {
        RawTransaction { header, postings }
    }
}

/// One top-level entry of a parsed ledger.
#[derive(Debug)]
pub enum ParseTree {
    Price(Price),
    Transaction(RawTransaction),
}

/// The mathematical content of a `ParseTree`.
pub ghost enum ParseTreeV {
    Price(crate::price::PriceV),
    Transaction(RawTransactionV),
}

impl View for ParseTree {
    type V = ParseTreeV;

    open spec fn view(&self) -> ParseTreeV {
        match self {
            ParseTree::Price(p) => ParseTreeV::Price(p@),
            ParseTree::Transaction(t) => ParseTreeV::Transaction(t@),
        }
    }
}

/// Most postings one transaction may carry; together with the mantissa
/// cap of parsed quantities this keeps per-symbol sums inside `i128`.
pub const MAX_POSTINGS: usize = 100_000_000;

/// How many postings have no amount.
pub open spec fn missing_count(ps: Seq<RawPostingV>) -> nat
    decreases ps.len(),
{
    if ps.len() == 0 {
        0
    } else {
        missing_count(ps.drop_last()) + (if ps.last().amount is None {
            1nat
        } else {
            0nat
        })
    }
}

/// The index of the last posting with no amount (0 when there is none).
pub open spec fn last_missing_index(ps: Seq<RawPostingV>) -> int
    decreases ps.len(),
{
    if ps.len() == 0 {
        0
    } else if ps.last().amount is None {
        ps.len() - 1
    } else {
        last_missing_index(ps.drop_last())
    }
}

/// The exact sum (as a scaled integer) of all provided amounts whose
/// symbol text is `sym`.
pub open spec fn sym_total(ps: Seq<RawPostingV>, sym: Seq<char>) -> int
    decreases ps.len(),
{
    if ps.len() == 0 {
        0
    } else {
        sym_total(ps.drop_last(), sym) + (match ps.last().amount {
            Option::Some(a) => if a.symbol.value == sym {
                a.quantity.scaled()
            } else {
                0
            },
            Option::None => 0,
        })
    }
}

/// The distinct symbol texts of the provided amounts, in order of first
/// occurrence.
pub open spec fn distinct_syms(ps: Seq<RawPostingV>) -> Seq<Seq<char>>
    decreases ps.len(),
{
    if ps.len() == 0 {
        Seq::<Seq<char>>::empty()
    } else {
        let pre = distinct_syms(ps.drop_last());
        match ps.last().amount {
            Option::Some(a) => if pre.contains(a.symbol.value) {
                pre
            } else {
                pre.push(a.symbol.value)
            },
            Option::None => pre,
        }
    }
}

/// The first provided amount carrying symbol text `sym`: its `Symbol`
/// and `RenderOptions` are the ones retained for display.
pub open spec fn first_amount_for(ps: Seq<RawPostingV>, sym: Seq<char>) -> AmountV
    decreases ps.len(),
{
    if ps.len() == 0 {
        arbitrary()
    } else if distinct_syms(ps.drop_last()).contains(sym) {
        first_amount_for(ps.drop_last(), sym)
    } else {
        match ps.last().amount {
            Option::Some(a) => if a.symbol.value == sym {
                a
            } else {
                arbitrary()
            },
            Option::None => arbitrary(),
        }
    }
}

/// The symbols of `syms` whose per-symbol sum is not exactly zero, in
/// order.
pub open spec fn unbalanced_syms(syms: Seq<Seq<char>>, ps: Seq<RawPostingV>) -> Seq<Seq<char>>
    decreases syms.len(),
{
    if syms.len() == 0 {
        Seq::<Seq<char>>::empty()
    } else {
        let pre = unbalanced_syms(syms.drop_last(), ps);
        if sym_total(ps, syms.last()) != 0 {
            pre.push(syms.last())
        } else {
            pre
        }
    }
}

/// The distinct symbols whose provided amounts do not sum to zero.
pub open spec fn unbalanced_of(ps: Seq<RawPostingV>) -> Seq<Seq<char>> {
    unbalanced_syms(distinct_syms(ps), ps)
}

/// What the balance engine may be given: not more postings than the cap,
/// every provided quantity well formed.
pub open spec fn balance_requires(ps: Seq<RawPostingV>) -> bool {
    &&& ps.len() <= MAX_POSTINGS
    &&& forall|i: int|
        #![trigger ps[i]]
        0 <= i < ps.len() ==> match ps[i].amount {
            Option::Some(a) => a.quantity.wf(),
            Option::None => true,
        }
}

/// The classification of one transaction's postings.
#[derive(Debug)]
pub enum RawTransactionBalanceStatus {
    Balanced(Vec<RawPosting>),
    MultipleAmountsMissing(u32),
    Unbalanced(Vec<(String, Amount)>),
}

/// The view of a symbol/amount pair list.
pub open spec fn pairs_view(v: Seq<(String, Amount)>) -> Seq<(Seq<char>, AmountV)> {
    v.map_values(|p: (String, Amount)| (p.0@, p.1@))
}

/// The residual map an `Unbalanced` error carries: one entry per
/// unbalanced symbol, in first-occurrence order, holding that symbol's
/// exact non-zero residual with the first occurrence's symbol and layout.
pub open spec fn unbalanced_report_ok(ps: Seq<RawPostingV>, l: Seq<(Seq<char>, AmountV)>) -> bool {
    let ub = unbalanced_of(ps);
    &&& l.len() == ub.len()
    &&& forall|j: int|
        #![trigger l[j]]
        0 <= j < l.len() ==> {
            &&& l[j].0 == ub[j]
            &&& l[j].1.symbol == first_amount_for(ps, ub[j]).symbol
            &&& l[j].1.render_options == first_amount_for(ps, ub[j]).render_options
            &&& l[j].1.quantity.scaled() == sym_total(ps, ub[j])
            &&& l[j].1.quantity.scale <= crate::decimal::MAX_SCALE
        }
}

/// The output of a successful inference: every posting unchanged except
/// the one at the last missing index, which now carries the negation of
/// the single unbalanced symbol's residual, tagged `Inferred`.
pub open spec fn inferred_ok(ps: Seq<RawPostingV>, out: Seq<RawPostingV>) -> bool {
    let idx = last_missing_index(ps);
    let sym = unbalanced_of(ps)[0];
    &&& out.len() == ps.len()
    &&& forall|k: int| #![trigger out[k]] 0 <= k < out.len() && k != idx ==> out[k] == ps[k]
    &&& out[idx].sub_accounts == ps[idx].sub_accounts
    &&& out[idx].full_account == joined_name(ps[idx].sub_accounts)
    &&& out[idx].comment == ps[idx].comment
    &&& out[idx].amount_source == AmountSource::Inferred
    &&& match out[idx].amount {
        Option::Some(a) => {
            &&& a.symbol == first_amount_for(ps, sym).symbol
            &&& a.render_options == first_amount_for(ps, sym).render_options
            &&& a.quantity.scaled() == -sym_total(ps, sym)
            &&& a.quantity.scale <= crate::decimal::MAX_SCALE
        },
        Option::None => false,
    }
}

/// Distinct symbols never repeat.
pub proof fn lemma_distinct_nodup(ps: Seq<RawPostingV>)
    ensures
        forall|a: int, b: int|
            0 <= a < b < distinct_syms(ps).len() ==> distinct_syms(ps)[a] != distinct_syms(ps)[b],
    decreases ps.len(),
{
    if ps.len() > 0 {
        lemma_distinct_nodup(ps.drop_last());
        let pre = distinct_syms(ps.drop_last());
        match ps.last().amount {
            Option::Some(a) => {
                if !pre.contains(a.symbol.value) {
                    assert forall|t: int| 0 <= t < pre.len() implies pre[t] != a.symbol.value by {
                        if pre[t] == a.symbol.value {
                            assert(pre.contains(a.symbol.value));
                        }
                    }
                }
            },
            Option::None => {},
        }
    }
}

/// A symbol outside the distinct list has a zero sum.
pub proof fn lemma_total_zero_outside(ps: Seq<RawPostingV>, sym: Seq<char>)
    requires
        !distinct_syms(ps).contains(sym),
    ensures
        sym_total(ps, sym) == 0,
    decreases ps.len(),
{
    if ps.len() > 0 {
        let pre = distinct_syms(ps.drop_last());
        match ps.last().amount {
            Option::Some(a) => {
                assert forall|t: int| 0 <= t < pre.len() implies distinct_syms(ps).contains(
                    pre[t],
                ) by {
                    if pre.contains(a.symbol.value) {
                        assert(distinct_syms(ps) == pre);
                    } else {
                        assert(distinct_syms(ps)[t] == pre[t]);
                    }
                }
                if pre.contains(sym) {
                    let w = choose|w: int| 0 <= w < pre.len() && pre[w] == sym;
                    assert(distinct_syms(ps).contains(pre[w]));
                    assert(false);
                }
                lemma_total_zero_outside(ps.drop_last(), sym);
                if a.symbol.value == sym {
                    if pre.contains(a.symbol.value) {
                        assert(distinct_syms(ps).contains(sym));
                    } else {
                        assert(distinct_syms(ps).last() == sym);
                        assert(distinct_syms(ps).contains(sym));
                    }
                    assert(false);
                }
            },
            Option::None => {
                lemma_total_zero_outside(ps.drop_last(), sym);
            },
        }
    }
}

/// The number of missing amounts never exceeds the number of postings.
pub proof fn lemma_missing_le_len(ps: Seq<RawPostingV>)
    ensures
        missing_count(ps) <= ps.len(),
    decreases ps.len(),
{
    if ps.len() > 0 {
        lemma_missing_le_len(ps.drop_last());
    }
}

/// Finds the accumulated total whose symbol text equals `sym`.
fn find_symbol(totals: &Vec<Amount>, sym: &String) -> (r: Option<usize>)
    ensures
        match r {
            Option::Some(j) => j < totals@.len() && totals@[j as int]@.symbol.value == sym@,
            Option::None => forall|k: int|
                0 <= k < totals@.len() ==> (#[trigger] totals@[k])@.symbol.value != sym@,
        },
{
    let mut k: usize = 0;
    while k < totals.len()
        invariant
            k <= totals@.len(),
            forall|t: int| 0 <= t < k ==> (#[trigger] totals@[t])@.symbol.value != sym@,
        decreases totals@.len() - k,
    {
        if totals[k].symbol.value.eq(sym) {
            return Option::Some(k);
        }
        k = k + 1;
    }
    Option::None
}

/// What `ensure_balanced` returns, by the classification of `ps`: the
/// missing count when more than one amount is missing; the postings with
/// the single missing amount inferred when exactly one amount is missing
/// and exactly one symbol is unbalanced; the postings unchanged when
/// every symbol balances; and otherwise the non-zero residuals.
pub open spec fn balance_result_ok(ps: Seq<RawPostingV>, r: RawTransactionBalanceStatus) -> bool {
    let miss = missing_count(ps);
    let ub = unbalanced_of(ps);
    match r {
        RawTransactionBalanceStatus::MultipleAmountsMissing(n) => miss > 1 && n == miss,
        RawTransactionBalanceStatus::Balanced(out) => {
            &&& miss <= 1
            &&& if miss == 1 && ub.len() == 1 {
                inferred_ok(ps, postings_view(out@))
            } else {
                ub.len() == 0 && postings_view(out@) == ps
            }
        },
        RawTransactionBalanceStatus::Unbalanced(l) => {
            &&& miss <= 1
            &&& ub.len() >= 1
            &&& !(miss == 1 && ub.len() == 1)
            &&& unbalanced_report_ok(ps, pairs_view(l@))
        },
    }
}

/// Ensure the transaction is balanced with respect to all amounts and
/// symbols.  If exactly one amount is missing and exactly one symbol
/// does not sum to zero, the missing amount is inferred as that
/// symbol's negated residual.  If more than one amount is missing, or
/// amounts do not balance, the transaction is invalid.
#[verifier::loop_isolation(false)]
#[verifier::rlimit(100)]
pub fn ensure_balanced(postings: Vec<RawPosting>) -> (r: RawTransactionBalanceStatus)
    requires
        balance_requires(postings_view(postings@)),
    ensures
        balance_result_ok(postings_view(postings@), r),
{
    let ghost ps = postings_view(postings@);
    proof {
        lemma_distinct_nodup(ps);
        crate::decimal::lemma_pow10_30();
    }
    let mut totals: Vec<Amount> = Vec::new();
    let mut missing: u32 = 0;
    let mut idx: usize = 0;
    let mut i: usize = 0;
    while i < postings.len()
        invariant
            i <= postings@.len(),
            totals@.len() == distinct_syms(ps.take(i as int)).len(),
            forall|j: int|
                #![trigger totals@[j]]
                0 <= j < totals@.len() ==> {
                    let sym = distinct_syms(ps.take(i as int))[j];
                    &&& totals@[j]@.symbol.value == sym
                    &&& totals@[j]@.symbol == first_amount_for(ps.take(i as int), sym).symbol
                    &&& totals@[j]@.render_options == first_amount_for(
                        ps.take(i as int),
                        sym,
                    ).render_options
                    &&& totals@[j]@.quantity.scaled() == sym_total(ps.take(i as int), sym)
                    &&& totals@[j]@.quantity.scale <= crate::decimal::MAX_SCALE
                    &&& -(i as int) * crate::decimal::pow10(30) <= totals@[j]@.quantity.scaled()
                        <= (i as int) * crate::decimal::pow10(30)
                },
            missing as nat == missing_count(ps.take(i as int)),
            missing > 0 ==> idx as int == last_missing_index(ps.take(i as int)) && idx < i,
        decreases postings@.len() - i,
    {
        let ghost pre = ps.take(i as int);
        let ghost cur = ps.take(i as int + 1);
        proof {
            assert(cur.drop_last() =~= pre);
            assert(cur.last() == ps[i as int]);
            assert(ps[i as int] == postings@[i as int]@);
            lemma_missing_le_len(pre);
        }
        match &postings[i].amount {
            Option::Some(a) => {
                let ghost av = a@;
                let ghost sym = av.symbol.value;
                proof {
                    assert(cur.last().amount == Option::Some(av));
                    assert(av.quantity.wf());
                    crate::decimal::lemma_wf_scaled_bound(av.quantity);
                }
                match find_symbol(&totals, &a.symbol.value) {
                    Option::Some(j) => {
                        proof {
                            assert(distinct_syms(pre)[j as int] == sym);
                            assert(distinct_syms(pre).contains(sym));
                            assert(distinct_syms(cur) == distinct_syms(pre));
                            let tq = totals@[j as int]@.quantity;
                            crate::decimal::lemma_aligned_le_scaled(
                                tq,
                                crate::decimal::max_scale(tq, av.quantity) as nat,
                            );
                            crate::decimal::lemma_aligned_le_scaled(
                                av.quantity,
                                crate::decimal::max_scale(tq, av.quantity) as nat,
                            );
                        }
                        let q = totals[j].quantity.add(&a.quantity);
                        let sym2 = totals[j].symbol.duplicate();
                        let ro = totals[j].render_options;
                        let ghost old_totals = totals@;
                        totals[j] = Amount { quantity: q, symbol: sym2, render_options: ro };
                        proof {
                            assert forall|t: int| 0 <= t < totals@.len() implies {
                                let symt = distinct_syms(cur)[t];
                                &&& #[trigger] totals@[t]@.symbol.value == symt
                                &&& totals@[t]@.symbol == first_amount_for(cur, symt).symbol
                                &&& totals@[t]@.render_options == first_amount_for(
                                    cur,
                                    symt,
                                ).render_options
                                &&& totals@[t]@.quantity.scaled() == sym_total(cur, symt)
                                &&& totals@[t]@.quantity.scale <= crate::decimal::MAX_SCALE
                                &&& -(i as int + 1) * crate::decimal::pow10(30)
                                    <= totals@[t]@.quantity.scaled() <= (i as int + 1)
                                    * crate::decimal::pow10(30)
                            } by {
                                let symt = distinct_syms(cur)[t];
                                assert(first_amount_for(cur, symt) == first_amount_for(pre, symt));
                                if t != j {
                                    lemma_distinct_nodup(cur);
                                    assert(totals@[t] == old_totals[t]);
                                    assert(distinct_syms(cur)[j as int] == sym);
                                    assert(symt != sym);
                                    assert(sym_total(cur, symt) == sym_total(pre, symt));
                                } else {
                                    assert(sym_total(cur, sym) == sym_total(pre, sym)
                                        + av.quantity.scaled());
                                }
                            }
                        }
                    },
                    Option::None => {
                        proof {
                            if distinct_syms(pre).contains(sym) {
                                let w = choose|w: int|
                                    0 <= w < distinct_syms(pre).len() && distinct_syms(pre)[w]
                                        == sym;
                                assert(totals@[w]@.symbol.value == sym);
                                assert(false);
                            }
                            assert(distinct_syms(cur) =~= distinct_syms(pre).push(sym));
                            lemma_total_zero_outside(pre, sym);
                        }
                        let ghost old_totals = totals@;
                        totals.push(a.duplicate());
                        proof {
                            assert forall|t: int| 0 <= t < totals@.len() implies {
                                let symt = distinct_syms(cur)[t];
                                &&& #[trigger] totals@[t]@.symbol.value == symt
                                &&& totals@[t]@.symbol == first_amount_for(cur, symt).symbol
                                &&& totals@[t]@.render_options == first_amount_for(
                                    cur,
                                    symt,
                                ).render_options
                                &&& totals@[t]@.quantity.scaled() == sym_total(cur, symt)
                                &&& totals@[t]@.quantity.scale <= crate::decimal::MAX_SCALE
                                &&& -(i as int + 1) * crate::decimal::pow10(30)
                                    <= totals@[t]@.quantity.scaled() <= (i as int + 1)
                                    * crate::decimal::pow10(30)
                            } by {
                                let symt = distinct_syms(cur)[t];
                                if t < old_totals.len() {
                                    assert(totals@[t] == old_totals[t]);
                                    assert(symt == distinct_syms(pre)[t]);
                                    assert(distinct_syms(pre).contains(symt));
                                    assert(first_amount_for(cur, symt) == first_amount_for(
                                        pre,
                                        symt,
                                    ));
                                    assert(symt != sym);
                                    assert(sym_total(cur, symt) == sym_total(pre, symt));
                                } else {
                                    assert(symt == sym);
                                    assert(first_amount_for(cur, sym) == av);
                                    assert(sym_total(cur, sym) == sym_total(pre, sym)
                                        + av.quantity.scaled());
                                    assert(sym_total(pre, sym) == 0);
                                }
                            }
                        }
                    },
                }
                proof {
                    assert(missing_count(cur) == missing_count(pre));
                    if missing > 0 {
                        assert(last_missing_index(cur) == last_missing_index(pre));
                    }
                }
            },
            Option::None => {
                proof {
                    assert(cur.last().amount is None);
                    assert(missing_count(cur) == missing_count(pre) + 1);
                    assert(last_missing_index(cur) == i as int);
                    assert(distinct_syms(cur) == distinct_syms(pre));
                    assert forall|t: int| 0 <= t < totals@.len() implies {
                        let symt = distinct_syms(cur)[t];
                        &&& #[trigger] totals@[t]@.symbol.value == symt
                        &&& totals@[t]@.symbol == first_amount_for(cur, symt).symbol
                        &&& totals@[t]@.render_options == first_amount_for(cur, symt).render_options
                        &&& totals@[t]@.quantity.scaled() == sym_total(cur, symt)
                        &&& totals@[t]@.quantity.scale <= crate::decimal::MAX_SCALE
                        &&& -(i as int + 1) * crate::decimal::pow10(30)
                            <= totals@[t]@.quantity.scaled() <= (i as int + 1)
                            * crate::decimal::pow10(30)
                    } by {
                        let symt = distinct_syms(cur)[t];
                        assert(first_amount_for(cur, symt) == first_amount_for(pre, symt));
                        assert(sym_total(cur, symt) == sym_total(pre, symt));
                    }
                }
                missing = missing + 1;
                idx = i;
            },
        }
        i = i + 1;
    }
    proof {
        assert(ps.take(postings@.len() as int) =~= ps);
    }
    let ghost ds = distinct_syms(ps);
    let mut ub_pairs: Vec<(String, Amount)> = Vec::new();
    let mut j: usize = 0;
    while j < totals.len()
        invariant
            j <= totals@.len(),
            ub_pairs@.len() == unbalanced_syms(ds.take(j as int), ps).len(),
            forall|t: int|
                #![trigger ub_pairs@[t]]
                0 <= t < ub_pairs@.len() ==> {
                    let symt = unbalanced_syms(ds.take(j as int), ps)[t];
                    &&& ub_pairs@[t].0@ == symt
                    &&& ub_pairs@[t].1@.symbol == first_amount_for(ps, symt).symbol
                    &&& ub_pairs@[t].1@.render_options == first_amount_for(ps, symt).render_options
                    &&& ub_pairs@[t].1@.quantity.scaled() == sym_total(ps, symt)
                    &&& ub_pairs@[t].1@.quantity.scale <= crate::decimal::MAX_SCALE
                    &&& ub_pairs@[t].1@.quantity.mantissa > i128::MIN
                },
        decreases totals@.len() - j,
    {
        let ghost dpre = ds.take(j as int);
        let ghost dcur = ds.take(j as int + 1);
        proof {
            assert(dcur.drop_last() =~= dpre);
            assert(dcur.last() == ds[j as int]);
        }
        let zero = totals[j].quantity.is_zero();
        if !zero {
            let name = totals[j].symbol.value.clone();
            let amt = totals[j].duplicate();
            proof {
                crate::decimal::lemma_mantissa_le_scaled(totals@[j as int]@.quantity);
            }
            ub_pairs.push((name, amt));
        }
        j = j + 1;
    }
    proof {
        assert(ds.take(totals@.len() as int) =~= ds);
    }
    if missing > 1 {
        RawTransactionBalanceStatus::MultipleAmountsMissing(missing)
    } else if missing == 1 && ub_pairs.len() == 1 {
        let ghost sym0 = unbalanced_of(ps)[0];
        let neg_q = ub_pairs[0].1.quantity.neg();
        let inf_sym = ub_pairs[0].1.symbol.duplicate();
        let inf_ro = ub_pairs[0].1.render_options;
        let inferred = Amount { quantity: neg_q, symbol: inf_sym, render_options: inf_ro };
        let ghost infv = inferred@;
        let mut out: Vec<RawPosting> = Vec::new();
        let mut k: usize = 0;
        while k < postings.len()
            invariant
                k <= postings@.len(),
                out@.len() == k,
                idx < postings@.len(),
                forall|t: int|
                    0 <= t < k && t != idx as int ==> (#[trigger] out@[t])@ == ps[t],
                idx < k ==> {
                    &&& out@[idx as int]@.sub_accounts == ps[idx as int].sub_accounts
                    &&& out@[idx as int]@.full_account == joined_name(ps[idx as int].sub_accounts)
                    &&& out@[idx as int]@.comment == ps[idx as int].comment
                    &&& out@[idx as int]@.amount_source == AmountSource::Inferred
                    &&& out@[idx as int]@.amount == Option::Some(infv)
                },
            decreases postings@.len() - k,
        {
            if k == idx {
                let subs = duplicate_strings(&postings[k].sub_accounts);
                let com = duplicate_opt_text(&postings[k].comment);
                let inf_amt = inferred.duplicate();
                out.push(RawPosting::new(subs, Option::Some(inf_amt), AmountSource::Inferred, com));
            } else {
                out.push(postings[k].duplicate());
            }
            k = k + 1;
        }
        proof {
            assert(postings_view(out@).len() == ps.len());
            assert forall|t: int| 0 <= t < ps.len() && t != idx as int implies #[trigger]
                postings_view(out@)[t] == ps[t] by {
                assert(postings_view(out@)[t] == out@[t]@);
            }
            assert(postings_view(out@)[idx as int] == out@[idx as int]@);
            assert(inferred_ok(ps, postings_view(out@)));
        }
        RawTransactionBalanceStatus::Balanced(out)
    } else if ub_pairs.len() == 0 {
        RawTransactionBalanceStatus::Balanced(postings)
    } else {
        proof {
            assert forall|t: int| 0 <= t < ub_pairs@.len() implies {
                &&& (#[trigger] pairs_view(ub_pairs@)[t]).0 == unbalanced_of(ps)[t]
                &&& pairs_view(ub_pairs@)[t].1.symbol == first_amount_for(
                    ps,
                    unbalanced_of(ps)[t],
                ).symbol
                &&& pairs_view(ub_pairs@)[t].1.render_options == first_amount_for(
                    ps,
                    unbalanced_of(ps)[t],
                ).render_options
                &&& pairs_view(ub_pairs@)[t].1.quantity.scaled() == sym_total(
                    ps,
                    unbalanced_of(ps)[t],
                )
                &&& pairs_view(ub_pairs@)[t].1.quantity.scale <= crate::decimal::MAX_SCALE
            } by {
                assert(pairs_view(ub_pairs@)[t] == (ub_pairs@[t].0@, ub_pairs@[t].1@));
            }
        }
        RawTransactionBalanceStatus::Unbalanced(ub_pairs)
    }
}

/// Exactly one amount is missing: it sits at the last missing index and
/// every other posting has one.
pub proof fn lemma_missing_unique(ps: Seq<RawPostingV>)
    requires
        missing_count(ps) == 1,
    ensures
        0 <= last_missing_index(ps) < ps.len(),
        ps[last_missing_index(ps)].amount is None,
        forall|k: int|
            #![trigger ps[k]]
            0 <= k < ps.len() && k != last_missing_index(ps) ==> ps[k].amount is Some,
    decreases ps.len(),
{
    if ps.len() > 0 {
        if ps.last().amount is None {
            lemma_missing_none(ps.drop_last());
            assert(forall|k: int|
                0 <= k < ps.len() - 1 ==> #[trigger] ps[k] == ps.drop_last()[k]);
        } else {
            lemma_missing_unique(ps.drop_last());
            assert(forall|k: int|
                0 <= k < ps.len() - 1 ==> #[trigger] ps[k] == ps.drop_last()[k]);
        }
    }
}

/// No amount is missing exactly when every posting has one.
pub proof fn lemma_missing_none(ps: Seq<RawPostingV>)
    requires
        missing_count(ps) == 0,
    ensures
        forall|k: int| #![trigger ps[k]] 0 <= k < ps.len() ==> ps[k].amount is Some,
    decreases ps.len(),
{
    if ps.len() > 0 {
        lemma_missing_none(ps.drop_last());
        assert(forall|k: int| 0 <= k < ps.len() - 1 ==> #[trigger] ps[k] == ps.drop_last()[k]);
    }
}

/// An unbalanced-symbol list is empty exactly when every listed symbol
/// sums to zero.
proof fn lemma_ub_empty(syms: Seq<Seq<char>>, ps: Seq<RawPostingV>)
    ensures
        unbalanced_syms(syms, ps).len() == 0 <==> forall|t: int|
            0 <= t < syms.len() ==> sym_total(ps, #[trigger] syms[t]) == 0,
    decreases syms.len(),
{
    if syms.len() > 0 {
        lemma_ub_empty(syms.drop_last(), ps);
        assert(forall|t: int|
            0 <= t < syms.len() - 1 ==> #[trigger] syms[t] == syms.drop_last()[t]);
        assert(syms.last() == syms[syms.len() - 1]);
    }
}

/// The balance invariant: when every amount is provided, the
/// classification is `Balanced` exactly when the per-symbol sums are all
/// exactly zero.
pub proof fn lemma_balance_invariant(ps: Seq<RawPostingV>, r: RawTransactionBalanceStatus)
    requires
        missing_count(ps) == 0,
        balance_result_ok(ps, r),
    ensures
        (r is Balanced) <==> (forall|sym: Seq<char>| sym_total(ps, sym) == 0),
{
    lemma_ub_empty(distinct_syms(ps), ps);
    if unbalanced_of(ps).len() == 0 {
        assert forall|sym: Seq<char>| sym_total(ps, sym) == 0 by {
            if distinct_syms(ps).contains(sym) {
                let w = choose|w: int|
                    0 <= w < distinct_syms(ps).len() && distinct_syms(ps)[w] == sym;
                assert(sym_total(ps, distinct_syms(ps)[w]) == 0);
            } else {
                lemma_total_zero_outside(ps, sym);
            }
        }
    }
}

/// A terminal error of the balance engine.
#[derive(Debug)]
pub enum BalanceError {
    /// More than one posting lacks an amount; carries how many.
    MultipleAmountsMissing(u32),
    /// The postings do not sum to zero and no single inference is
    /// possible; carries each unbalanced symbol's non-zero residual.
    Unbalanced(Vec<(String, Amount)>),
}

/// Pairs of symbol text and residual amount compare by value.
pub open spec fn pairs_eq_spec(a: Seq<(Seq<char>, AmountV)>, b: Seq<(Seq<char>, AmountV)>) -> bool {
    &&& a.len() == b.len()
    &&& forall|t: int|
        #![trigger a[t]]
        0 <= t < a.len() ==> a[t].0 == b[t].0 && amount_eq_spec(a[t].1, b[t].1)
}

/// Compares two residual lists by value.
pub fn pairs_eq(a: &Vec<(String, Amount)>, b: &Vec<(String, Amount)>) -> (r: bool)
    ensures
        r == pairs_eq_spec(pairs_view(a@), pairs_view(b@)),
{
    if a.len() != b.len() {
        return false;
    }
    let mut i: usize = 0;
    while i < a.len()
        invariant
            a@.len() == b@.len(),
            i <= a@.len(),
            forall|j: int|
                #![trigger a@[j]]
                0 <= j < i ==> a@[j].0@ == b@[j].0@ && amount_eq_spec(a@[j].1@, b@[j].1@),
        decreases a@.len() - i,
    {
        proof {
            assert(pairs_view(a@)[i as int] == (a@[i as int].0@, a@[i as int].1@));
            assert(pairs_view(b@)[i as int] == (b@[i as int].0@, b@[i as int].1@));
        }
        if !a[i].0.eq(&b[i].0) {
            return false;
        }
        if !a[i].1.eq(&b[i].1) {
            return false;
        }
        i = i + 1;
    }
    proof {
        assert forall|t: int| 0 <= t < a@.len() implies (#[trigger] pairs_view(a@)[t]).0
            == pairs_view(b@)[t].0 && amount_eq_spec(pairs_view(a@)[t].1, pairs_view(b@)[t].1) by {
            assert(pairs_view(a@)[t] == (a@[t].0@, a@[t].1@));
            assert(pairs_view(b@)[t] == (b@[t].0@, b@[t].1@));
        }
    }
    true
}

impl PartialEq for BalanceError {
    fn eq(&self, other: &BalanceError) -> bool {
        match (self, other) {
            (
                BalanceError::MultipleAmountsMissing(a),
                BalanceError::MultipleAmountsMissing(b),
            ) => *a == *b,
            (BalanceError::Unbalanced(a), BalanceError::Unbalanced(b)) => pairs_eq(a, b),
            _ => false,
        }
    }
}

impl vstd::std_specs::cmp::PartialEqSpecImpl for BalanceError {
    open spec fn obeys_eq_spec() -> bool {
        true
    }

    open spec fn eq_spec(&self, other: &BalanceError) -> bool {
        match (self, other) {
            (
                BalanceError::MultipleAmountsMissing(a),
                BalanceError::MultipleAmountsMissing(b),
            ) => a == b,
            (BalanceError::Unbalanced(a), BalanceError::Unbalanced(b)) => pairs_eq_spec(
                pairs_view(a@),
                pairs_view(b@),
            ),
            _ => false,
        }
    }
}

/// A final posting lowered from a raw one: it shares the transaction
/// header, its account name and lineage come from its segment list, and
/// its amount is the raw posting's.
pub open spec fn lowered_posting_ok(
    h: HeaderV,
    rp: RawPostingV,
    p: crate::posting::PostingV,
) -> bool {
    &&& p.header == h
    &&& p.account == rp.full_account
    &&& p.account_lineage.len() == rp.sub_accounts.len()
    &&& forall|t: int|
        0 <= t < rp.sub_accounts.len() ==> #[trigger] p.account_lineage[t]
            == crate::posting::lineage_prefix(rp.sub_accounts, t + 1)
    &&& p.amount == rp.amount->0
    &&& p.amount_source == rp.amount_source
    &&& p.comment == rp.comment
}

/// The views of a sequence of final postings.
pub open spec fn final_postings_view(v: Seq<Posting>) -> Seq<crate::posting::PostingV> {
    v.map_values(|p: Posting| p@)
}

/// Transform a `Header` and raw postings into final `Posting`s.  Every
/// raw posting must carry an amount at this point; each result shares a
/// value-equal copy of the one header.
pub fn into_postings(header: Header, raw_postings: Vec<RawPosting>) -> (out: Vec<Posting>)
    requires
        forall|k: int|
            0 <= k < postings_view(raw_postings@).len() ==> (#[trigger] postings_view(
                raw_postings@,
            )[k]).amount is Some,
    ensures
        out@.len() == raw_postings@.len(),
        forall|k: int|
            0 <= k < out@.len() ==> lowered_posting_ok(
                header@,
                postings_view(raw_postings@)[k],
                #[trigger] final_postings_view(out@)[k],
            ),
{
    let ghost ps = postings_view(raw_postings@);
    let mut out: Vec<Posting> = Vec::new();
    let mut i: usize = 0;
    while i < raw_postings.len()
        invariant
            i <= raw_postings@.len(),
            ps == postings_view(raw_postings@),
            forall|k: int|
                0 <= k < ps.len() ==> (#[trigger] ps[k]).amount is Some,
            out@.len() == i,
            forall|k: int|
                0 <= k < i ==> lowered_posting_ok(
                    header@,
                    ps[k],
                    #[trigger] final_postings_view(out@)[k],
                ),
        decreases raw_postings@.len() - i,
    {
        proof {
            assert(ps[i as int] == raw_postings@[i as int]@);
        }
        let rp = &raw_postings[i];
        let amount = match &rp.amount {
            Option::Some(a) => a.duplicate(),
            Option::None => {
                proof {
                    assert(ps[i as int].amount is Some);
                }
                unreached()
            },
        };
        proof {
            assert(amount@ == ps[i as int].amount->0);
        }
        let p = Posting::new(
            header.duplicate(),
            rp.full_account.clone(),
            &rp.sub_accounts,
            amount,
            rp.amount_source,
            duplicate_opt_text(&rp.comment),
        );
        let ghost prev = out@;
        out.push(p);
        proof {
            assert forall|k: int| 0 <= k < i + 1 implies lowered_posting_ok(
                header@,
                ps[k],
                #[trigger] final_postings_view(out@)[k],
            ) by {
                assert(final_postings_view(out@)[k] == out@[k]@);
                if k < i {
                    assert(out@[k] == prev[k]);
                    assert(final_postings_view(prev)[k] == prev[k]@);
                } else {
                    assert(out@[k] == p);
                    assert(ps[k].sub_accounts == seq_view(rp.sub_accounts@));
                    assert(forall|t: int|
                        0 <= t < ps[k].sub_accounts.len() ==> #[trigger] p@.account_lineage[t]
                            == crate::posting::lineage_prefix(ps[k].sub_accounts, t + 1));
                }
            }
        }
        i = i + 1;
    }
    out
}

/// The inferred posting: lowered from the posting at the last missing
/// index, carrying the negated residual of the single unbalanced symbol
/// with that symbol's first-occurrence symbol and layout.
pub open spec fn inferred_posting_ok(
    h: HeaderV,
    ps: Seq<RawPostingV>,
    p: crate::posting::PostingV,
) -> bool {
    let idx = last_missing_index(ps);
    let sym = unbalanced_of(ps)[0];
    &&& p.header == h
    &&& p.account == joined_name(ps[idx].sub_accounts)
    &&& p.account_lineage.len() == ps[idx].sub_accounts.len()
    &&& forall|t: int|
        0 <= t < ps[idx].sub_accounts.len() ==> #[trigger] p.account_lineage[t]
            == crate::posting::lineage_prefix(ps[idx].sub_accounts, t + 1)
    &&& p.amount.symbol == first_amount_for(ps, sym).symbol
    &&& p.amount.render_options == first_amount_for(ps, sym).render_options
    &&& p.amount.quantity.scaled() == -sym_total(ps, sym)
    &&& p.amount.quantity.scale <= crate::decimal::MAX_SCALE
    &&& p.amount_source == AmountSource::Inferred
    &&& p.comment == ps[idx].comment
}

/// What resolving one transaction returns, by the classification of its
/// postings: the lowered postings on success (with the single missing
/// amount inferred when there is one), or the typed error.
pub open spec fn resolve_ok(
    h: HeaderV,
    ps: Seq<RawPostingV>,
    r: Result<Vec<Posting>, BalanceError>,
) -> bool {
    let miss = missing_count(ps);
    let ub = unbalanced_of(ps);
    match r {
        Result::Ok(out) => {
            let outv = final_postings_view(out@);
            &&& outv.len() == ps.len()
            &&& miss <= 1
            &&& if miss == 1 {
                &&& ub.len() == 1
                &&& forall|k: int|
                    0 <= k < ps.len() && k != last_missing_index(ps) ==> lowered_posting_ok(
                        h,
                        ps[k],
                        #[trigger] outv[k],
                    )
                &&& inferred_posting_ok(h, ps, outv[last_missing_index(ps)])
            } else {
                &&& ub.len() == 0
                &&& forall|k: int|
                    0 <= k < ps.len() ==> lowered_posting_ok(h, ps[k], #[trigger] outv[k])
            }
        },
        Result::Err(BalanceError::MultipleAmountsMissing(n)) => miss > 1 && n == miss,
        Result::Err(BalanceError::Unbalanced(l)) => {
            &&& miss <= 1
            &&& ub.len() >= 1
            &&& !(miss == 1 && ub.len() == 1)
            &&& unbalanced_report_ok(ps, pairs_view(l@))
        },
    }
}

/// Applies the balance engine to one transaction's postings and lowers
/// the validated raw postings into final `Posting`s sharing the header.
/// A transaction with exactly one missing amount and no unbalanced
/// symbol cannot be lowered (no amount can be inferred from a zero
/// residual), so such inputs are excluded up front.
pub fn resolve_transaction(header: Header, postings: Vec<RawPosting>) -> (r: Result<
    Vec<Posting>,
    BalanceError,
>)
    requires
        balance_requires(postings_view(postings@)),
        missing_count(postings_view(postings@)) == 1 ==> unbalanced_of(
            postings_view(postings@),
        ).len() >= 1,
    ensures
        resolve_ok(header@, postings_view(postings@), r),
{
    let ghost ps = postings_view(postings@);
    match ensure_balanced(postings) {
        RawTransactionBalanceStatus::Balanced(rp) => {
            let ghost rpv = postings_view(rp@);
            proof {
                if missing_count(ps) == 1 {
                    lemma_missing_unique(ps);
                    assert(inferred_ok(ps, rpv));
                    assert forall|k: int| 0 <= k < rpv.len() implies (#[trigger] rpv[k]).amount
                        is Some by {
                        if k != last_missing_index(ps) {
                            assert(rpv[k] == ps[k]);
                        }
                    }
                } else {
                    lemma_missing_none(ps);
                    assert(rpv == ps);
                }
            }
            let out = into_postings(header, rp);
            proof {
                let outv = final_postings_view(out@);
                if missing_count(ps) == 1 {
                    let idx = last_missing_index(ps);
                    assert forall|k: int| 0 <= k < ps.len() && k != idx implies lowered_posting_ok(
                        header@,
                        ps[k],
                        #[trigger] outv[k],
                    ) by {
                        assert(rpv[k] == ps[k]);
                        assert(lowered_posting_ok(header@, rpv[k], outv[k]));
                    }
                    assert(lowered_posting_ok(header@, rpv[idx], outv[idx]));
                    assert(inferred_posting_ok(header@, ps, outv[idx]));
                }
            }
            Result::Ok(out)
        },
        RawTransactionBalanceStatus::MultipleAmountsMissing(n) => Result::Err(
            BalanceError::MultipleAmountsMissing(n),
        ),
        RawTransactionBalanceStatus::Unbalanced(l) => Result::Err(BalanceError::Unbalanced(l)),
    }
}

impl RawTransaction {
    /// Attempt to transform the transaction header and raw postings into
    /// final `Posting`s: validate that the transaction balances to zero,
    /// inferring the single missing amount when exactly one posting lacks
    /// one, and reject the transaction otherwise.
    pub fn into_postings(self) -> (r: Result<Vec<Posting>, BalanceError>)
        requires
            balance_requires(self@.postings),
            missing_count(self@.postings) == 1 ==> unbalanced_of(self@.postings).len() >= 1,
        ensures
            resolve_ok(self@.header, self@.postings, r),
    {
        resolve_transaction(self.header, self.postings)
    }
}

/// Compares two raw posting lists by value.
pub fn raw_postings_eq(a: &Vec<RawPosting>, b: &Vec<RawPosting>) -> (r: bool)
    ensures
        r == raw_postings_eq_spec(postings_view(a@), postings_view(b@)),
{
    if a.len() != b.len() {
        return false;
    }
    let mut i: usize = 0;
    while i < a.len()
        invariant
            a@.len() == b@.len(),
            i <= a@.len(),
            forall|j: int| 0 <= j < i ==> raw_posting_eq_spec((#[trigger] a@[j])@, b@[j]@),
        decreases a@.len() - i,
    {
        proof {
            assert(postings_view(a@)[i as int] == a@[i as int]@);
            assert(postings_view(b@)[i as int] == b@[i as int]@);
        }
        if !a[i].eq(&b[i]) {
            return false;
        }
        i = i + 1;
    }
    proof {
        assert forall|j: int| 0 <= j < a@.len() implies raw_posting_eq_spec(
            #[trigger] postings_view(a@)[j],
            postings_view(b@)[j],
        ) by {
            assert(postings_view(a@)[j] == a@[j]@);
            assert(postings_view(b@)[j] == b@[j]@);
        }
    }
    true
}

/// Raw posting lists are equal: same length, pairwise equal by value.
pub open spec fn raw_postings_eq_spec(a: Seq<RawPostingV>, b: Seq<RawPostingV>) -> bool {
    &&& a.len() == b.len()
    &&& forall|j: int| 0 <= j < a.len() ==> raw_posting_eq_spec(#[trigger] a[j], b[j])
}

impl PartialEq for RawTransaction {
    fn eq(&self, other: &RawTransaction) -> bool {
        self.header == other.header && raw_postings_eq(&self.postings, &other.postings)
    }
}

impl vstd::std_specs::cmp::PartialEqSpecImpl for RawTransaction {
    open spec fn obeys_eq_spec() -> bool {
        true
    }

    open spec fn eq_spec(&self, other: &RawTransaction) -> bool {
        self@.header == other@.header && raw_postings_eq_spec(self@.postings, other@.postings)
    }
}

impl PartialEq for ParseTree {
    fn eq(&self, other: &ParseTree) -> bool {
        match (self, other) {
            (ParseTree::Price(a), ParseTree::Price(b)) => a.eq(b),
            (ParseTree::Transaction(a), ParseTree::Transaction(b)) => a.eq(b),
            _ => false,
        }
    }
}

impl vstd::std_specs::cmp::PartialEqSpecImpl for ParseTree {
    open spec fn obeys_eq_spec() -> bool {
        true
    }

    open spec fn eq_spec(&self, other: &ParseTree) -> bool {
        match (self, other) {
            (ParseTree::Price(a), ParseTree::Price(b)) => {
                &&& a.date == b.date
                &&& a@.symbol == b@.symbol
                &&& amount_eq_spec(a@.amount, b@.amount)
            },
            (ParseTree::Transaction(a), ParseTree::Transaction(b)) => a@.header == b@.header
                && raw_postings_eq_spec(a@.postings, b@.postings),
            _ => false,
        }
    }
}

impl PartialEq for RawTransactionBalanceStatus {
    fn eq(&self, other: &RawTransactionBalanceStatus) -> bool {
        match (self, other) {
            (
                RawTransactionBalanceStatus::Balanced(a),
                RawTransactionBalanceStatus::Balanced(b),
            ) => raw_postings_eq(a, b),
            (
                RawTransactionBalanceStatus::MultipleAmountsMissing(a),
                RawTransactionBalanceStatus::MultipleAmountsMissing(b),
            ) => *a == *b,
            (
                RawTransactionBalanceStatus::Unbalanced(a),
                RawTransactionBalanceStatus::Unbalanced(b),
            ) => pairs_eq(a, b),
            _ => false,
        }
    }
}

impl vstd::std_specs::cmp::PartialEqSpecImpl for RawTransactionBalanceStatus {
    open spec fn obeys_eq_spec() -> bool {
        true
    }

    open spec fn eq_spec(&self, other: &RawTransactionBalanceStatus) -> bool {
        match (self, other) {
            (
                RawTransactionBalanceStatus::Balanced(a),
                RawTransactionBalanceStatus::Balanced(b),
            ) => raw_postings_eq_spec(postings_view(a@), postings_view(b@)),
            (
                RawTransactionBalanceStatus::MultipleAmountsMissing(a),
                RawTransactionBalanceStatus::MultipleAmountsMissing(b),
            ) => a == b,
            (
                RawTransactionBalanceStatus::Unbalanced(a),
                RawTransactionBalanceStatus::Unbalanced(b),
            ) => pairs_eq_spec(pairs_view(a@), pairs_view(b@)),
            _ => false,
        }
    }
}

} // verus!
