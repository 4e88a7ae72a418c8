//! Final, validated postings and account-lineage derivation.

use vstd::prelude::*;
use crate::amount::Amount;
use crate::amount::AmountV;
use crate::header::Header;
use crate::header::HeaderV;
use crate::header::opt_text_view;
use crate::symbol::push_all;
use crate::text::chars_to_string;
use crate::text::str_to_chars;

verus! {

/// The views of a sequence of strings.
pub open spec fn seq_view(v: Seq<String>) -> Seq<Seq<char>> {
    v.map_values(|s: String| s@)
}

/// Whether a posting's amount was written in the input or inferred by
/// the balance engine.
#[derive(Clone, Copy, Debug, PartialEq, Eq, Structural)]
pub enum AmountSource {
    Provided,
    Inferred,
}

/// A balanced posting: produced only by the balance engine and never
/// mutated afterwards.
#[derive(Debug)]
pub struct Posting {
    pub header: Header,
    pub account: String,
    pub account_lineage: Vec<String>,
    pub amount: Amount,
    pub amount_source: AmountSource,
    pub comment: Option<String>,
}

/// The mathematical content of a `Posting`.
pub ghost struct PostingV {
    pub header: HeaderV,
    pub account: Seq<char>,
    pub account_lineage: Seq<Seq<char>>,
    pub amount: AmountV,
    pub amount_source: AmountSource,
    pub comment: Option<Seq<char>>,
}

impl View for Posting {
    type V = PostingV;

    open spec fn view(&self) -> PostingV {
        PostingV {
            header: self.header@,
            account: self.account@,
            account_lineage: seq_view(self.account_lineage@),
            amount: self.amount@,
            amount_source: self.amount_source,
            comment: opt_text_view(self.comment),
        }
    }
}

/// The colon-joined name of the first `k` account segments, written the
/// way the lineage builder writes it: a separator is added only when the
/// name built so far is non-empty.
pub open spec fn lineage_prefix(subs: Seq<Seq<char>>, k: int) -> Seq<char>
    decreases k,
{
    if k <= 0 {
        Seq::<char>::empty()
    } else {
        let pre = lineage_prefix(subs, k - 1);
        if pre.len() == 0 {
            subs[k - 1]
        } else {
            pre + seq![':'] + subs[k - 1]
        }
    }
}

impl Posting {
    pub fn new(
        header: Header,
        account: String,
        sub_accounts: &Vec<String>,
        amount: Amount,
        amount_source: AmountSource,
        comment: Option<String>,
    ) -> (r: Posting)
        ensures
            r@.header == header@,
            r@.account == account@,
            r@.account_lineage.len() == sub_accounts@.len(),
            forall|i: int|
                0 <= i < sub_accounts@.len() ==> #[trigger] r@.account_lineage[i] == lineage_prefix(
                    seq_view(sub_accounts@),
                    i + 1,
                ),
            r@.amount == amount@,
            r@.amount_source == amount_source,
            r@.comment == opt_text_view(comment),
    {
        let account_lineage = build_account_lineage(sub_accounts);
        Posting { header, account, account_lineage, amount, amount_source, comment }
    }
}

/// Build a vector of full account names for all levels of accounts based
/// on the `sub_accounts` provided: given `["Assets", "Savings", "Bank"]`
/// the result is `["Assets", "Assets:Savings", "Assets:Savings:Bank"]`.
pub fn build_account_lineage(sub_accounts: &Vec<String>) -> (r: Vec<String>)
    ensures
        r@.len() == sub_accounts@.len(),
        forall|i: int|
            0 <= i < sub_accounts@.len() ==> #[trigger] seq_view(r@)[i] == lineage_prefix(
                seq_view(sub_accounts@),
                i + 1,
            ),
{
    let ghost subs = seq_view(sub_accounts@);
    let mut account_lineage: Vec<String> = Vec::new();
    let mut account: Vec<char> = Vec::new();
    let mut i: usize = 0;
    while i < sub_accounts.len()
        invariant
            subs == seq_view(sub_accounts@),
            i <= sub_accounts@.len(),
            account@ == lineage_prefix(subs, i as int),
            account_lineage@.len() == i,
            forall|j: int|
                0 <= j < i ==> #[trigger] seq_view(account_lineage@)[j] == lineage_prefix(
                    subs,
                    j + 1,
                ),
        decreases sub_accounts@.len() - i,
    {
        let sub = str_to_chars(sub_accounts[i].as_str());
        if account.len() == 0 {
            push_all(&mut account, &sub);
            assert(account@ =~= lineage_prefix(subs, i + 1));
        } else {
            account.push(':');
            push_all(&mut account, &sub);
            assert(account@ =~= lineage_prefix(subs, i + 1));
        }
        let name = chars_to_string(&account);
        let ghost prev = account_lineage@;
        account_lineage.push(name);
        i = i + 1;
        proof {
            assert forall|j: int| 0 <= j < i implies #[trigger] seq_view(account_lineage@)[j]
                == lineage_prefix(subs, j + 1) by {
                assert(seq_view(account_lineage@)[j] == account_lineage@[j]@);
                if j < i - 1 {
                    assert(account_lineage@[j] == prev[j]);
                    assert(seq_view(prev)[j] == prev[j]@);
                } else {
                    assert(account_lineage@[j]@ == account@);
                }
            }
        }
    }
    account_lineage
}

/// The colon-joined full account name: every segment is separated by a
/// colon, empty segments included.
pub open spec fn joined_name(subs: Seq<Seq<char>>) -> Seq<char>
    decreases subs.len(),
{
    if subs.len() == 0 {
        Seq::<char>::empty()
    } else if subs.len() == 1 {
        subs[0]
    } else {
        joined_name(subs.drop_last()) + seq![':'] + subs.last()
    }
}

/// Joins account segments with colons.
pub fn join_accounts(subs: &Vec<String>) -> (r: String)
    ensures
        r@ == joined_name(seq_view(subs@)),
{
    let ghost subsv = seq_view(subs@);
    let mut acc: Vec<char> = Vec::new();
    let mut i: usize = 0;
    while i < subs.len()
        invariant
            subsv == seq_view(subs@),
            i <= subs@.len(),
            acc@ == joined_name(subsv.take(i as int)),
        decreases subs@.len() - i,
    {
        if i > 0 {
            acc.push(':');
        }
        let sub = str_to_chars(subs[i].as_str());
        push_all(&mut acc, &sub);
        proof {
            let pre = subsv.take(i as int);
            let cur = subsv.take(i + 1);
            assert(cur.drop_last() =~= pre);
            assert(cur.last() == subsv[i as int]);
            assert(acc@ =~= joined_name(cur));
        }
        i = i + 1;
    }
    assert(subsv.take(subs@.len() as int) =~= subsv);
    chars_to_string(&acc)
}

impl PartialEq for Posting {
    fn eq(&self, other: &Posting) -> bool {
        self.header == other.header && self.account == other.account && crate::ast::strings_eq(
            &self.account_lineage,
            &other.account_lineage,
        ) && self.amount == other.amount && self.amount_source == other.amount_source
            && crate::header::opt_text_eq(&self.comment, &other.comment)
    }
}

impl vstd::std_specs::cmp::PartialEqSpecImpl for Posting {
    open spec fn obeys_eq_spec() -> bool {
        true
    }

    open spec fn eq_spec(&self, other: &Posting) -> bool {
        &&& self@.header == other@.header
        &&& self@.account == other@.account
        &&& self@.account_lineage == other@.account_lineage
        &&& crate::ast::amount_eq_spec(self@.amount, other@.amount)
        &&& self@.amount_source == other@.amount_source
        &&& self@.comment == other@.comment
    }
}

} // verus!
