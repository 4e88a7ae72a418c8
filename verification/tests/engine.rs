use wealth_pulse::amount::Amount;
use wealth_pulse::amount::RenderOptions;
use wealth_pulse::amount::Spacing;
use wealth_pulse::amount::SymbolPosition;
use wealth_pulse::ast::BalanceError;
use wealth_pulse::ast::RawPosting;
use wealth_pulse::ast::RawTransaction;
use wealth_pulse::ast::RawTransactionBalanceStatus;
use wealth_pulse::ast::ensure_balanced;
use wealth_pulse::ast::into_postings;
use wealth_pulse::ast::resolve_transaction;
use wealth_pulse::date::Date;
use wealth_pulse::decimal::Decimal;
use wealth_pulse::header::Header;
use wealth_pulse::header::Status;
use wealth_pulse::posting::AmountSource;
use wealth_pulse::posting::Posting;
use wealth_pulse::symbol::QuoteOption;
use wealth_pulse::symbol::Symbol;

fn dollars(mantissa: i128, scale: u32) -> Amount {
    Amount::new(
        Decimal::new(mantissa, scale),
        Symbol::new("$", QuoteOption::Unquoted),
        RenderOptions::new(SymbolPosition::Left, Spacing::NoSpace),
    )
}

fn fund(mantissa: i128, scale: u32) -> Amount {
    Amount::new(
        Decimal::new(mantissa, scale),
        Symbol::new("MUTF2394", QuoteOption::Quoted),
        RenderOptions::new(SymbolPosition::Right, Spacing::Space),
    )
}

#[test]
fn ensure_balanced_no_postings_is_balanced() {
    let v: Vec<RawPosting> = Vec::new();
    assert_eq!(ensure_balanced(v), RawTransactionBalanceStatus::Balanced(Vec::new()));
}

#[test]
fn ensure_balanced_balanced_no_inferred() {
    let v = vec![
        RawPosting::new(Vec::new(), Some(dollars(234, 1)), AmountSource::Provided, None),
        RawPosting::new(Vec::new(), Some(dollars(-234, 1)), AmountSource::Provided, None),
        RawPosting::new(Vec::new(), Some(fund(-1527, 2)), AmountSource::Provided, None),
        RawPosting::new(Vec::new(), Some(fund(1527, 2)), AmountSource::Provided, None),
    ];
    let expected = vec![
        RawPosting::new(Vec::new(), Some(dollars(234, 1)), AmountSource::Provided, None),
        RawPosting::new(Vec::new(), Some(dollars(-234, 1)), AmountSource::Provided, None),
        RawPosting::new(Vec::new(), Some(fund(-1527, 2)), AmountSource::Provided, None),
        RawPosting::new(Vec::new(), Some(fund(1527, 2)), AmountSource::Provided, None),
    ];
    assert_eq!(ensure_balanced(v), RawTransactionBalanceStatus::Balanced(expected));
}

#[test]
fn ensure_balanced_unbalanced_no_inferred() {
    let v = vec![
        RawPosting::new(Vec::new(), Some(dollars(234, 1)), AmountSource::Provided, None),
        RawPosting::new(Vec::new(), Some(dollars(-234, 1)), AmountSource::Provided, None),
        RawPosting::new(Vec::new(), Some(fund(-1527, 2)), AmountSource::Provided, None),
        RawPosting::new(Vec::new(), Some(fund(1530, 2)), AmountSource::Provided, None),
    ];
    let expected_balances = vec![("MUTF2394".to_string(), fund(3, 2))];
    let result = ensure_balanced(v);
    assert_eq!(result, RawTransactionBalanceStatus::Unbalanced(expected_balances));
}

#[test]
fn ensure_balanced_one_inferred() {
    let v = vec![
        RawPosting::new(Vec::new(), Some(dollars(234, 1)), AmountSource::Provided, None),
        RawPosting::new(Vec::new(), Some(dollars(-234, 1)), AmountSource::Provided, None),
        RawPosting::new(Vec::new(), Some(fund(-1527, 2)), AmountSource::Provided, None),
        RawPosting::new(Vec::new(), None, AmountSource::Inferred, None),
    ];
    let expected = RawTransactionBalanceStatus::Balanced(vec![
        RawPosting::new(Vec::new(), Some(dollars(234, 1)), AmountSource::Provided, None),
        RawPosting::new(Vec::new(), Some(dollars(-234, 1)), AmountSource::Provided, None),
        RawPosting::new(Vec::new(), Some(fund(-1527, 2)), AmountSource::Provided, None),
        RawPosting::new(Vec::new(), Some(fund(1527, 2)), AmountSource::Inferred, None),
    ]);
    let result = ensure_balanced(v);
    assert_eq!(result, expected);
}

#[test]
fn ensure_balanced_all_inferred() {
    let v = vec![
        RawPosting::new(Vec::new(), None, AmountSource::Inferred, None),
        RawPosting::new(Vec::new(), None, AmountSource::Inferred, None),
        RawPosting::new(Vec::new(), None, AmountSource::Inferred, None),
        RawPosting::new(Vec::new(), None, AmountSource::Inferred, None),
    ];
    assert_eq!(ensure_balanced(v), RawTransactionBalanceStatus::MultipleAmountsMissing(4));
}

fn sample_header() -> Header {
    Header::new(
        Date::from_ymd(2015, 10, 20).unwrap(),
        Status::Cleared,
        None,
        "Payee".to_string(),
        None,
    )
}

#[test]
fn raw_transaction_into_postings_with_inferred() {
    let h = sample_header();
    let rp = vec![
        RawPosting::new(
            vec!["Expenses".to_string(), "Cash".to_string()],
            Some(dollars(234, 1)),
            AmountSource::Provided,
            Some("Test".to_string()),
        ),
        RawPosting::new(
            vec!["Assets".to_string(), "Savings".to_string(), "Bank".to_string()],
            None,
            AmountSource::Inferred,
            None,
        ),
    ];
    let expected = Ok(vec![
        Posting::new(
            sample_header(),
            "Expenses:Cash".to_string(),
            &vec!["Expenses".to_string(), "Cash".to_string()],
            dollars(234, 1),
            AmountSource::Provided,
            Some("Test".to_string()),
        ),
        Posting::new(
            sample_header(),
            "Assets:Savings:Bank".to_string(),
            &vec!["Assets".to_string(), "Savings".to_string(), "Bank".to_string()],
            dollars(-234, 1),
            AmountSource::Inferred,
            None,
        ),
    ]);
    let transaction = RawTransaction::new(h, rp);
    let result = transaction.into_postings();
    assert_eq!(result, expected);
}

#[test]
fn private_into_postings_test() {
    let h = sample_header();
    let rp = vec![
        RawPosting::new(
            vec!["Expenses".to_string(), "Cash".to_string()],
            Some(dollars(234, 1)),
            AmountSource::Provided,
            Some("Test".to_string()),
        ),
        RawPosting::new(
            vec!["Assets".to_string(), "Savings".to_string(), "Bank".to_string()],
            Some(dollars(-234, 1)),
            AmountSource::Inferred,
            None,
        ),
    ];
    let expected = vec![
        Posting::new(
            sample_header(),
            "Expenses:Cash".to_string(),
            &vec!["Expenses".to_string(), "Cash".to_string()],
            dollars(234, 1),
            AmountSource::Provided,
            Some("Test".to_string()),
        ),
        Posting::new(
            sample_header(),
            "Assets:Savings:Bank".to_string(),
            &vec!["Assets".to_string(), "Savings".to_string(), "Bank".to_string()],
            dollars(-234, 1),
            AmountSource::Inferred,
            None,
        ),
    ];
    let result = into_postings(h, rp);
    assert_eq!(result, expected);
}

#[test]
fn resolve_transaction_multiple_missing_is_error() {
    let postings = vec![
        RawPosting::new(vec!["A".to_string()], None, AmountSource::Inferred, None),
        RawPosting::new(vec!["B".to_string()], None, AmountSource::Inferred, None),
    ];
    let result = resolve_transaction(sample_header(), postings);
    assert_eq!(result, Err(BalanceError::MultipleAmountsMissing(2)));
}

#[test]
fn resolve_transaction_unbalanced_is_error() {
    let postings = vec![
        RawPosting::new(vec!["A".to_string()], Some(fund(-1527, 2)), AmountSource::Provided, None),
        RawPosting::new(vec!["B".to_string()], Some(fund(1530, 2)), AmountSource::Provided, None),
    ];
    let result = resolve_transaction(sample_header(), postings);
    assert_eq!(
        result,
        Err(BalanceError::Unbalanced(vec![("MUTF2394".to_string(), fund(3, 2))]))
    );
}

#[test]
fn resolve_transaction_infers_single_missing_amount() {
    let postings = vec![
        RawPosting::new(
            vec!["Expenses".to_string()],
            Some(dollars(234, 1)),
            AmountSource::Provided,
            None,
        ),
        RawPosting::new(
            vec!["Expenses".to_string()],
            Some(dollars(-234, 1)),
            AmountSource::Provided,
            None,
        ),
        RawPosting::new(
            vec!["Funds".to_string()],
            Some(fund(-1527, 2)),
            AmountSource::Provided,
            None,
        ),
        RawPosting::new(vec!["Bank".to_string()], None, AmountSource::Inferred, None),
    ];
    let result = resolve_transaction(sample_header(), postings).unwrap();
    assert_eq!(result.len(), 4);
    assert_eq!(result[3].amount, fund(1527, 2));
    assert_eq!(result[3].amount_source, AmountSource::Inferred);
    assert_eq!(result[3].account, "Bank");
    assert_eq!(result[0].amount_source, AmountSource::Provided);
}

#[test]
fn resolve_transaction_shares_one_header() {
    let postings = vec![
        RawPosting::new(
            vec!["A".to_string()],
            Some(dollars(500, 2)),
            AmountSource::Provided,
            None,
        ),
        RawPosting::new(
            vec!["B".to_string()],
            Some(dollars(-500, 2)),
            AmountSource::Provided,
            None,
        ),
    ];
    let result = resolve_transaction(sample_header(), postings).unwrap();
    assert_eq!(result.len(), 2);
    assert_eq!(result[0].header, sample_header());
    assert_eq!(result[0].header, result[1].header);
}
