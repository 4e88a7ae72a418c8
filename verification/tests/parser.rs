use wealth_pulse::amount::Amount;
use wealth_pulse::amount::RenderOptions;
use wealth_pulse::amount::Spacing;
use wealth_pulse::amount::SymbolPosition;
use wealth_pulse::ast::ParseTree;
use wealth_pulse::ast::RawPosting;
use wealth_pulse::ast::RawTransaction;
use wealth_pulse::date::Date;
use wealth_pulse::decimal::Decimal;
use wealth_pulse::header::Header;
use wealth_pulse::header::Status;
use wealth_pulse::parse::account;
use wealth_pulse::parse::amount;
use wealth_pulse::parse::amount_or_inferred;
use wealth_pulse::parse::amount_quantity_then_symbol;
use wealth_pulse::parse::amount_symbol_then_quantity;
use wealth_pulse::parse::code;
use wealth_pulse::parse::comment;
use wealth_pulse::parse::comment_line;
use wealth_pulse::parse::header;
use wealth_pulse::parse::parse_ledger;
use wealth_pulse::parse::parse_pricedb;
use wealth_pulse::parse::payee;
use wealth_pulse::parse::posting;
use wealth_pulse::parse::posting_line;
use wealth_pulse::parse::price;
use wealth_pulse::parse::price_db;
use wealth_pulse::parse::skip_comment_or_empty_lines;
use wealth_pulse::parse::status;
use wealth_pulse::parse::sub_account;
use wealth_pulse::parse::transaction;
use wealth_pulse::posting::AmountSource;
use wealth_pulse::price::Price;
use wealth_pulse::symbol::QuoteOption;
use wealth_pulse::symbol::Symbol;

fn chars(s: &str) -> Vec<char> {
    s.chars().collect()
}

fn usd(mantissa: i128, scale: u32, spacing: Spacing) -> Amount {
    Amount::new(
        Decimal::new(mantissa, scale),
        Symbol::new("$", QuoteOption::Unquoted),
        RenderOptions::new(SymbolPosition::Left, spacing),
    )
}

#[test]
fn amount_symbol_then_quantity_no_whitespace() {
    let result = amount_symbol_then_quantity(&chars("$13,245.00"), 0).unwrap();
    assert_eq!(result.0, usd(1324500, 2, Spacing::NoSpace));
}

#[test]
fn amount_symbol_then_quantity_with_whitespace() {
    let result = amount_symbol_then_quantity(&chars("$ 13,245.00"), 0).unwrap();
    assert_eq!(result.0, usd(1324500, 2, Spacing::Space));
}

#[test]
fn instrument_symbol_then_amount_with_whitespace() {
    let result = amount_symbol_then_quantity(&chars("US$ -13,245.00"), 0).unwrap();
    assert_eq!(
        result.0,
        Amount::new(
            Decimal::new(-1324500, 2),
            Symbol::new("US$", QuoteOption::Unquoted),
            RenderOptions::new(SymbolPosition::Left, Spacing::Space),
        )
    );
}

#[test]
fn amount_quantity_then_symbol_no_whitespace() {
    let result = amount_quantity_then_symbol(&chars("13,245.463AAPL"), 0).unwrap();
    assert_eq!(
        result.0,
        Amount::new(
            Decimal::new(13245463, 3),
            Symbol::new("AAPL", QuoteOption::Unquoted),
            RenderOptions::new(SymbolPosition::Right, Spacing::NoSpace),
        )
    );
}

#[test]
fn instrument_amount_then_symbol_no_whitespace() {
    let result = amount_quantity_then_symbol(&chars("13,245.463RUST"), 0).unwrap();
    assert_eq!(
        result.0,
        Amount::new(
            Decimal::new(13245463, 3),
            Symbol::new("RUST", QuoteOption::Unquoted),
            RenderOptions::new(SymbolPosition::Right, Spacing::NoSpace),
        )
    );
}

#[test]
fn amount_quantity_then_symbol_with_whitespace() {
    let result = amount_quantity_then_symbol(&chars("13,245.463 \"MUTF2351\""), 0).unwrap();
    assert_eq!(
        result.0,
        Amount::new(
            Decimal::new(13245463, 3),
            Symbol::new("MUTF2351", QuoteOption::Quoted),
            RenderOptions::new(SymbolPosition::Right, Spacing::Space),
        )
    );
}

#[test]
fn amount_test_symbol_then_quantity() {
    let result = amount(&chars("$13,245.46"), 0).unwrap();
    assert_eq!(result.0, usd(1324546, 2, Spacing::NoSpace));
}

#[test]
fn amount_test_quantity_then_symbol() {
    let result = amount(&chars("13,245.463 \"MUTF2351\""), 0).unwrap();
    assert_eq!(
        result.0,
        Amount::new(
            Decimal::new(13245463, 3),
            Symbol::new("MUTF2351", QuoteOption::Quoted),
            RenderOptions::new(SymbolPosition::Right, Spacing::Space),
        )
    );
}

#[test]
fn amount_or_inferred_amount_provided() {
    let ((source, opt_amount), _pos) = amount_or_inferred(&chars("$13,245.46"), 0);
    assert_eq!(source, AmountSource::Provided);
    assert_eq!(opt_amount, Some(usd(1324546, 2, Spacing::NoSpace)));
}

#[test]
fn amount_or_inferred_no_amount() {
    let ((source, opt_amount), pos) = amount_or_inferred(&chars(""), 0);
    assert_eq!(source, AmountSource::Inferred);
    assert_eq!(opt_amount, None);
    assert_eq!(pos, 0);
}

#[test]
fn amount_round_trip_keeps_quantity_and_symbol() {
    let samples = vec![
        usd(1324500, 2, Spacing::NoSpace),
        usd(-2340, 1, Spacing::Space),
        Amount::new(
            Decimal::new(1527, 2),
            Symbol::new("MUTF2394", QuoteOption::Quoted),
            RenderOptions::new(SymbolPosition::Right, Spacing::NoSpace),
        ),
        Amount::new(
            Decimal::new(-3, 2),
            Symbol::new("RUST", QuoteOption::Unquoted),
            RenderOptions::new(SymbolPosition::Right, Spacing::Space),
        ),
    ];
    for before in samples {
        let text = before.render();
        let (reparsed, consumed) = amount(&chars(&text), 0).unwrap();
        assert_eq!(reparsed, before);
        assert_eq!(consumed, text.chars().count());
    }
}

#[test]
fn price_valid() {
    let result = price(&chars("P 2016-02-07 \"MUTF2351\" $5.42"), 0).unwrap();
    assert_eq!(
        result.0,
        Price::new(
            Date::from_ymd(2016, 2, 7).unwrap(),
            Symbol::new("MUTF2351", QuoteOption::Quoted),
            usd(542, 2, Spacing::NoSpace),
        )
    );
}

#[test]
fn price_test() {
    let result = price(&chars("P 2015-10-25 \"MUTF2351\" $5.42"), 0).unwrap();
    assert_eq!(
        result.0,
        Price::new(
            Date::from_ymd(2015, 10, 25).unwrap(),
            Symbol::new("MUTF2351", QuoteOption::Quoted),
            usd(542, 2, Spacing::NoSpace),
        )
    );
}

#[test]
fn price_line_valid() {
    let result = price(&chars("P 2016-02-07 \"MUTF2351\" $5.42\r\n"), 0).unwrap();
    assert_eq!(
        result.0,
        Price::new(
            Date::from_ymd(2016, 2, 7).unwrap(),
            Symbol::new("MUTF2351", QuoteOption::Quoted),
            usd(542, 2, Spacing::NoSpace),
        )
    );
}

#[test]
fn price_db_no_records() {
    let result = price_db(&chars(""), 0);
    assert_eq!(result.0, Vec::<Price>::new());
}

#[test]
fn price_db_one_record() {
    let result = price_db(&chars("P 2015-10-25 \"MUTF2351\" $5.42"), 0);
    assert_eq!(
        result.0,
        vec![Price::new(
            Date::from_ymd(2015, 10, 25).unwrap(),
            Symbol::new("MUTF2351", QuoteOption::Quoted),
            usd(542, 2, Spacing::NoSpace),
        )]
    );
}

#[test]
fn price_db_multiple_records() {
    let text = "P 2015-10-23 \"MUTF2351\" $5.42\nP 2015-10-25 \"MUTF2351\" $5.98\nP 2015-10-25 AAPL $313.38\n";
    let result = price_db(&chars(text), 0);
    assert_eq!(
        result.0,
        vec![
            Price::new(
                Date::from_ymd(2015, 10, 23).unwrap(),
                Symbol::new("MUTF2351", QuoteOption::Quoted),
                usd(542, 2, Spacing::NoSpace),
            ),
            Price::new(
                Date::from_ymd(2015, 10, 25).unwrap(),
                Symbol::new("MUTF2351", QuoteOption::Quoted),
                usd(598, 2, Spacing::NoSpace),
            ),
            Price::new(
                Date::from_ymd(2015, 10, 25).unwrap(),
                Symbol::new("AAPL", QuoteOption::Unquoted),
                usd(31338, 2, Spacing::NoSpace),
            ),
        ]
    );
}

#[test]
fn parse_pricedb_accepts_trailing_blank_content() {
    let result = parse_pricedb("P 2016-02-07 \"MUTF2351\" $5.41\n  \n\n").unwrap();
    assert_eq!(result.len(), 1);
}

#[test]
fn parse_pricedb_rejects_garbage() {
    let result = parse_pricedb("P 2016-02-07 \"MUTF2351\" $5.41\nnot a price\n");
    assert_eq!(result.unwrap_err().position, 30);
}

#[test]
fn status_cleared() {
    let result = status(&chars("*"), 0).unwrap();
    assert_eq!(result.0, Status::Cleared);
}

#[test]
fn status_uncleared() {
    let result = status(&chars("!"), 0).unwrap();
    assert_eq!(result.0, Status::Uncleared);
}

#[test]
fn code_empty() {
    let result = code(&chars("()"), 0).unwrap();
    assert!(result.0.is_empty());
}

#[test]
fn code_short() {
    let result = code(&chars("(89)"), 0).unwrap();
    assert_eq!(result.0, "89");
}

#[test]
fn code_long() {
    let result = code(&chars("(conf# abc-123-DEF)"), 0).unwrap();
    assert_eq!(result.0, "conf# abc-123-DEF");
}

#[test]
fn payee_empty_payee_is_error() {
    assert!(payee(&chars(""), 0).is_none());
}

#[test]
fn payee_single_character() {
    let result = payee(&chars("Z"), 0).unwrap();
    assert_eq!(result.0, "Z");
}

#[test]
fn payee_short() {
    let result = payee(&chars("WonderMart"), 0).unwrap();
    assert_eq!(result.0, "WonderMart");
}

#[test]
fn payee_long() {
    let result = payee(&chars("WonderMart - groceries, kitchen supplies (pot), light bulbs"), 0)
        .unwrap();
    assert_eq!(result.0, "WonderMart - groceries, kitchen supplies (pot), light bulbs");
}

#[test]
fn comment_empty() {
    let result = comment(&chars(";"), 0).unwrap();
    assert!(result.0.is_empty());
}

#[test]
fn comment_no_leading_space() {
    let result = comment(&chars(";Comment"), 0).unwrap();
    assert_eq!(result.0, "Comment");
}

#[test]
fn comment_with_leading_space() {
    let result = comment(&chars("; Comment"), 0).unwrap();
    assert_eq!(result.0, " Comment");
}

#[test]
fn comment_line_with_leading_whitespace() {
    let result = comment_line(&chars("  ;Comment\r\n"), 0).unwrap();
    assert_eq!(result.0, "Comment");
}

#[test]
fn comment_line_no_leading_whitespace() {
    let result = comment_line(&chars(";Comment\r\n"), 0).unwrap();
    assert_eq!(result.0, "Comment");
}

#[test]
fn header_full() {
    let result = header(&chars("2015-10-20 * (conf# abc-123) Payee ;Comment"), 0).unwrap();
    assert_eq!(
        result.0,
        Header::new(
            Date::from_ymd(2015, 10, 20).unwrap(),
            Status::Cleared,
            Some("conf# abc-123".to_string()),
            "Payee ".to_string(),
            Some("Comment".to_string()),
        )
    );
}

#[test]
fn header_with_code_and_no_comment() {
    let result = header(&chars("2015-10-20 ! (conf# abc-123) Payee"), 0).unwrap();
    assert_eq!(
        result.0,
        Header::new(
            Date::from_ymd(2015, 10, 20).unwrap(),
            Status::Uncleared,
            Some("conf# abc-123".to_string()),
            "Payee".to_string(),
            None,
        )
    );
}

#[test]
fn header_with_comment_and_no_code() {
    let result = header(&chars("2015-10-20 * Payee ;Comment"), 0).unwrap();
    assert_eq!(
        result.0,
        Header::new(
            Date::from_ymd(2015, 10, 20).unwrap(),
            Status::Cleared,
            None,
            "Payee ".to_string(),
            Some("Comment".to_string()),
        )
    );
}

#[test]
fn header_with_no_code_or_comment() {
    let result = header(&chars("2015-10-20 * Payee"), 0).unwrap();
    assert_eq!(
        result.0,
        Header::new(
            Date::from_ymd(2015, 10, 20).unwrap(),
            Status::Cleared,
            None,
            "Payee".to_string(),
            None,
        )
    );
}

#[test]
fn sub_account_alphanumeric() {
    let result = sub_account(&chars("AZaz09"), 0).unwrap();
    assert_eq!(result.0, "AZaz09");
}

#[test]
fn sub_account_can_start_with_digits() {
    let result = sub_account(&chars("123abcABC"), 0).unwrap();
    assert_eq!(result.0, "123abcABC");
}

#[test]
fn account_single_level() {
    let result = account(&chars("Expenses"), 0).unwrap();
    assert_eq!(result.0, vec!["Expenses".to_string()]);
}

#[test]
fn account_multiple_level() {
    let result = account(&chars("Expenses:Food:Groceries"), 0).unwrap();
    assert_eq!(
        result.0,
        vec!["Expenses".to_string(), "Food".to_string(), "Groceries".to_string()]
    );
}

#[test]
fn posting_with_all_components() {
    let result = posting(&chars("Assets:Savings\t$45.00\t;comment"), 0).unwrap();
    assert_eq!(
        result.0,
        RawPosting::new(
            vec!["Assets".to_string(), "Savings".to_string()],
            Some(usd(4500, 2, Spacing::NoSpace)),
            AmountSource::Provided,
            Some("comment".to_string()),
        )
    );
}

#[test]
fn posting_with_all_components_alternate_amount() {
    let result = posting(&chars("Assets:Investments\t13.508 \"MUTF2351\"\t;comment"), 0).unwrap();
    assert_eq!(
        result.0,
        RawPosting::new(
            vec!["Assets".to_string(), "Investments".to_string()],
            Some(Amount::new(
                Decimal::new(13508, 3),
                Symbol::new("MUTF2351", QuoteOption::Quoted),
                RenderOptions::new(SymbolPosition::Right, Spacing::Space),
            )),
            AmountSource::Provided,
            Some("comment".to_string()),
        )
    );
}

#[test]
fn posting_with_amount_no_comment() {
    let result = posting(&chars("Assets:Savings\t$45.00"), 0).unwrap();
    assert_eq!(
        result.0,
        RawPosting::new(
            vec!["Assets".to_string(), "Savings".to_string()],
            Some(usd(4500, 2, Spacing::NoSpace)),
            AmountSource::Provided,
            None,
        )
    );
}

#[test]
fn posting_inferred_amount_with_comment() {
    let result = posting(&chars("Assets:Savings\t;comment"), 0).unwrap();
    assert_eq!(
        result.0,
        RawPosting::new(
            vec!["Assets".to_string(), "Savings".to_string()],
            None,
            AmountSource::Inferred,
            Some("comment".to_string()),
        )
    );
}

#[test]
fn posting_inferred_amount_no_comment() {
    let result = posting(&chars("Assets:Savings"), 0).unwrap();
    assert_eq!(
        result.0,
        RawPosting::new(
            vec!["Assets".to_string(), "Savings".to_string()],
            None,
            AmountSource::Inferred,
            None,
        )
    );
}

#[test]
fn posting_line_begins_with_spaces() {
    let result = posting_line(&chars("  Assets:Savings\r\n"), 0).unwrap();
    assert_eq!(
        result.0,
        RawPosting::new(
            vec!["Assets".to_string(), "Savings".to_string()],
            None,
            AmountSource::Inferred,
            None,
        )
    );
}

#[test]
fn posting_line_begins_with_tab() {
    let result = posting_line(&chars("\tAssets:Savings\r\n"), 0).unwrap();
    assert_eq!(
        result.0,
        RawPosting::new(
            vec!["Assets".to_string(), "Savings".to_string()],
            None,
            AmountSource::Inferred,
            None,
        )
    );
}

fn basic_transaction_expected() -> RawTransaction {
    RawTransaction::new(
        Header::new(
            Date::from_ymd(2016, 6, 7).unwrap(),
            Status::Cleared,
            None,
            "Basic transaction ".to_string(),
            Some("comment".to_string()),
        ),
        vec![
            RawPosting::new(
                vec!["Expenses".to_string(), "Groceries".to_string()],
                Some(usd(4500, 2, Spacing::NoSpace)),
                AmountSource::Provided,
                None,
            ),
            RawPosting::new(
                vec!["Liabilities".to_string(), "Credit".to_string()],
                None,
                AmountSource::Inferred,
                None,
            ),
        ],
    )
}

#[test]
fn transaction_basic() {
    let text = "2016-06-07 * Basic transaction ;comment\n\tExpenses:Groceries    $45.00\n\tLiabilities:Credit\n";
    let result = transaction(&chars(text), 0).unwrap();
    assert_eq!(result.0, basic_transaction_expected());
}

#[test]
fn transaction_with_comment() {
    let text = "2016-06-07 * Basic transaction ;comment\n; a comment in a transaction\n\tExpenses:Groceries    $45.00\n\tLiabilities:Credit\n";
    let result = transaction(&chars(text), 0).unwrap();
    assert_eq!(result.0, basic_transaction_expected());
}

#[test]
fn skip_comment_or_empty_lines_comment() {
    let text = chars("; comment\r\n");
    assert_eq!(skip_comment_or_empty_lines(&text, 0), text.len());
}

#[test]
fn skip_comment_or_empty_lines_comments() {
    let text = chars("; comment\r\n; another comment\r\n");
    assert_eq!(skip_comment_or_empty_lines(&text, 0), text.len());
}

#[test]
fn skip_comment_or_empty_lines_empty_line() {
    let text = chars("  \r\n");
    assert_eq!(skip_comment_or_empty_lines(&text, 0), text.len());
}

#[test]
fn skip_comment_or_empty_lines_empty_lines() {
    let text = chars("  \r\n\r\n\t\r\n");
    assert_eq!(skip_comment_or_empty_lines(&text, 0), text.len());
}

#[test]
fn skip_comment_or_empty_lines_mix() {
    let text = chars("  \r\n; comment\r\n\t; indented comment\r\n\r\n");
    assert_eq!(skip_comment_or_empty_lines(&text, 0), text.len());
}

#[test]
fn ledger_single_transaction() {
    let text = "; Preamble\n\n2016-06-07 * Basic transaction ;comment\n\tExpenses:Groceries    $45.00\n\tLiabilities:Credit\n\n";
    let result = parse_ledger(text);
    assert!(result.is_ok());
    assert_eq!(result.unwrap().len(), 1);
}

#[test]
fn ledger_small_sample() {
    let text = "; Preamble\n\n2016-06-07 * Basic transaction ;comment\n\tExpenses:Groceries    $45.00\n\tLiabilities:Credit\n\t\nP 2016-06-07 \"MUTF2351\" $4.56\nP 2016-06-07 AAPL $23.33\n\n; Separator\n\n2016-06-07 * Basic transaction ;comment\n\tExpenses:Groceries    $45.00\n\tLiabilities:Credit\n";
    let result = parse_ledger(text);
    assert!(result.is_ok());
    assert_eq!(result.unwrap().len(), 4);
}

#[test]
fn ledger_entries_keep_source_order() {
    let text = "; Preamble\n\n2016-06-07 * Basic transaction ;comment\n\tExpenses:Groceries    $45.00\n\tLiabilities:Credit\n\t\nP 2016-06-07 \"MUTF2351\" $4.56\nP 2016-06-07 AAPL $23.33\n\n; Separator\n\n2016-06-07 * Basic transaction ;comment\n\tExpenses:Groceries    $45.00\n\tLiabilities:Credit\n";
    let result = parse_ledger(text).unwrap();
    assert!(matches!(result[0], ParseTree::Transaction(_)));
    assert!(matches!(result[1], ParseTree::Price(_)));
    assert!(matches!(result[2], ParseTree::Price(_)));
    assert!(matches!(result[3], ParseTree::Transaction(_)));
}

#[test]
fn ledger_line_ending_tolerance() {
    let unix = "; Preamble\n\n2016-06-07 * Basic transaction ;comment\n\tExpenses:Groceries    $45.00\n\tLiabilities:Credit\n\nP 2016-06-07 AAPL $23.33\n";
    let windows = unix.replace('\n', "\r\n");
    let from_unix = parse_ledger(unix).unwrap();
    let from_windows = parse_ledger(&windows).unwrap();
    assert_eq!(from_unix, from_windows);
}

#[test]
fn ledger_rejects_malformed_entry() {
    let result = parse_ledger("2016-06-07 *\n");
    assert!(result.is_err());
}

#[test]
fn ledger_error_carries_position() {
    let text = "; fine\nnonsense without structure\n";
    let result = parse_ledger(text);
    assert_eq!(result.unwrap_err().position, 7);
}
