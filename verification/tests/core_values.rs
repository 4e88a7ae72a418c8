use wealth_pulse::amount::Amount;
use wealth_pulse::amount::RenderOptions;
use wealth_pulse::amount::Spacing;
use wealth_pulse::amount::SymbolPosition;
use wealth_pulse::date::Date;
use wealth_pulse::decimal::Decimal;
use wealth_pulse::posting::build_account_lineage;
use wealth_pulse::price::Price;
use wealth_pulse::symbol::QuoteOption;
use wealth_pulse::symbol::Symbol;

#[test]
fn symbol_fmt_quoted() {
    let result = Symbol::new("MUTF2351", QuoteOption::Quoted).render();
    assert_eq!(result, "\"MUTF2351\"");
}

#[test]
fn symbol_fmt_unquoted() {
    let result = Symbol::new("$", QuoteOption::Unquoted).render();
    assert_eq!(result, "$");
}

#[test]
fn amount_fmt_symbol_left_with_space() {
    let result = Amount::new(
        Decimal::new(1324500, 2),
        Symbol::new("US$", QuoteOption::Unquoted),
        RenderOptions::new(SymbolPosition::Left, Spacing::Space),
    )
    .render();
    assert_eq!(result, "US$ 13245.00");
}

#[test]
fn amount_fmt_symbol_left_no_space() {
    let result = Amount::new(
        Decimal::new(1324500, 2),
        Symbol::new("$", QuoteOption::Unquoted),
        RenderOptions::new(SymbolPosition::Left, Spacing::NoSpace),
    )
    .render();
    assert_eq!(result, "$13245.00");
}

#[test]
fn amount_fmt_symbol_right_with_space() {
    let result = Amount::new(
        Decimal::new(13245463, 3),
        Symbol::new("MUTF2351", QuoteOption::Quoted),
        RenderOptions::new(SymbolPosition::Right, Spacing::Space),
    )
    .render();
    assert_eq!(result, "13245.463 \"MUTF2351\"");
}

#[test]
fn amount_fmt_symbol_right_no_space() {
    let result = Amount::new(
        Decimal::new(13245463, 3),
        Symbol::new("RUST", QuoteOption::Unquoted),
        RenderOptions::new(SymbolPosition::Right, Spacing::NoSpace),
    )
    .render();
    assert_eq!(result, "13245.463RUST");
}

#[test]
fn price_fmt() {
    let result = Price::new(
        Date::from_ymd(2016, 2, 7).unwrap(),
        Symbol::new("MUTF2351", QuoteOption::Quoted),
        Amount::new(
            Decimal::new(542, 2),
            Symbol::new("$", QuoteOption::Unquoted),
            RenderOptions::new(SymbolPosition::Left, Spacing::NoSpace),
        ),
    )
    .render();
    assert_eq!(result, "P 2016-02-07 \"MUTF2351\" $5.42");
}

#[test]
fn posting_build_account_lineage_should_provide_full_account_name_for_all_levels() {
    let sub_accounts = vec!["Assets".to_string(), "Savings".to_string(), "Bank".to_string()];
    let expected = vec!["Assets", "Assets:Savings", "Assets:Savings:Bank"];
    assert_eq!(build_account_lineage(&sub_accounts), expected);
}

#[test]
fn ast_build_account_lineage_should_provide_full_account_name_for_all_levels() {
    let sub_accounts = vec!["Assets".to_string(), "Savings".to_string(), "Bank".to_string()];
    let expected = vec!["Assets", "Assets:Savings", "Assets:Savings:Bank"];
    assert_eq!(build_account_lineage(&sub_accounts), expected);
}

#[test]
fn decimal_equality_is_by_value() {
    assert_eq!(Decimal::new(1310, 0), Decimal::new(131000, 2));
    assert_ne!(Decimal::new(1310, 0), Decimal::new(13100, 2));
    assert_eq!(Decimal::new(0, 0), Decimal::new(0, 5));
}

#[test]
fn decimal_render_pads_fraction() {
    assert_eq!(Decimal::new(3, 2).render(), "0.03");
    assert_eq!(Decimal::new(-3, 2).render(), "-0.03");
    assert_eq!(Decimal::new(2340, 2).render(), "23.40");
    assert_eq!(Decimal::new(-1110, 0).render(), "-1110");
}

#[test]
fn date_rejects_out_of_range() {
    assert!(Date::from_ymd(2016, 13, 1).is_none());
    assert!(Date::from_ymd(2016, 0, 1).is_none());
    assert!(Date::from_ymd(2016, 1, 32).is_none());
    assert!(Date::from_ymd(2016, 13, 40).is_none());
    assert!(Date::from_ymd(2016, 2, 7).is_some());
}

#[test]
fn date_knows_leap_years() {
    assert!(Date::from_ymd(2020, 2, 29).is_some());
    assert!(Date::from_ymd(2019, 2, 29).is_none());
    assert!(Date::from_ymd(1900, 2, 29).is_none());
    assert!(Date::from_ymd(2000, 2, 29).is_some());
}

#[test]
fn date_renders_zero_padded() {
    assert_eq!(Date::from_ymd(2016, 2, 7).unwrap().render(), "2016-02-07");
    assert_eq!(Date::from_ymd(16, 11, 30).unwrap().render(), "0016-11-30");
}
