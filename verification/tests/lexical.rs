use wealth_pulse::amount::Spacing;
use wealth_pulse::date::Date;
use wealth_pulse::decimal::Decimal;
use wealth_pulse::lex::date;
use wealth_pulse::lex::day;
use wealth_pulse::lex::line_ending;
use wealth_pulse::lex::mandatory_whitespace;
use wealth_pulse::lex::month;
use wealth_pulse::lex::quantity;
use wealth_pulse::lex::quoted_symbol;
use wealth_pulse::lex::symbol;
use wealth_pulse::lex::to_i32;
use wealth_pulse::lex::to_u32;
use wealth_pulse::lex::two_digits;
use wealth_pulse::lex::unquoted_symbol;
use wealth_pulse::lex::whitespace;
use wealth_pulse::lex::year;
use wealth_pulse::symbol::QuoteOption;
use wealth_pulse::symbol::Symbol;

fn chars(s: &str) -> Vec<char> {
    s.chars().collect()
}

#[test]
fn whitespace_space() {
    let result = whitespace(&chars(" "), 0);
    assert_eq!(result.0, Spacing::Space);
}

#[test]
fn whitespace_tab() {
    let result = whitespace(&chars("\t"), 0);
    assert_eq!(result.0, Spacing::Space);
}

#[test]
fn whitespace_empty() {
    let result = whitespace(&chars(""), 0);
    assert_eq!(result.0, Spacing::NoSpace);
}

#[test]
fn whitespace_empty_is_error() {
    let result = mandatory_whitespace(&chars(""), 0);
    assert!(result.is_none());
}

#[test]
fn line_ending_unix() {
    let result = line_ending(&chars("\n"), 0);
    assert_eq!(result, Some(1));
}

#[test]
fn line_ending_windows() {
    let result = line_ending(&chars("\r\n"), 0);
    assert_eq!(result, Some(2));
}

#[test]
fn two_digits_to_u32_test() {
    let result = to_u32(&vec!['2', '7']);
    assert_eq!(result, 27);
}

#[test]
fn to_i32_reads_digits() {
    let result = to_i32(&vec!['2', '0', '1', '6']);
    assert_eq!(result, 2016);
}

#[test]
fn two_digits_test() {
    let result = two_digits(&chars("09"), 0);
    assert_eq!(result, Some((9, 2)));
}

#[test]
fn year_valid() {
    let result = year(&chars("2016"), 0);
    assert_eq!(result, Some((2016, 4)));
}

#[test]
fn month_valid() {
    let result = month(&chars("02"), 0);
    assert_eq!(result, Some((2, 2)));
}

#[test]
fn day_valid() {
    let result = day(&chars("07"), 0);
    assert_eq!(result, Some((7, 2)));
}

#[test]
fn date_valid() {
    let result = date(&chars("2016-02-07"), 0);
    assert_eq!(result, Some((Date::from_ymd(2016, 2, 7).unwrap(), 10)));
}

#[test]
fn date_test() {
    let result = date(&chars("2015-10-17"), 0);
    assert_eq!(result, Some((Date::from_ymd(2015, 10, 17).unwrap(), 10)));
}

#[test]
fn date_rejects_bad_month_and_day() {
    assert!(date(&chars("2016-13-40"), 0).is_none());
    assert!(date(&chars("2016-00-01"), 0).is_none());
    assert!(date(&chars("2016-1-01"), 0).is_none());
}

#[test]
fn quantity_negative_no_fractional_part() {
    let result = quantity(&chars("-1110"), 0).unwrap();
    assert_eq!(result.0, Decimal::new(-1110, 0));
}

#[test]
fn quantity_positive_no_fractional_part() {
    let result = quantity(&chars("2,314"), 0).unwrap();
    assert_eq!(result.0, Decimal::new(2314, 0));
}

#[test]
fn quantity_negative_with_fractional_part() {
    let result = quantity(&chars("-1,110.38"), 0).unwrap();
    assert_eq!(result.0, Decimal::new(-111038, 2));
}

#[test]
fn quantity_positive_with_fractional_part() {
    let result = quantity(&chars("24521.793"), 0).unwrap();
    assert_eq!(result.0, Decimal::new(24521793, 3));
}

#[test]
fn chomp_amount_negative_no_fractional_part() {
    let result = quantity(&chars("-1110"), 0).unwrap();
    assert_eq!(result.0, Decimal::new(-1110, 0));
}

#[test]
fn chomp_amount_positive_no_fractional_part() {
    let result = quantity(&chars("2,314"), 0).unwrap();
    assert_eq!(result.0, Decimal::new(2314, 0));
}

#[test]
fn chomp_amount_negative_with_fractional_part() {
    let result = quantity(&chars("-1,110.38"), 0).unwrap();
    assert_eq!(result.0, Decimal::new(-111038, 2));
}

#[test]
fn chomp_amount_positive_with_fractional_part() {
    let result = quantity(&chars("2314.793"), 0).unwrap();
    assert_eq!(result.0, Decimal::new(2314793, 3));
}

#[test]
fn thousands_separator_idempotence() {
    let with_separator = quantity(&chars("2,314"), 0).unwrap().0;
    let without_separator = quantity(&chars("2314"), 0).unwrap().0;
    assert_eq!(with_separator, without_separator);
}

#[test]
fn quantity_rejects_two_radix_points() {
    assert!(quantity(&chars("1.2.3"), 0).is_none());
}

#[test]
fn quantity_rejects_separators_only() {
    assert!(quantity(&chars(",."), 0).is_none());
    assert!(quantity(&chars("abc"), 0).is_none());
}

#[test]
fn quoted_symbol_valid() {
    let result = quoted_symbol(&chars("\"MUTF2351\""), 0).unwrap();
    assert_eq!(result.0, Symbol::new("MUTF2351", QuoteOption::Quoted));
}

#[test]
fn quoted_symbol_test() {
    let result = quoted_symbol(&chars("\"MUTF2351\""), 0).unwrap();
    assert_eq!(result.0, Symbol::new("MUTF2351", QuoteOption::Quoted));
    assert_eq!(result.1, 10);
}

#[test]
fn unquoted_symbol_just_symbol() {
    let result = unquoted_symbol(&chars("$"), 0).unwrap();
    assert_eq!(result.0, Symbol::new("$", QuoteOption::Unquoted));
}

#[test]
fn unquoted_symbol_symbol_and_letters() {
    let result = unquoted_symbol(&chars("US$"), 0).unwrap();
    assert_eq!(result.0, Symbol::new("US$", QuoteOption::Unquoted));
}

#[test]
fn unquoted_symbol_just_letters() {
    let result = unquoted_symbol(&chars("RUST"), 0).unwrap();
    assert_eq!(result.0, Symbol::new("RUST", QuoteOption::Unquoted));
}

#[test]
fn parse_unquoted_symbol_just_letters() {
    let result = unquoted_symbol(&chars("AAPL"), 0).unwrap();
    assert_eq!(result.0, Symbol::new("AAPL", QuoteOption::Unquoted));
}

#[test]
fn symbol_quoted() {
    let result = symbol(&chars("\"MUTF2351\""), 0).unwrap();
    assert_eq!(result.0, Symbol::new("MUTF2351", QuoteOption::Quoted));
}

#[test]
fn symbol_unquoted() {
    let result = symbol(&chars("$"), 0).unwrap();
    assert_eq!(result.0, Symbol::new("$", QuoteOption::Unquoted));
}

#[test]
fn symbol_quoted_test() {
    let result = symbol(&chars("\"MUTF2351\""), 0).unwrap();
    assert_eq!(result.0, Symbol::new("MUTF2351", QuoteOption::Quoted));
}

#[test]
fn symbol_unquoted_test() {
    let result = symbol(&chars("$"), 0).unwrap();
    assert_eq!(result.0, Symbol::new("$", QuoteOption::Unquoted));
}

#[test]
fn unquoted_symbol_stops_at_digit() {
    let result = unquoted_symbol(&chars("US$13"), 0).unwrap();
    assert_eq!(result.0, Symbol::new("US$", QuoteOption::Unquoted));
    assert_eq!(result.1, 3);
}

#[test]
fn quoted_symbol_requires_closing_quote() {
    assert!(quoted_symbol(&chars("\"MUTF2351"), 0).is_none());
    assert!(quoted_symbol(&chars("\"\""), 0).is_none());
}
