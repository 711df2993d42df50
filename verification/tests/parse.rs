use company_calc::money::Money;
use company_calc::money::PARSE_LIMIT_CENTS;
use company_calc::rows::NewCompanyRow;
use company_calc::rows::ValidationError;
use company_calc::text::format_amount;
use company_calc::text::parse_amount;
use company_calc::validate::map_to_new;

fn new_row(name: &str, pos: &str, neg: &str, debit: &str, credit: &str) -> NewCompanyRow {
    NewCompanyRow {
        name: name.to_string(),
        remainder_begin_month_pos: pos.to_string(),
        remainder_begin_month_neg: neg.to_string(),
        debit_turnover: debit.to_string(),
        credit_turnover: credit.to_string(),
        error: None,
    }
}

#[test]
fn parses_integers() {
    assert_eq!(parse_amount("0"), Some(Money { cents: 0 }));
    assert_eq!(parse_amount("100"), Some(Money { cents: 10000 }));
    assert_eq!(parse_amount("007"), Some(Money { cents: 700 }));
}

#[test]
fn parses_fractions() {
    assert_eq!(parse_amount("100.5"), Some(Money { cents: 10050 }));
    assert_eq!(parse_amount("100.25"), Some(Money { cents: 10025 }));
    assert_eq!(parse_amount(".5"), Some(Money { cents: 50 }));
    assert_eq!(parse_amount("5."), Some(Money { cents: 500 }));
    assert_eq!(parse_amount("0.07"), Some(Money { cents: 7 }));
}

#[test]
fn parses_signed() {
    assert_eq!(parse_amount("-3"), Some(Money { cents: -300 }));
    assert_eq!(parse_amount("-0.5"), Some(Money { cents: -50 }));
    assert_eq!(parse_amount("-.5"), Some(Money { cents: -50 }));
}

#[test]
fn rejects_malformed() {
    assert_eq!(parse_amount(""), None);
    assert_eq!(parse_amount("."), None);
    assert_eq!(parse_amount("-"), None);
    assert_eq!(parse_amount("-."), None);
    assert_eq!(parse_amount("abc"), None);
    assert_eq!(parse_amount("1.234"), None);
    assert_eq!(parse_amount("1.2.3"), None);
    assert_eq!(parse_amount("1 2"), None);
    assert_eq!(parse_amount("--1"), None);
    assert_eq!(parse_amount("1-"), None);
    assert_eq!(parse_amount("1e3"), None);
}

#[test]
fn rejects_out_of_range() {
    // One above the largest accepted value, in hundredths.
    assert_eq!(parse_amount("100000000000000.01"), None);
    assert_eq!(parse_amount("100000000000000"), Some(Money { cents: PARSE_LIMIT_CENTS }));
    assert_eq!(parse_amount("999999999999999999999"), None);
}

#[test]
fn formats_amounts() {
    assert_eq!(format_amount(0).as_str(), "0");
    assert_eq!(format_amount(10000).as_str(), "100");
    assert_eq!(format_amount(10050).as_str(), "100.5");
    assert_eq!(format_amount(10025).as_str(), "100.25");
    assert_eq!(format_amount(7).as_str(), "0.07");
}

#[test]
fn format_parse_round_trip() {
    for cents in [0i64, 1, 99, 100, 12345, 10000, 999999999] {
        let text = format_amount(cents);
        assert_eq!(parse_amount(text.as_str()), Some(Money { cents }));
    }
}

#[test]
fn debit_side_text_gives_positive_remainder() {
    let row = new_row("Acme", "100", "", "0", "0");
    let c = map_to_new(&row).unwrap();
    assert_eq!(c.remainder_begin_month, Money { cents: 10000 });
}

#[test]
fn credit_side_text_gives_negative_remainder() {
    let row = new_row("Acme", "", "100", "0", "0");
    let c = map_to_new(&row).unwrap();
    assert_eq!(c.remainder_begin_month, Money { cents: -10000 });
}

#[test]
fn both_sides_filled_is_ambiguous() {
    let row = new_row("Acme", "1", "2", "0", "0");
    assert_eq!(map_to_new(&row).unwrap_err(), ValidationError::AmbiguousSign);
    // The sign conflict is reported before any other failure.
    let nameless = new_row("", "1", "2", "bad", "bad");
    assert_eq!(map_to_new(&nameless).unwrap_err(), ValidationError::AmbiguousSign);
}

#[test]
fn both_sides_blank_is_missing() {
    let row = new_row("Acme", "", "", "0", "0");
    assert_eq!(map_to_new(&row).unwrap_err(), ValidationError::MissingField);
    let nameless = new_row("", "", "", "bad", "bad");
    assert_eq!(map_to_new(&nameless).unwrap_err(), ValidationError::MissingField);
}

#[test]
fn bad_number_is_invalid() {
    let row = new_row("Acme", "12x", "", "0", "0");
    assert_eq!(map_to_new(&row).unwrap_err(), ValidationError::InvalidNumber);
    let row = new_row("Acme", "1", "", "0.001", "0");
    assert_eq!(map_to_new(&row).unwrap_err(), ValidationError::InvalidNumber);
}

#[test]
fn negative_turnover_is_rejected() {
    let row = new_row("Acme", "1", "", "-5", "0");
    assert_eq!(map_to_new(&row).unwrap_err(), ValidationError::NegativeTurnover);
    let row = new_row("Acme", "1", "", "5", "-0.5");
    assert_eq!(map_to_new(&row).unwrap_err(), ValidationError::NegativeTurnover);
}

#[test]
fn blank_name_is_rejected() {
    let row = new_row("", "1", "", "0", "0");
    assert_eq!(map_to_new(&row).unwrap_err(), ValidationError::EmptyName);
}
