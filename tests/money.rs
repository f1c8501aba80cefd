use nlbt::{format_dollars, parse_dollar_string, to_title_case, Error};

#[test]
fn parses_dollar_literals() {
    assert_eq!(parse_dollar_string("$12.50").unwrap(), 1250);
    assert_eq!(parse_dollar_string("12").unwrap(), 1200);
    assert!(matches!(parse_dollar_string(""), Err(Error::InvalidDollarValue(_))));
    assert!(matches!(parse_dollar_string("$"), Err(Error::InvalidDollarValue(_))));
}

#[test]
fn parses_fractions_by_truncation() {
    assert_eq!(parse_dollar_string("0.29").unwrap(), 29);
    assert_eq!(parse_dollar_string("1.999").unwrap(), 199);
    assert_eq!(parse_dollar_string("-1.5").unwrap(), -150);
    assert_eq!(parse_dollar_string(".5").unwrap(), 50);
    assert_eq!(parse_dollar_string("5.").unwrap(), 500);
    assert_eq!(parse_dollar_string("+3").unwrap(), 300);
    assert_eq!(parse_dollar_string("$-0.07").unwrap(), -7);
}

#[test]
fn refuses_malformed_amounts() {
    for bad in ["abc", "1e5", "1,000", "$$5", "1.2.3", ".", "-", "5$", " 5"] {
        match parse_dollar_string(bad) {
            Err(Error::InvalidDollarValue(t)) => assert_eq!(t, bad),
            other => panic!("{bad:?} gave {other:?}"),
        }
    }
}

#[test]
fn refuses_amounts_out_of_range() {
    assert_eq!(parse_dollar_string("21474836.47").unwrap(), i32::MAX);
    assert_eq!(parse_dollar_string("-21474836.48").unwrap(), i32::MIN);
    assert!(parse_dollar_string("21474836.48").is_err());
    assert!(parse_dollar_string("99999999999").is_err());
}

#[test]
fn formats_dollars() {
    assert_eq!(format_dollars(0), "$0.00");
    assert_eq!(format_dollars(5), "$0.05");
    assert_eq!(format_dollars(42), "$0.42");
    assert_eq!(format_dollars(100), "$1.00");
    assert_eq!(format_dollars(1250), "$12.50");
    assert_eq!(format_dollars(150000), "$1500.00");
    assert_eq!(format_dollars(i32::MAX), "$21474836.47");
}

#[test]
fn formats_negative_dollars_without_sign_handling() {
    assert_eq!(format_dollars(-5), "$0.-5");
    assert_eq!(format_dollars(-42), "$-.42");
    assert_eq!(format_dollars(-150), "$-1.50");
    assert_eq!(format_dollars(i32::MIN), "$-21474836.48");
}

#[test]
fn formatted_dollars_parse_back() {
    for c in [0, 1, 9, 10, 99, 100, 101, 1250, 99999, 150000, 2147483647] {
        assert_eq!(parse_dollar_string(&format_dollars(c)).unwrap(), c);
    }
}

#[test]
fn title_cases_names() {
    assert_eq!(to_title_case("rent".to_string()), "Rent");
    assert_eq!(to_title_case("*rent".to_string()), "*Rent");
    assert_eq!(to_title_case("".to_string()), "");
    assert_eq!(to_title_case("*".to_string()), "*");
    assert_eq!(to_title_case("1abc".to_string()), "1abc");
    assert_eq!(to_title_case("éclair".to_string()), "éclair");
    assert_eq!(to_title_case("rent money".to_string()), "Rent money");
}
