//! Number literals, decimal text and percent encoding.

use explore_tui::bignum::Natural;
use explore_tui::logql::analyzer::analyze;
use explore_tui::logql::number::{is_outside_unit, show_number};
use explore_tui::logql::parser::parse;
use explore_tui::numbers::{decimal_string, padded_string, parse_i64, parse_u64};
use explore_tui::order::{order_by_keys, sort_strings};
use explore_tui::prometheus::app::percent_encode;

#[test]
fn numbers_are_shown_as_doubles_are() {
    for text in [
        "0", "0.0", "1.5", "2", "007", "5.", ".5", "10.50", "1e3", "1.25e1", "12e-1", "100e-2",
        "0.5", "5e-3", "1E+2", "1e21", "1e22", "1e23", "123456789.125", "1.12345678901234567890",
        "1.10000000000000000001", "0.1000000000000000055511151231257827", "9007199254740993",
        "9007199254740992.5", "1125899906842624.25", "1125899906842624.75", "2251799813685248.5",
        "9223372036854775808", "18446744073709551616", "4503599627370496", "4503599627370497.5",
        "1.7e308", "1.7976931348623157e308", "1.7976931348623158e308", "1.7976931348623159e308",
        "1.8e308", "3e308", "1e309", "1e310", "1e400", "99999999999999999999999999999999999999",
        "2.2250738585072014e-308", "2.225073858507201e-308", "5e-324", "4.9e-324", "3e-324",
        "2.5e-324", "2.4e-324", "2.4703282292062327e-324", "2.4703282292062328e-324", "1e-323",
        "9.4e-323", "1.23456e-320", "1e-330", "1e-331", "1e-400", "0e99999999999999999999",
        "1e99999999999999999999", "-1.5", "-0", "+2.50",
    ] {
        let double: f64 = text.parse().unwrap();
        assert_eq!(show_number(text), double.to_string(), "{text}");
    }
    assert_eq!(show_number("x"), "0");
    assert_eq!(show_number(""), "0");
}

#[test]
fn many_numbers_are_shown_as_doubles_are() {
    let mut state: u64 = 0x9e37_79b9_7f4a_7c15;
    for round in 0..120 {
        state = state.wrapping_mul(6_364_136_223_846_793_005).wrapping_add(1_442_695_040_888_963_407);
        let double = match round % 3 {
            0 => f64::from_bits(state & 0x7fff_ffff_ffff_ffff),
            1 => (state >> 11) as f64 / 1024.0,
            _ => (state >> 30) as f64 * 1e-9,
        };
        if !double.is_finite() {
            continue;
        }
        for text in [format!("{double:e}"), format!("{double:.25e}"), format!("{double:.3e}")] {
            let read: f64 = text.parse().unwrap();
            assert_eq!(show_number(&text), read.to_string(), "{text}");
        }
    }
}

#[test]
fn numbers_outside_the_unit_as_doubles_are() {
    for text in [
        "0", "1", "0.99", "1.0", "1.5", "2e0", "10e-1", "11e-1", "1.00000000000000011102230246251565",
        "1.0000000000000001111", "1.00000000000000012", "1e-400", "0e9", "99999999999999999999e-20",
    ] {
        let double: f64 = text.parse().unwrap();
        assert_eq!(is_outside_unit(text), !(0.0..=1.0).contains(&double), "{text}");
    }
}

#[test]
fn quantile_message_shows_the_number() {
    let result = parse(r#"quantile_over_time(1e3, {j="t"} | unwrap d [5m])"#);
    let diags = analyze(&result.expr.unwrap());
    assert_eq!(diags.len(), 1);
    assert_eq!(
        diags[0].message,
        "quantile parameter 1000 should be between 0 and 1"
    );
    let result = parse(r#"quantile_over_time(1.12345678901234567890, {j="t"} | unwrap d [5m])"#);
    let diags = analyze(&result.expr.unwrap());
    assert_eq!(
        diags[0].message,
        "quantile parameter 1.1234567890123457 should be between 0 and 1"
    );
}

#[test]
fn decimal_text() {
    assert_eq!(decimal_string(0), "0");
    assert_eq!(decimal_string(u64::MAX), u64::MAX.to_string());
    assert_eq!(padded_string(7, 4), "0007");
    assert_eq!(padded_string(-7, 4), format!("{:04}", -7));
    assert_eq!(padded_string(12345, 4), "12345");
    for text in ["", "0", "+7", "-7", "18446744073709551615", "18446744073709551616", "1x", "+", "--1"] {
        assert_eq!(parse_u64(text), text.parse().ok(), "{text}");
        assert_eq!(parse_i64(text), text.parse().ok(), "{text}");
    }
    assert_eq!(parse_i64("-9223372036854775808"), Some(i64::MIN));
}

#[test]
fn text_is_sorted_by_bytes() {
    let mut v: Vec<String> = ["b", "é", "a", "B", "aa"].iter().map(|s| s.to_string()).collect();
    let mut expected = v.clone();
    expected.sort();
    sort_strings(&mut v);
    assert_eq!(v, expected);
    assert_eq!(v, ["B", "a", "aa", "b", "é"]);
    assert_eq!(order_by_keys(&vec![3, 1, 3, 2]), [1, 3, 0, 2]);
}

#[test]
fn url_text_is_encoded_by_bytes() {
    assert_eq!(percent_encode("a-b_c.d~e"), "a-b_c.d~e");
    assert_eq!(percent_encode("é/%"), "%C3%A9%2F%25");
}

#[test]
fn natural_numbers() {
    let mut n = Natural::from_u64(u64::MAX);
    n.mul_add(10, 7);
    let mut m = Natural::from_u64(u64::MAX);
    m.tenfold(1);
    assert!(n.at_least(&m) && !m.at_least(&n) && n.at_least(&n.copy()));
    n.subtract(&m);
    assert!(n.at_least(&Natural::small(7)) && Natural::small(7).at_least(&n));
    let mut two = Natural::small(1);
    two.double(64);
    let max = Natural::from_u64(u64::MAX);
    assert!(two.at_least(&max) && !max.at_least(&two));
    two.subtract(&max);
    assert!(Natural::small(1).at_least(&two) && two.at_least(&Natural::small(1)));
}
