use robin_core::bound::parse_bound;
use robin_core::chapter::parse_chapter_filter;
use robin_core::decimal::{parse_count, parse_hundredths};
use robin_core::error::RobinError;
use robin_core::ordinal::chapter_ordinal;

#[test]
fn ordinal_of_decimal_title() {
    assert_eq!(chapter_ordinal("Chapter 12.5: Arrival").ok(), Some(1250));
}

#[test]
fn ordinal_of_whole_title() {
    assert_eq!(chapter_ordinal("Ch 7").ok(), Some(700));
}

#[test]
fn ordinal_is_deterministic() {
    let a = chapter_ordinal("Chapter 12.5: Arrival").ok();
    let b = chapter_ordinal("Chapter 12.5: Arrival").ok();
    assert_eq!(a, b);
}

#[test]
fn ordinal_keeps_title_order() {
    let a = chapter_ordinal("Chapter 9").ok().unwrap();
    let b = chapter_ordinal("Chapter 10").ok().unwrap();
    let c = chapter_ordinal("Chapter 10.5").ok().unwrap();
    assert!(a < b && b < c);
}

#[test]
fn ordinal_without_number_fails() {
    assert!(matches!(chapter_ordinal("Prologue"), Err(RobinError::Parse(_))));
    assert!(matches!(chapter_ordinal(""), Err(RobinError::Parse(_))));
}

#[test]
fn ordinal_takes_first_number() {
    assert_eq!(chapter_ordinal("Volume 2 Chapter 14").ok(), Some(200));
}

#[test]
fn ordinal_with_comma_separator() {
    assert_eq!(chapter_ordinal("Bölüm 12,5").ok(), Some(1250));
}

#[test]
fn ordinal_rounds_half_away_from_zero() {
    assert_eq!(chapter_ordinal("Chapter 1.005").ok(), Some(101));
    assert_eq!(chapter_ordinal("Chapter 1.004").ok(), Some(100));
    assert_eq!(chapter_ordinal("Episode -3.456").ok(), Some(-346));
}

#[test]
fn hundredths_of_decimals() {
    assert_eq!(parse_hundredths("12.5"), Some(1250));
    assert_eq!(parse_hundredths(".5"), Some(50));
    assert_eq!(parse_hundredths("3."), Some(300));
    assert_eq!(parse_hundredths("+4"), Some(400));
    assert_eq!(parse_hundredths("-0.25"), Some(-25));
    assert_eq!(parse_hundredths("007"), Some(700));
}

#[test]
fn hundredths_rejects_non_numbers() {
    assert_eq!(parse_hundredths(""), None);
    assert_eq!(parse_hundredths("."), None);
    assert_eq!(parse_hundredths("-"), None);
    assert_eq!(parse_hundredths("abc"), None);
    assert_eq!(parse_hundredths("1.2.3"), None);
    assert_eq!(parse_hundredths(" 3"), None);
    assert_eq!(parse_hundredths("1e5"), None);
}

#[test]
fn hundredths_rejects_too_large() {
    assert_eq!(parse_hundredths("92233720368547758.07"), Some(9223372036854775807));
    assert_eq!(parse_hundredths("92233720368547758.08"), None);
    assert_eq!(parse_hundredths("99999999999999999999"), None);
}

#[test]
fn counts_of_digits() {
    assert_eq!(parse_count("12"), Some(12));
    assert_eq!(parse_count("18446744073709551615"), Some(u64::MAX));
    assert_eq!(parse_count("18446744073709551616"), None);
    assert_eq!(parse_count(""), None);
    assert_eq!(parse_count("1a"), None);
    assert_eq!(parse_count("-1"), None);
}

#[test]
fn range_of_two_numbers() {
    assert_eq!(parse_chapter_filter("3:7").ok(), Some(Some((300, 700))));
    assert_eq!(parse_chapter_filter("20.5:100.3").ok(), Some(Some((2050, 10030))));
    assert_eq!(parse_chapter_filter("10:100").ok(), Some(Some((1000, 10000))));
}

#[test]
fn range_with_equal_bounds() {
    assert_eq!(parse_chapter_filter("4:4").ok(), Some(Some((400, 400))));
}

#[test]
fn range_empty_is_none() {
    assert_eq!(parse_chapter_filter("").ok(), Some(None));
}

#[test]
fn range_reversed_is_kept() {
    assert_eq!(parse_chapter_filter("7:3").ok(), Some(Some((700, 300))));
}

#[test]
fn range_malformed_fails() {
    assert!(matches!(parse_chapter_filter("3"), Err(RobinError::Parse(_))));
    assert!(matches!(parse_chapter_filter("1:2:3"), Err(RobinError::Parse(_))));
    assert!(matches!(parse_chapter_filter("a:b"), Err(RobinError::Parse(_))));
    assert!(matches!(parse_chapter_filter(":5"), Err(RobinError::Parse(_))));
    assert!(matches!(parse_chapter_filter("5:"), Err(RobinError::Parse(_))));
    assert!(matches!(parse_chapter_filter("3 : 7"), Err(RobinError::Parse(_))));
    assert!(matches!(parse_chapter_filter("1,5:3"), Err(RobinError::Parse(_))));
    assert!(matches!(parse_chapter_filter("abc:5"), Err(RobinError::Parse(_))));
}

#[test]
fn range_with_exponents() {
    assert_eq!(parse_chapter_filter("1e1:20").ok(), Some(Some((1000, 2000))));
    assert_eq!(parse_chapter_filter("2.5E-1:1e2").ok(), Some(Some((25, 10000))));
}

#[test]
fn bounds_as_floats() {
    assert_eq!(parse_bound("12.5"), Some(1250));
    assert_eq!(parse_bound("1e1"), Some(1000));
    assert_eq!(parse_bound("1.5e+1"), Some(1500));
    assert_eq!(parse_bound("-2E0"), Some(-200));
    assert_eq!(parse_bound("5e-3"), Some(1));
    assert_eq!(parse_bound("4e-3"), Some(0));
    assert_eq!(parse_bound(".5e-2"), Some(1));
    assert_eq!(parse_bound("1.e2"), Some(10000));
    assert_eq!(parse_bound("0e99999999999999999999999999999999999999"), Some(0));
    assert_eq!(parse_bound("1e-99999999999999999999999999999999999999"), Some(0));
    assert_eq!(parse_bound("1e99999999999999999999999999999999999999"), None);
    assert_eq!(parse_bound("1e17"), None);
    assert_eq!(parse_bound("1.00000000000000000000000000000000000000000"), Some(100));
}

#[test]
fn bounds_reject_non_floats() {
    assert_eq!(parse_bound("1,5"), None);
    assert_eq!(parse_bound("1e"), None);
    assert_eq!(parse_bound("e5"), None);
    assert_eq!(parse_bound(".e1"), None);
    assert_eq!(parse_bound("1e+"), None);
    assert_eq!(parse_bound("1e5.0"), None);
    assert_eq!(parse_bound(""), None);
    assert_eq!(parse_bound("--1"), None);
}
