use oilrs::digits::{first_difference, i64_parse, is_num, num_decr_core, num_gtz, num_incr_core, unum_cmp};
use std::cmp::Ordering;

fn chars(s: &str) -> Vec<char> {
    s.chars().collect()
}

fn text(v: &[char]) -> String {
    v.iter().collect()
}

#[test]
fn is_num_accepts_zero_and_signed_numbers() {
    assert!(is_num("0"));
    assert!(is_num("7"));
    assert!(is_num("17"));
    assert!(is_num("-17"));
    assert!(is_num("-9223372036854775809"));
    assert!(is_num("100000000000000000000000000000"));
}

#[test]
fn is_num_rejects_everything_else() {
    assert!(!is_num(""));
    assert!(!is_num("-"));
    assert!(!is_num("-0"));
    assert!(!is_num("00"));
    assert!(!is_num("017"));
    assert!(!is_num("-017"));
    assert!(!is_num("1a"));
    assert!(!is_num("+1"));
    assert!(!is_num("1-"));
    assert!(!is_num("--1"));
    assert!(!is_num(" 1"));
    assert!(!is_num("1.5"));
    assert!(!is_num("\u{0661}"));
    assert!(!is_num("é"));
}

#[test]
fn num_gtz_accepts_positive_numbers_only() {
    assert!(num_gtz("1"));
    assert!(num_gtz("10"));
    assert!(num_gtz("9223372036854775808"));
    assert!(!num_gtz("0"));
    assert!(!num_gtz("01"));
    assert!(!num_gtz("-1"));
    assert!(!num_gtz(""));
    assert!(!num_gtz("12x"));
}

#[test]
fn i64_parse_reads_the_whole_range() {
    assert_eq!(i64_parse("0"), Some(0));
    assert_eq!(i64_parse("1"), Some(1));
    assert_eq!(i64_parse("-1"), Some(-1));
    assert_eq!(i64_parse("1234567890"), Some(1234567890));
    assert_eq!(i64_parse("9223372036854775807"), Some(i64::MAX));
    assert_eq!(i64_parse("-9223372036854775808"), Some(i64::MIN));
}

#[test]
fn i64_parse_gives_none_out_of_range() {
    assert_eq!(i64_parse("9223372036854775808"), None);
    assert_eq!(i64_parse("-9223372036854775809"), None);
    assert_eq!(i64_parse("18446744073709551615"), None);
    assert_eq!(i64_parse("18446744073709551616"), None);
    assert_eq!(i64_parse("99999999999999999999999"), None);
    assert_eq!(i64_parse("-99999999999999999999999"), None);
}

#[test]
fn i64_parse_gives_none_for_other_text() {
    assert_eq!(i64_parse(""), None);
    assert_eq!(i64_parse("-"), None);
    assert_eq!(i64_parse("-0"), None);
    assert_eq!(i64_parse("00"), None);
    assert_eq!(i64_parse("01"), None);
    assert_eq!(i64_parse("abc"), None);
    assert_eq!(i64_parse("12a"), None);
    assert_eq!(i64_parse("1-2"), None);
}

#[test]
fn num_incr_core_carries() {
    let mut v = chars("0");
    num_incr_core(&mut v, 0);
    assert_eq!(text(&v), "1");
    let mut v = chars("129");
    num_incr_core(&mut v, 0);
    assert_eq!(text(&v), "130");
    let mut v = chars("999");
    num_incr_core(&mut v, 0);
    assert_eq!(text(&v), "1000");
    let mut v = chars("9223372036854775807");
    num_incr_core(&mut v, 0);
    assert_eq!(text(&v), "9223372036854775808");
}

#[test]
fn num_incr_core_keeps_what_stands_before_start() {
    let mut v = chars("-99");
    num_incr_core(&mut v, 1);
    assert_eq!(text(&v), "-100");
    let mut v = chars("-9223372036854775808");
    num_incr_core(&mut v, 1);
    assert_eq!(text(&v), "-9223372036854775809");
}

#[test]
fn num_decr_core_borrows_and_drops_a_leading_zero() {
    let mut v = chars("1");
    num_decr_core(&mut v, 0);
    assert_eq!(text(&v), "0");
    let mut v = chars("130");
    num_decr_core(&mut v, 0);
    assert_eq!(text(&v), "129");
    let mut v = chars("1000");
    num_decr_core(&mut v, 0);
    assert_eq!(text(&v), "999");
    let mut v = chars("-10");
    num_decr_core(&mut v, 1);
    assert_eq!(text(&v), "-9");
    let mut v = chars("9223372036854775808");
    num_decr_core(&mut v, 0);
    assert_eq!(text(&v), "9223372036854775807");
}

#[test]
fn unum_cmp_orders_by_length_then_digits() {
    assert_eq!(unum_cmp(&chars("10"), &chars("9")), Ordering::Greater);
    assert_eq!(unum_cmp(&chars("9"), &chars("10")), Ordering::Less);
    assert_eq!(unum_cmp(&chars("123"), &chars("123")), Ordering::Equal);
    assert_eq!(unum_cmp(&chars("123"), &chars("124")), Ordering::Less);
    assert_eq!(unum_cmp(&chars("200"), &chars("199")), Ordering::Greater);
    assert_eq!(unum_cmp(&chars(""), &chars("")), Ordering::Equal);
    assert_eq!(
        unum_cmp(&chars("9223372036854775808"), &chars("9223372036854775807")),
        Ordering::Greater
    );
}

#[test]
fn first_difference_finds_the_first_unequal_digit() {
    assert_eq!(first_difference(&chars("12345"), &chars("12345")), 5);
    assert_eq!(first_difference(&chars("12345"), &chars("12945")), 2);
    assert_eq!(first_difference(&chars("02"), &chars("12")), 0);
    assert_eq!(first_difference(&chars(""), &chars("")), 0);
}
