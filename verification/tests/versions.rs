use std::cmp::Ordering;
use xvmlib::version::{
    agrees_with, cmp_versions, numbers_in, parse_number, split_chars, split_text, version_above,
};

fn chars(s: &str) -> Vec<char> {
    s.chars().collect()
}

#[test]
fn split_gives_the_pieces_between_separators() {
    assert_eq!(split_text("1.2.3", '.'), vec!["1", "2", "3"]);
    assert_eq!(split_text("", '.'), vec![""]);
    assert_eq!(split_text("a.", '.'), vec!["a", ""]);
    assert_eq!(split_text(".a", '.'), vec!["", "a"]);
    assert_eq!(split_text("a..b", '.'), vec!["a", "", "b"]);
    assert_eq!(split_text("abc", '.'), vec!["abc"]);
    assert_eq!(split_chars(&chars("1.20"), '.'), vec![chars("1"), chars("20")]);
}

#[test]
fn split_agrees_with_std() {
    for s in ["", ".", "..", "1.2", "a.b.", ".x.y", "no dots", "é.ü"] {
        let want: Vec<String> = s.split('.').map(|p| p.to_string()).collect();
        assert_eq!(split_text(s, '.'), want);
    }
}

#[test]
fn parse_number_reads_decimal_digits() {
    assert_eq!(parse_number(&chars("0")), Some(0));
    assert_eq!(parse_number(&chars("42")), Some(42));
    assert_eq!(parse_number(&chars("007")), Some(7));
    assert_eq!(parse_number(&chars("+5")), Some(5));
    assert_eq!(parse_number(&chars("4294967295")), Some(4294967295));
    assert_eq!(parse_number(&chars("4294967296")), None);
    assert_eq!(parse_number(&chars("99999999999999999999")), None);
    assert_eq!(parse_number(&chars("")), None);
    assert_eq!(parse_number(&chars("+")), None);
    assert_eq!(parse_number(&chars("-1")), None);
    assert_eq!(parse_number(&chars("1a")), None);
    assert_eq!(parse_number(&chars("a1")), None);
    assert_eq!(parse_number(&chars("1 ")), None);
    assert_eq!(parse_number(&chars("++1")), None);
}

#[test]
fn parse_number_agrees_with_std() {
    for s in ["", "+", "-", "0", "+0", "-0", "12", "012", "4294967295", "4294967296", "1_0", "١"] {
        assert_eq!(parse_number(&chars(s)), s.parse::<u32>().ok());
    }
}

#[test]
fn numbers_in_passes_over_what_is_no_number() {
    assert_eq!(numbers_in("1.10.0"), vec![1, 10, 0]);
    assert_eq!(numbers_in("1.x.3"), vec![1, 3]);
    assert_eq!(numbers_in("v1"), Vec::<u32>::new());
    assert_eq!(numbers_in(""), Vec::<u32>::new());
    assert_eq!(numbers_in("3..4"), vec![3, 4]);
}

#[test]
fn cmp_ranks_numerically_not_lexically() {
    assert_eq!(cmp_versions("1.10.0", "1.9.0"), Ordering::Greater);
    assert_eq!(cmp_versions("1.9.0", "1.10.0"), Ordering::Less);
    assert_eq!(cmp_versions("2", "10"), Ordering::Less);
    assert!(version_above("1.10.0", "1.9.0"));
    assert!(!version_above("1.9.0", "1.10.0"));
    assert!(!version_above("1.9.0", "1.9.0"));
}

#[test]
fn cmp_ranks_more_components_higher_on_equal_prefix() {
    assert_eq!(cmp_versions("1.2", "1.2.0"), Ordering::Less);
    assert_eq!(cmp_versions("1.2.0", "1.2"), Ordering::Greater);
    assert_eq!(cmp_versions("1.2.0", "1.2.0"), Ordering::Equal);
    assert_eq!(cmp_versions("", ""), Ordering::Equal);
    assert_eq!(cmp_versions("1.02", "1.2"), Ordering::Equal);
    assert_eq!(cmp_versions("1.x.2", "1.2"), Ordering::Equal);
}

#[test]
fn components_agree_position_by_position() {
    assert!(agrees_with("3.12", "3.12.0"));
    assert!(agrees_with("3.12", "3.12.7"));
    assert!(!agrees_with("3.12", "3.11.9"));
    assert!(agrees_with("3", "3.11.9"));
    assert!(agrees_with("3.12.0.1", "3.12"));
    assert!(!agrees_with("3.1", "3.12"));
    assert!(!agrees_with("", "3.12"));
    assert!(agrees_with("1.2", "1.2"));
}
