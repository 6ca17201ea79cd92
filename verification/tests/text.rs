use dirtree::text::{parse_bool, parse_u32, same, starts_with};

#[test]
fn starts_with_compares_the_leading_characters() {
    assert!(starts_with("levels=3", "levels="));
    assert!(starts_with("l=3", "l="));
    assert!(!starts_with("levels=3", "l="));
    assert!(starts_with("abc", ""));
    assert!(starts_with("", ""));
    assert!(starts_with("abc", "abc"));
    assert!(!starts_with("ab", "abc"));
    assert!(!starts_with("", "a"));
    assert!(!starts_with("xbc", "abc"));
}

#[test]
fn starts_with_counts_characters_not_bytes() {
    assert!(starts_with("été=1", "été="));
    assert!(!starts_with("ete=1", "été="));
    assert!(!starts_with("é", "e"));
}

#[test]
fn same_holds_of_equal_texts_only() {
    assert!(same("", ""));
    assert!(same("name", "name"));
    assert!(!same("name", "names"));
    assert!(!same("names", "name"));
    assert!(!same("name", "nome"));
    assert!(!same("", "a"));
    assert!(same("żółw", "żółw"));
}

#[test]
fn parse_u32_reads_decimal_numbers() {
    assert_eq!(parse_u32("0"), Some(0));
    assert_eq!(parse_u32("7"), Some(7));
    assert_eq!(parse_u32("12"), Some(12));
    assert_eq!(parse_u32("007"), Some(7));
    assert_eq!(parse_u32("+5"), Some(5));
    assert_eq!(parse_u32("4294967295"), Some(u32::MAX));
    assert_eq!(parse_u32("0000000004294967295"), Some(u32::MAX));
}

#[test]
fn parse_u32_refuses_what_is_no_number() {
    assert_eq!(parse_u32(""), None);
    assert_eq!(parse_u32("+"), None);
    assert_eq!(parse_u32("-"), None);
    assert_eq!(parse_u32("-1"), None);
    assert_eq!(parse_u32("++1"), None);
    assert_eq!(parse_u32("1+"), None);
    assert_eq!(parse_u32(" 1"), None);
    assert_eq!(parse_u32("1 "), None);
    assert_eq!(parse_u32("1_000"), None);
    assert_eq!(parse_u32("12a"), None);
    assert_eq!(parse_u32("a12"), None);
    assert_eq!(parse_u32("١٢"), None);
}

#[test]
fn parse_u32_refuses_what_does_not_fit() {
    assert_eq!(parse_u32("4294967296"), None);
    assert_eq!(parse_u32("4294967300"), None);
    assert_eq!(parse_u32("42949672950"), None);
    assert_eq!(parse_u32("99999999999999999999999999"), None);
    assert_eq!(parse_u32("4294967296x"), None);
}

#[test]
fn parse_u32_agrees_with_the_standard_library() {
    for text in [
        "", "0", "1", "+1", "-1", "+", "-", "++1", "+-1", "00", "010", "4294967295",
        "4294967296", "429496729", "1e3", "0x10", " 7", "7 ", "٣", "12345678901234567890",
    ] {
        assert_eq!(parse_u32(text), text.parse::<u32>().ok(), "on {:?}", text);
    }
}

#[test]
fn parse_bool_reads_the_two_words() {
    assert_eq!(parse_bool("true"), Some(true));
    assert_eq!(parse_bool("false"), Some(false));
    assert_eq!(parse_bool(""), None);
    assert_eq!(parse_bool("True"), None);
    assert_eq!(parse_bool("yes"), None);
    assert_eq!(parse_bool("1"), None);
    assert_eq!(parse_bool("true "), None);
    assert_eq!(parse_bool("falsey"), None);
}
