use apphub::text::{
    contains_chars, last_token_str, parse_i64, parse_u32, push_dec_digits, split_on, str_eq, trim,
};

#[test]
fn parse_u32_plain_digits() {
    assert_eq!(parse_u32("12345"), Some(12345));
    assert_eq!(parse_u32("0"), Some(0));
    assert_eq!(parse_u32("+5"), Some(5));
}

#[test]
fn parse_u32_bounds() {
    assert_eq!(parse_u32("4294967295"), Some(u32::MAX));
    assert_eq!(parse_u32("4294967296"), None);
    assert_eq!(parse_u32("99999999999999999999"), None);
}

#[test]
fn parse_u32_rejects_garbage() {
    assert_eq!(parse_u32(""), None);
    assert_eq!(parse_u32("abc"), None);
    assert_eq!(parse_u32("12 "), None);
    assert_eq!(parse_u32("-1"), None);
    assert_eq!(parse_u32("+"), None);
}

#[test]
fn parse_i64_signs() {
    assert_eq!(parse_i64("100"), Some(100));
    assert_eq!(parse_i64("-5"), Some(-5));
    assert_eq!(parse_i64("+7"), Some(7));
    assert_eq!(parse_i64("0"), Some(0));
}

#[test]
fn parse_i64_bounds() {
    assert_eq!(parse_i64("9223372036854775807"), Some(i64::MAX));
    assert_eq!(parse_i64("9223372036854775808"), None);
    assert_eq!(parse_i64("-9223372036854775808"), Some(i64::MIN));
    assert_eq!(parse_i64("-9223372036854775809"), None);
}

#[test]
fn parse_i64_rejects_garbage() {
    assert_eq!(parse_i64(""), None);
    assert_eq!(parse_i64("1.5"), None);
    assert_eq!(parse_i64("-"), None);
    assert_eq!(parse_i64(" 3"), None);
}

#[test]
fn trim_strips_both_ends() {
    assert_eq!(trim("  a b \t\r\n"), "a b");
    assert_eq!(trim("x"), "x");
    assert_eq!(trim("   "), "");
    assert_eq!(trim(""), "");
}

#[test]
fn last_token_is_final_column() {
    assert_eq!(last_token_str("  TCP  0.0.0.0:1424  LISTENING   12345 "), "12345");
    assert_eq!(last_token_str("single"), "single");
    assert_eq!(last_token_str("   "), "");
    assert_eq!(last_token_str(""), "");
}

#[test]
fn contains_finds_substrings() {
    let pat = vec!['e', 'l', 'l'];
    assert!(contains_chars("hello", &pat));
    assert!(!contains_chars("helo", &pat));
    assert!(contains_chars("x", &Vec::new()));
    assert!(!contains_chars("", &pat));
}

#[test]
fn split_on_keeps_empty_fields() {
    let fields = split_on("a,b,,c", ',');
    assert_eq!(fields, vec!["a", "b", "", "c"]);
    assert_eq!(split_on("", ','), vec![""]);
    assert_eq!(split_on(",", ','), vec!["", ""]);
}

#[test]
fn dec_digits_render() {
    let mut v: Vec<char> = Vec::new();
    push_dec_digits(1424, &mut v);
    assert_eq!(v, vec!['1', '4', '2', '4']);
    let mut z: Vec<char> = Vec::new();
    push_dec_digits(0, &mut z);
    assert_eq!(z, vec!['0']);
}

#[test]
fn str_eq_compares_contents() {
    assert!(str_eq("abc", "abc"));
    assert!(!str_eq("abc", "abd"));
    assert!(!str_eq("abc", "abcd"));
}
