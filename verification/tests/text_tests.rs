use teleprint::text::{
    first_token_chars, i64_to_string, parse_i64_chars, str_eq_chars, string_to_chars, trim_chars,
};

fn chars(s: &str) -> Vec<char> {
    string_to_chars(s)
}

#[test]
fn numbers_print_in_decimal() {
    assert_eq!(i64_to_string(0), "0");
    assert_eq!(i64_to_string(42), "42");
    assert_eq!(i64_to_string(-5), "-5");
    assert_eq!(i64_to_string(i64::MAX), "9223372036854775807");
    assert_eq!(i64_to_string(i64::MIN), "-9223372036854775808");
}

#[test]
fn numbers_parse_back() {
    assert_eq!(parse_i64_chars(&chars("123")), Some(123));
    assert_eq!(parse_i64_chars(&chars("+7")), Some(7));
    assert_eq!(parse_i64_chars(&chars("-9223372036854775808")), Some(i64::MIN));
    assert_eq!(parse_i64_chars(&chars("9223372036854775807")), Some(i64::MAX));
    assert_eq!(parse_i64_chars(&chars("007")), Some(7));
}

#[test]
fn bad_numbers_do_not_parse() {
    assert_eq!(parse_i64_chars(&chars("")), None);
    assert_eq!(parse_i64_chars(&chars("-")), None);
    assert_eq!(parse_i64_chars(&chars("+")), None);
    assert_eq!(parse_i64_chars(&chars("12a")), None);
    assert_eq!(parse_i64_chars(&chars("9223372036854775808")), None);
    assert_eq!(parse_i64_chars(&chars("-9223372036854775809")), None);
    assert_eq!(parse_i64_chars(&chars("1 2")), None);
}

#[test]
fn first_word_is_taken() {
    assert_eq!(first_token_chars(&chars("  report.pdf  extra")), chars("report.pdf"));
    assert_eq!(first_token_chars(&chars("one")), chars("one"));
    assert_eq!(first_token_chars(&chars("   ")), chars(""));
    assert_eq!(first_token_chars(&chars("")), chars(""));
}

#[test]
fn trimming_strips_both_ends() {
    assert_eq!(trim_chars(&chars("  tok123 \t\r\n")), chars("tok123"));
    assert_eq!(trim_chars(&chars("inner space kept")), chars("inner space kept"));
    assert_eq!(trim_chars(&chars(" \n ")), chars(""));
}

#[test]
fn unicode_whitespace_is_trimmed_and_split() {
    assert_eq!(trim_chars(&chars("\u{00a0}tok123\u{2003}")), chars("tok123"));
    assert_eq!(first_token_chars(&chars("\u{3000}report.pdf\u{2028}rest")), chars("report.pdf"));
}

#[test]
fn text_equality_compares_characters() {
    assert!(str_eq_chars("abc", "abc"));
    assert!(!str_eq_chars("abc", "abd"));
    assert!(!str_eq_chars("abc", "ab"));
    assert!(str_eq_chars("", ""));
}
