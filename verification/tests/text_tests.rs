use hartex::text::{decimal_string, join_strings, parse_u64, parse_usize, repeat_string, replace_char_in,
    signed_decimal_string};
use hartex::bindings::sanitize_name;

#[test]
fn decimal_of_zero_and_large_numbers() {
    assert_eq!(decimal_string(0), "0");
    assert_eq!(decimal_string(7), "7");
    assert_eq!(decimal_string(1234567890), "1234567890");
    assert_eq!(decimal_string(u64::MAX), u64::MAX.to_string());
}

#[test]
fn signed_decimal_matches_display() {
    assert_eq!(signed_decimal_string(-42), "-42");
    assert_eq!(signed_decimal_string(0), "0");
    assert_eq!(signed_decimal_string(i64::MIN), i64::MIN.to_string());
    assert_eq!(signed_decimal_string(i64::MAX), i64::MAX.to_string());
}

#[test]
fn join_puts_separator_between_items() {
    let items = vec![String::from("a"), String::from("b"), String::from("c")];
    assert_eq!(join_strings(&items, ";"), "a;b;c");
    assert_eq!(join_strings(&vec![String::from("only")], ", "), "only");
    assert_eq!(join_strings(&Vec::new(), ", "), "");
}

#[test]
fn repeat_and_replace() {
    assert_eq!(repeat_string("ab", 3), "ababab");
    assert_eq!(repeat_string("ab", 0), "");
    assert_eq!(replace_char_in("a-b-c", '-', '_'), "a_b_c");
}

#[test]
fn lowercase_follows_unicode() {
    assert_eq!(sanitize_name("HeLLo"), "hello");
    assert_eq!(sanitize_name("ÄÖÜ-X"), "äöü_x");
}

#[test]
fn parse_accepts_digits_with_optional_plus() {
    assert_eq!(parse_u64("42"), Some(42));
    assert_eq!(parse_u64("+7"), Some(7));
    assert_eq!(parse_u64("007"), Some(7));
    assert_eq!(parse_u64("18446744073709551615"), Some(u64::MAX));
}

#[test]
fn parse_refuses_what_std_refuses() {
    for text in ["", "+", "-1", " 1", "1 ", "1a", "18446744073709551616", "99999999999999999999999"] {
        assert_eq!(parse_u64(text), text.parse::<u64>().ok(), "{text}");
        assert_eq!(parse_usize(text), text.parse::<usize>().ok(), "{text}");
    }
}

#[test]
fn parse_reads_back_decimal_text() {
    for n in [0u64, 1, 9, 10, 99, 100, 65535, 4294967296, u64::MAX] {
        assert_eq!(parse_u64(&decimal_string(n)), Some(n));
    }
}
