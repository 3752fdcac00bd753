use mini_apt::text::{
    find_line_feed, parse_u64, starts_with, str_chars, str_eq, string_of, u64_to_string,
};

#[test]
fn chars_of_a_text() {
    assert_eq!(str_chars(""), Vec::<char>::new());
    assert_eq!(str_chars("a☃b"), vec!['a', '☃', 'b']);
    assert_eq!(str_chars("é\n").len(), 2);
}

#[test]
fn string_of_a_range() {
    let chars = str_chars("héllo wörld");
    assert_eq!(string_of(&chars, 0, 5), "héllo");
    assert_eq!(string_of(&chars, 6, 11), "wörld");
    assert_eq!(string_of(&chars, 3, 3), "");
    assert_eq!(string_of(&chars, 0, chars.len()), "héllo wörld");
}

#[test]
fn equal_strings() {
    assert!(str_eq("", ""));
    assert!(str_eq("arm64", "arm64"));
    assert!(!str_eq("arm64", "amd64"));
    assert!(!str_eq("arm64", "arm6"));
    assert!(!str_eq("arm6", "arm64"));
    assert!(!str_eq("é", "e"));
    assert!(str_eq("☃", "☃"));
}

#[test]
fn prefixes() {
    assert!(starts_with("android-ndk-r26b", "android-ndk"));
    assert!(starts_with("android-ndk", "android-ndk"));
    assert!(!starts_with("android-nd", "android-ndk"));
    assert!(!starts_with("an-android-ndk", "android-ndk"));
    assert!(starts_with("anything", ""));
    assert!(starts_with("", ""));
    assert!(!starts_with("", "a"));
}

#[test]
fn line_feeds_are_found() {
    let chars = str_chars("ab\ncd\n\nef");
    assert_eq!(find_line_feed(&chars, 0), 2);
    assert_eq!(find_line_feed(&chars, 2), 2);
    assert_eq!(find_line_feed(&chars, 3), 5);
    assert_eq!(find_line_feed(&chars, 6), 6);
    assert_eq!(find_line_feed(&chars, 7), 9);
    assert_eq!(find_line_feed(&chars, 9), 9);
}

#[test]
fn decimal_numbers_are_read() {
    assert_eq!(parse_u64("0"), Some(0));
    assert_eq!(parse_u64("10"), Some(10));
    assert_eq!(parse_u64("0010"), Some(10));
    assert_eq!(parse_u64("+10"), Some(10));
    assert_eq!(parse_u64("18446744073709551615"), Some(u64::MAX));
    assert_eq!(parse_u64("+18446744073709551615"), Some(u64::MAX));
    assert_eq!(parse_u64("18446744073709551616"), None);
    assert_eq!(parse_u64("18446744073709551620"), None);
    assert_eq!(parse_u64("184467440737095516150"), None);
    assert_eq!(parse_u64(""), None);
    assert_eq!(parse_u64("+"), None);
    assert_eq!(parse_u64("-"), None);
    assert_eq!(parse_u64("-0"), None);
    assert_eq!(parse_u64("+-1"), None);
    assert_eq!(parse_u64("1+"), None);
    assert_eq!(parse_u64("12a"), None);
    assert_eq!(parse_u64("a12"), None);
    assert_eq!(parse_u64(" 12"), None);
    assert_eq!(parse_u64("12 "), None);
    assert_eq!(parse_u64("0x10"), None);
    assert_eq!(parse_u64("٣"), None);
}

#[test]
fn decimal_reading_agrees_with_the_standard_library() {
    for text in ["", "+", "-", "0", "+0", "-0", "00", "1", "+1", "-1", "++1", "42", "1e3", "１", "18446744073709551615", "18446744073709551616", "000000000000000000000000001", "9999999999999999999", "99999999999999999999", " 1", "1\n"] {
        assert_eq!(parse_u64(text), text.parse::<u64>().ok(), "reading {:?}", text);
    }
}

#[test]
fn numbers_are_written_in_decimal() {
    assert_eq!(u64_to_string(0), "0");
    assert_eq!(u64_to_string(7), "7");
    assert_eq!(u64_to_string(10), "10");
    assert_eq!(u64_to_string(404), "404");
    assert_eq!(u64_to_string(1000000), "1000000");
    assert_eq!(u64_to_string(u64::MAX), "18446744073709551615");
}

#[test]
fn written_numbers_are_read_back() {
    for n in [0u64, 1, 9, 10, 11, 99, 100, 12345, u64::MAX - 1, u64::MAX] {
        assert_eq!(parse_u64(&u64_to_string(n)), Some(n));
    }
}
