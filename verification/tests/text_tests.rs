use seekman::text::{
    chars_eq, chars_le_exec, chars_of, concat_str, contains_chars, ends_with_chars, find_chars, i64_to_string,
    lower_ascii, parse_i64_chars, parse_u64_chars, parse_u8_chars, parse_unsigned_max, sort_strings,
    starts_with_chars, str_eq, string_from_chars, trim_str, u64_to_string,
};

fn c(s: &str) -> Vec<char> {
    s.chars().collect()
}

#[test]
fn parsing_like_std() {
    for s in ["0", "42", "+7", "18446744073709551615", "18446744073709551616", "", "+", "-1", " 1", "1a"] {
        assert_eq!(parse_u64_chars(&c(s)), s.parse::<u64>().ok(), "{s}");
        assert_eq!(parse_u8_chars(&c(s)), s.parse::<u8>().ok(), "{s}");
    }
    for s in ["0", "-0", "-9223372036854775808", "9223372036854775807", "9223372036854775808", "-", "+3", "--1"] {
        assert_eq!(parse_i64_chars(&c(s)), s.parse::<i64>().ok(), "{s}");
    }
    assert_eq!(parse_unsigned_max(&c("300"), 255), None);
    assert_eq!(parse_unsigned_max(&c("255"), 255), Some(255));
}

#[test]
fn number_text() {
    assert_eq!(u64_to_string(0), "0");
    assert_eq!(u64_to_string(u64::MAX), u64::MAX.to_string());
    assert_eq!(i64_to_string(i64::MIN), i64::MIN.to_string());
    assert_eq!(i64_to_string(-15), "-15");
}

#[test]
fn searching_chars() {
    let hay = c("abcabc");
    assert_eq!(find_chars(&hay, &c("ca"), 0), Some(2));
    assert_eq!(find_chars(&hay, &c("bc"), 2), Some(4));
    assert_eq!(find_chars(&hay, &c("x"), 0), None);
    assert!(contains_chars(&hay, &c("cab")));
    assert!(starts_with_chars(&hay, &c("ab")));
    assert!(ends_with_chars(&hay, &c("bc")));
    assert!(!ends_with_chars(&c("c"), &c("bc")));
}

#[test]
fn strings_and_chars() {
    assert_eq!(string_from_chars(&chars_of("héllo")), "héllo");
    assert_eq!(string_from_chars(&lower_ascii(&c("ABC-Ä"))), "abc-Ä");
    assert_eq!(string_from_chars(&trim_str("  a b \n")), "a b");
    assert!(str_eq("x", "x") && !str_eq("x", "y"));
    assert!(chars_eq(&c("ab"), &c("ab")));
    assert_eq!(concat_str("ab", "cd"), "abcd");
}

#[test]
fn ordering_like_std() {
    let words = ["", "a", "ab", "b", "B", "é", "aa"];
    for x in words {
        for y in words {
            assert_eq!(chars_le_exec(&c(x), &c(y)), x <= y, "{x} {y}");
        }
    }
    let sorted = sort_strings(words.iter().map(|w| w.to_string()).collect());
    let mut expected: Vec<String> = words.iter().map(|w| w.to_string()).collect();
    expected.sort();
    assert_eq!(sorted, expected);
}
