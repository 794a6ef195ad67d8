use std::time::Duration;

use nautilus_fuzzer::options::timeout_from_millis_str;
use nautilus_fuzzer::text::{chars_of, parse_decimal, push_decimal, trim_chars, NumberError};

fn chars(s: &str) -> Vec<char> {
    s.chars().collect()
}

#[test]
fn timeout_reads_milliseconds() {
    assert_eq!(timeout_from_millis_str("1000"), Ok(Duration::from_millis(1000)));
    assert_eq!(timeout_from_millis_str("0"), Ok(Duration::from_millis(0)));
    assert_eq!(timeout_from_millis_str("+250"), Ok(Duration::from_millis(250)));
    assert_eq!(
        timeout_from_millis_str("18446744073709551615"),
        Ok(Duration::from_millis(u64::MAX))
    );
}

#[test]
fn timeout_errors_match_std_parse() {
    assert_eq!(timeout_from_millis_str(""), Err(NumberError::Empty));
    assert_eq!(timeout_from_millis_str("+"), Err(NumberError::InvalidDigit));
    assert_eq!(timeout_from_millis_str("-"), Err(NumberError::InvalidDigit));
    assert_eq!(timeout_from_millis_str("-1"), Err(NumberError::InvalidDigit));
    assert_eq!(timeout_from_millis_str(" 10"), Err(NumberError::InvalidDigit));
    assert_eq!(timeout_from_millis_str("10ms"), Err(NumberError::InvalidDigit));
    assert_eq!(timeout_from_millis_str("18446744073709551616"), Err(NumberError::PosOverflow));
    // The first problem scanning from the left decides.
    assert_eq!(timeout_from_millis_str("99999999999999999999x"), Err(NumberError::PosOverflow));
    assert_eq!(timeout_from_millis_str("9x9999999999999999999"), Err(NumberError::InvalidDigit));
}

#[test]
fn parse_decimal_agrees_with_std() {
    for s in ["", "+", "-", "0", "007", "+42", "-0", "255", "256", "1 ", "4294967295", "4294967296", "12a"] {
        let ours = parse_decimal(&chars(s), u32::MAX as u64);
        let std = s.parse::<u32>();
        match std {
            Ok(v) => assert_eq!(ours, Ok(v as u64), "{s:?}"),
            Err(e) => {
                let kind = match e.kind() {
                    std::num::IntErrorKind::Empty => NumberError::Empty,
                    std::num::IntErrorKind::InvalidDigit => NumberError::InvalidDigit,
                    std::num::IntErrorKind::PosOverflow => NumberError::PosOverflow,
                    other => panic!("unexpected {other:?}"),
                };
                assert_eq!(ours, Err(kind), "{s:?}");
            }
        }
    }
}

#[test]
fn trim_removes_unicode_whitespace_at_both_ends() {
    assert_eq!(trim_chars(&chars("  a b \n")), chars("a b"));
    assert_eq!(trim_chars(&chars("\u{3000}\u{85}x\u{2028}\u{a0}")), chars("x"));
    assert_eq!(trim_chars(&chars(" \t\r\n")), chars(""));
    assert_eq!(trim_chars(&chars("")), chars(""));
    for s in ["\u{200b}x", "x\u{1680}", "\u{feff}1\u{202f}"] {
        assert_eq!(trim_chars(&chars(s)), chars(s.trim()), "{s:?}");
    }
}

#[test]
fn chars_of_keeps_every_character() {
    assert_eq!(chars_of("héllo, 世界"), chars("héllo, 世界"));
    assert_eq!(chars_of(""), Vec::<char>::new());
}

#[test]
fn push_decimal_writes_display_text() {
    for n in [0u64, 7, 10, 99, 100, 1234567, u64::MAX] {
        let mut s = String::from("x=");
        push_decimal(&mut s, n);
        assert_eq!(s, format!("x={n}"));
    }
}
