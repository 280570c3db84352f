use lime_bit::text::{
    decimal_string, is_blank_text, parse_decimal, split_once_text, split_text,
    str_eq_ignore_ascii_case, str_starts_with, trim, trim_then_strip_end,
};

#[test]
fn trimming_uses_unicode_white_space() {
    assert_eq!(trim(" \t\n a b \u{2003}"), "a b");
    assert_eq!(trim(""), "");
    assert_eq!(trim("   "), "");
    assert_eq!(trim_then_strip_end(" x.. ", '.'), "x");
}

#[test]
fn blank_text() {
    assert!(is_blank_text(" \u{85} "));
    assert!(!is_blank_text(" a "));
}

#[test]
fn ascii_case_folding_only() {
    assert!(str_eq_ignore_ascii_case("TorRENT", "torrent"));
    assert!(!str_eq_ignore_ascii_case("torrents", "torrent"));
    assert!(!str_eq_ignore_ascii_case("É", "é"));
    assert!(str_starts_with("magnet:?x", "magnet:"));
    assert!(!str_starts_with("mag", "magnet:"));
}

#[test]
fn splitting_keeps_empty_pieces() {
    assert_eq!(split_text("a,,b,", ','), vec!["a", "", "b", ""]);
    assert_eq!(split_text("", ','), vec![""]);
    assert_eq!(split_once_text("k: v:w", ':'), Some(("k".to_string(), " v:w".to_string())));
    assert_eq!(split_once_text("kv", ':'), None);
}

#[test]
fn decimal_parsing_follows_str_parse() {
    assert_eq!(parse_decimal("42", u64::MAX), Some(42));
    assert_eq!(parse_decimal("+7", u64::MAX), Some(7));
    assert_eq!(parse_decimal("007", u64::MAX), Some(7));
    assert_eq!(parse_decimal("", u64::MAX), None);
    assert_eq!(parse_decimal("+", u64::MAX), None);
    assert_eq!(parse_decimal("-1", u64::MAX), None);
    assert_eq!(parse_decimal("1 2", u64::MAX), None);
    assert_eq!(parse_decimal("18446744073709551615", u64::MAX), Some(u64::MAX));
    assert_eq!(parse_decimal("18446744073709551616", u64::MAX), None);
    assert_eq!(parse_decimal("256", 255), None);
    assert_eq!(parse_decimal("255", 255), Some(255));
    for n in [0u64, 9, 10, 12345, u64::MAX] {
        assert_eq!(n.to_string().parse::<u64>().ok(), parse_decimal(&n.to_string(), u64::MAX));
    }
}

#[test]
fn decimal_printing_matches_to_string() {
    for n in [0u64, 7, 10, 99, 100, 4096, u64::MAX] {
        assert_eq!(decimal_string(n), n.to_string());
    }
}
