use underpane::encoding::{decode_path_segment, encode_path_segment, wide};
use underpane::text::{parse_u64, parse_usize, split_char, strip_prefix, u64_to_decimal, usize_to_decimal};

#[test]
fn parses_like_rust_unsigned_from_str() {
    assert_eq!(parse_u64("42"), Some(42));
    assert_eq!(parse_u64("+5"), Some(5));
    assert_eq!(parse_u64("007"), Some(7));
    assert_eq!(parse_u64(""), None);
    assert_eq!(parse_u64("+"), None);
    assert_eq!(parse_u64("-1"), None);
    assert_eq!(parse_u64("12a"), None);
    assert_eq!(parse_u64(" 1"), None);
    assert_eq!(parse_u64("18446744073709551615"), Some(u64::MAX));
    assert_eq!(parse_u64("18446744073709551616"), None);
    assert_eq!(parse_usize("3"), Some(3));
    for s in ["0", "+9", "123456", "99999999999999999999", "x", "+-1", ""] {
        assert_eq!(parse_u64(s), s.parse::<u64>().ok(), "input {s:?}");
        assert_eq!(parse_usize(s), s.parse::<usize>().ok(), "input {s:?}");
    }
}

#[test]
fn formats_decimal_numbers() {
    assert_eq!(u64_to_decimal(0), "0");
    assert_eq!(u64_to_decimal(1234), "1234");
    assert_eq!(u64_to_decimal(u64::MAX), u64::MAX.to_string());
    assert_eq!(usize_to_decimal(10), "10");
}

#[test]
fn decimal_roundtrip_on_values() {
    for n in [0u64, 1, 9, 10, 99, 100, 65535, u64::MAX] {
        assert_eq!(parse_u64(&u64_to_decimal(n)), Some(n));
    }
}

#[test]
fn splits_like_str_split() {
    assert_eq!(split_char("a..b", '.'), vec!["a", "", "b"]);
    assert_eq!(split_char("", '.'), vec![""]);
    assert_eq!(split_char(".x.", '.'), vec!["", "x", ""]);
    assert_eq!(split_char("abc", '.'), vec!["abc"]);
}

#[test]
fn strips_prefixes() {
    assert_eq!(strip_prefix("monitor-3", "monitor-"), Some("3"));
    assert_eq!(strip_prefix("monitor", "monitor-"), None);
    assert_eq!(strip_prefix("ünï", "ü"), Some("nï"));
}

#[test]
fn encodes_path_segments() {
    assert_eq!(encode_path_segment("cat photo.png"), "cat%20photo.png");
    assert_eq!(encode_path_segment("a#b%c/d?e"), "a%23b%25c%2Fd%3Fe");
    assert_eq!(encode_path_segment("ü"), "%C3%BC");
    assert_eq!(encode_path_segment("<`{}>\"\x7f\t"), "%3C%60%7B%7D%3E%22%7F%09");
    assert_eq!(encode_path_segment("plain-name_1.txt"), "plain-name_1.txt");
}

#[test]
fn decodes_path_segments() {
    assert_eq!(decode_path_segment("a%20b%2f").as_deref(), Some("a b/"));
    assert_eq!(decode_path_segment("%zz%2").as_deref(), Some("%zz%2"));
    assert_eq!(decode_path_segment("%C3%BC").as_deref(), Some("ü"));
    assert_eq!(decode_path_segment("%C3"), None);
}

#[test]
fn path_segment_roundtrip_on_values() {
    for s in ["", "a b", "100%", "ünïcödé/..", "#?{}"] {
        assert_eq!(decode_path_segment(&encode_path_segment(s)).as_deref(), Some(s));
    }
}

#[test]
fn encodes_wide_strings() {
    assert_eq!(wide("A"), vec![0x41, 0]);
    assert_eq!(wide(""), vec![0]);
    assert_eq!(wide("A😀é"), vec![0x41, 0xD83D, 0xDE00, 0xE9, 0]);
    let s = "Progman";
    let mut expected: Vec<u16> = s.encode_utf16().collect();
    expected.push(0);
    assert_eq!(wide(s), expected);
}
