use aprsmsg::encoding::{bytes_of, strict_text_of, text_of};
use aprsmsg::numeral::{decimal, parse_signed, parse_up_to};
use aprsmsg::split::{before, find_text, split, split_once, split_space};
use aprsmsg::text::{
    chars_of, is_alnum, is_control, is_digit, is_graphic, is_space, lower, string_of,
    strip_leading, strip_trailing, text_lt, trim, trim_end, upper,
};

#[test]
fn character_classes_agree_with_the_standard_library() {
    for c in '\0'..=char::MAX {
        assert_eq!(is_control(c), c.is_control(), "{c:?}");
        assert_eq!(is_space(c), c.is_whitespace(), "{c:?}");
        assert_eq!(is_digit(c), c.is_ascii_digit(), "{c:?}");
        assert_eq!(is_alnum(c), c.is_ascii_alphanumeric(), "{c:?}");
        assert_eq!(is_graphic(c), c.is_ascii_graphic(), "{c:?}");
        assert_eq!(upper(c), c.to_ascii_uppercase(), "{c:?}");
        assert_eq!(lower(c), c.to_ascii_lowercase(), "{c:?}");
    }
}

#[test]
fn order_agrees_with_the_standard_library() {
    let words = ["", "a", "A", "AB", "B", "é", "z", "\u{ffff}", "\u{10000}", "SK0TM-1", "SK0TM-10"];
    for a in words {
        for b in words {
            assert_eq!(text_lt(a, b), a < b, "{a:?} {b:?}");
        }
    }
}

#[test]
fn trimming_and_splitting() {
    let s = |text: &str| chars_of(text);
    let t = |chars: &[char]| string_of(chars);
    assert_eq!(t(trim(&s(" \u{a0}a b\t\n"))), "a b");
    assert_eq!(t(trim_end(&s(" a "))), " a");
    assert_eq!(t(strip_leading(&s("##1#"), '#')), "1#");
    assert_eq!(t(strip_trailing(&s("C**"), '*')), "C");
    assert_eq!(t(before(&s("A-1-2"), '-')), "A");
    assert_eq!(split(&s("a,,b,"), ',').iter().map(|p| t(p)).collect::<Vec<_>>(), ["a", "", "b", ""]);
    let text = s("k=v=w");
    let (key, value) = split_once(&text, '=').unwrap();
    assert_eq!((t(key).as_str(), t(value).as_str()), ("k", "v=w"));
    assert!(split_once(&text, ':').is_none());
    let text = s("one\u{3000}two");
    let (first, rest) = split_space(&text).unwrap();
    assert_eq!((t(first).as_str(), t(rest).as_str()), ("one", "two"));
    assert_eq!(find_text(&s("ab/A/A=1"), "/A="), Some(4));
    assert_eq!(find_text(&s("ab"), "abc"), None);
}

#[test]
fn numbers_agree_with_the_standard_library() {
    for n in [0u128, 7, 10, 99_999, u64::MAX as u128, u128::MAX] {
        assert_eq!(decimal(n), n.to_string());
    }
    for text in ["0", "15", "+15", "016", "", "+", "-1", "65535", "65536", "99999999999999999999", "1x"] {
        assert_eq!(parse_up_to(&chars_of(text), 65535).map(|v| v as u16), text.parse::<u16>().ok(), "{text}");
        if text.len() <= 6 {
            assert_eq!(parse_signed(&chars_of(text)), text.parse::<i32>().ok(), "{text}");
        }
    }
    for text in ["-00001", "+00010", "-", "--1", "123456"] {
        assert_eq!(parse_signed(&chars_of(text)), text.parse::<i32>().ok(), "{text}");
    }
}

#[test]
fn bytes_and_text() {
    assert_eq!(bytes_of("é€"), "é€".as_bytes());
    assert_eq!(string_of(&text_of("é€".as_bytes())), "é€");
    for bytes in [b"ok".as_slice(), b"a\xffb", b"\xe2\x82", b"\xc0\x80x", b""] {
        assert_eq!(string_of(&text_of(bytes)), String::from_utf8_lossy(bytes));
        assert_eq!(strict_text_of(bytes).map(|s| string_of(&s)), String::from_utf8(bytes.to_vec()).ok());
    }
}
