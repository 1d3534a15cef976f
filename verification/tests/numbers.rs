use mnt::number::{decimal_text, digit_of, parse_c_int};
use mnt::text::{chars_of, str_eq, trim_span, whitespace};

#[test]
fn integers_agree_with_std() {
    let samples = [
        "", "0", "1", "-0", "+0", "-1", "+1", "00", "007", "-007", "+", "-", "+-1", "--1", "1-",
        "1 ", " 1", "1a", "a", "12345", "2147483647", "2147483648", "-2147483648", "-2147483649",
        "0000000000000000000000002147483647", "99999999999999999999999999", "-99999999999999999999",
        "4294967296", "18446744073709551616", "١", "1_000", "0x10", "1.0", "1e3",
    ];
    for text in samples {
        assert_eq!(parse_c_int(text), text.parse::<i32>().ok(), "{:?}", text);
    }
}

#[test]
fn digits() {
    assert_eq!(digit_of('0'), Some(0));
    assert_eq!(digit_of('9'), Some(9));
    assert_eq!(digit_of('/'), None);
    assert_eq!(digit_of(':'), None);
    assert_eq!(digit_of('٣'), None);
}

#[test]
fn decimal_text_agrees_with_std() {
    for n in [0usize, 1, 9, 10, 11, 99, 100, 101, 12345, 1_000_000, usize::MAX] {
        assert_eq!(decimal_text(n), n.to_string());
    }
}

#[test]
fn whitespace_agrees_with_std() {
    let mut code: u32 = 0;
    while code <= 0x10ffff {
        if let Some(c) = char::from_u32(code) {
            assert_eq!(whitespace(c), c.is_whitespace(), "U+{:04X}", code);
        }
        code += 1;
    }
}

#[test]
fn trimming_agrees_with_std() {
    for text in ["", " ", "a", " a", "a ", "\t a b \n", "\u{a0}a\u{3000}", "\r\n", " a\u{2003} b\u{85}"] {
        let chars = chars_of(text);
        let span = trim_span(&chars);
        let trimmed: String = chars[span.start..span.end].iter().collect();
        assert_eq!(trimmed, text.trim(), "{:?}", text);
    }
}

#[test]
fn texts_are_compared_character_by_character() {
    assert!(str_eq("", ""));
    assert!(str_eq("rw", "rw"));
    assert!(!str_eq("rw", "ro"));
    assert!(!str_eq("rw", "rw "));
    assert!(str_eq("mode=755 ä", "mode=755 ä"));
    assert!(!str_eq("ä", "a"));
}
