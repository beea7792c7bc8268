use risp::text::{
    char_to_digit, chars_of, digit_to_char, int_to_string, parse_int_chars, same_text, text_of,
};

fn parse(word: &str) -> Option<i64> {
    let chars: Vec<char> = word.chars().collect();
    parse_int_chars(&chars, 0, chars.len())
}

#[test]
fn test_parse_int_agrees_with_the_standard_library() {
    let words = [
        "", "0", "-0", "+0", "7", "-7", "+7", "007", "-", "+", "--1", "+-1", "1-", "1a", "a1",
        " 1", "1 ", "9223372036854775807", "9223372036854775808", "-9223372036854775808",
        "-9223372036854775809", "99999999999999999999999", "0000000000000000000000000012",
        "1_000", "1.5", "\u{663}",
    ];
    for word in words {
        assert_eq!(parse(word), word.parse::<i64>().ok(), "word {:?}", word);
    }
}

#[test]
fn test_parse_int_of_a_part_of_the_text() {
    let chars: Vec<char> = "ab-12cd".chars().collect();
    assert_eq!(parse_int_chars(&chars, 2, 5), Some(-12));
    assert_eq!(parse_int_chars(&chars, 3, 5), Some(12));
    assert_eq!(parse_int_chars(&chars, 2, 6), None);
    assert_eq!(parse_int_chars(&chars, 3, 3), None);
}

#[test]
fn test_int_to_string_agrees_with_the_standard_library() {
    for n in [0i64, 1, -1, 9, 10, -10, 12345, -98765, i64::MAX, i64::MIN] {
        assert_eq!(int_to_string(n), n.to_string());
        assert_eq!(parse(int_to_string(n).as_str()), Some(n));
    }
}

#[test]
fn test_digits() {
    for d in 0..10u64 {
        let c = digit_to_char(d);
        assert_eq!(c, char::from_digit(d as u32, 10).unwrap());
        assert_eq!(char_to_digit(c), Some(d));
    }
    assert_eq!(char_to_digit('a'), None);
    assert_eq!(char_to_digit('-'), None);
}

#[test]
fn test_chars_and_text() {
    let chars = chars_of("h\u{e9}llo");
    assert_eq!(chars, vec!['h', '\u{e9}', 'l', 'l', 'o']);
    assert_eq!(text_of(&chars, 1, 4), "\u{e9}ll");
    assert_eq!(text_of(&chars, 2, 2), "");
    assert_eq!(text_of(&chars, 0, 5), "h\u{e9}llo");
}

#[test]
fn test_same_text() {
    assert!(same_text("let", "let"));
    assert!(same_text("", ""));
    assert!(!same_text("let", "le"));
    assert!(!same_text("let", "led"));
    assert!(!same_text("", "a"));
}
