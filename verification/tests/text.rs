use litchi::text::{
    char_is_ascii_digit, char_is_whitespace, count_leading_whitespace, count_trailing_whitespace,
    push_all, push_chars, push_decimal, push_spaces, string_of, to_chars, trimmed_end,
};
use litchi::markdown::unicode::{
    can_convert_to_subscript, can_convert_to_superscript, convert_to_subscript,
    convert_to_superscript, to_subscript, to_superscript,
};

#[test]
fn white_space_is_what_std_calls_white_space() {
    for u in 0u32..0x11_0000 {
        if let Some(c) = char::from_u32(u) {
            assert_eq!(char_is_whitespace(c), c.is_whitespace(), "U+{:04X}", u);
        }
    }
}

#[test]
fn ascii_digits_are_zero_to_nine() {
    for u in 0u32..0x11_0000 {
        if let Some(c) = char::from_u32(u) {
            assert_eq!(char_is_ascii_digit(c), c.is_ascii_digit(), "U+{:04X}", u);
        }
    }
}

#[test]
fn chars_of_a_string() {
    assert_eq!(to_chars("a\u{e9}\u{1f600}"), vec!['a', '\u{e9}', '\u{1f600}']);
    assert_eq!(to_chars(""), Vec::<char>::new());
}

#[test]
fn strings_of_chars() {
    let chars = to_chars("hello");
    assert_eq!(string_of(&chars, 1, 4), "ell");
    assert_eq!(string_of(&chars, 2, 2), "");
    assert_eq!(string_of(&chars, 0, 5), "hello");
    let mut buffer = String::from("x");
    push_chars(&mut buffer, &chars, 3, 5);
    assert_eq!(buffer, "xlo");
}

#[test]
fn leading_and_trailing_white_space_is_counted() {
    let chars = to_chars(" \t\u{a0}a b \n");
    assert_eq!(count_leading_whitespace(&chars, 0), 3);
    assert_eq!(count_leading_whitespace(&chars, 1), 2);
    assert_eq!(count_leading_whitespace(&chars, 3), 0);
    assert_eq!(count_leading_whitespace(&chars, 8), 0);
    assert_eq!(count_trailing_whitespace(&chars, 8), 2);
    assert_eq!(count_trailing_whitespace(&chars, 6), 0);
    assert_eq!(count_trailing_whitespace(&chars, 3), 3);
    assert_eq!(count_trailing_whitespace(&chars, 0), 0);
}

#[test]
fn trimmed_end_is_trim_end_of_std() {
    for text in ["", " ", "a", "a  ", "  a", " a \n\t", "\u{3000}x\u{3000}", "a\n\n"] {
        assert_eq!(trimmed_end(text), text.trim_end());
    }
}

#[test]
fn decimal_numerals() {
    for n in [0usize, 1, 9, 10, 11, 99, 100, 12345, 1_000_000, usize::MAX] {
        let mut buffer = String::from("n=");
        push_decimal(&mut buffer, n);
        assert_eq!(buffer, format!("n={}", n));
    }
}

#[test]
fn spaces_are_repeated() {
    let mut buffer = String::from("|");
    push_spaces(&mut buffer, 0);
    assert_eq!(buffer, "|");
    push_spaces(&mut buffer, 3);
    assert_eq!(buffer, "|   ");
}

#[test]
fn strings_are_put_together_in_order() {
    let mut buffer = String::from("0");
    push_all(&mut buffer, &vec!["a".to_string(), "".to_string(), "bc".to_string()]);
    assert_eq!(buffer, "0abc");
    push_all(&mut buffer, &Vec::new());
    assert_eq!(buffer, "0abc");
}

#[test]
fn superscript_characters() {
    assert_eq!(to_superscript('0'), Some('\u{2070}'));
    assert_eq!(to_superscript('1'), Some('\u{b9}'));
    assert_eq!(to_superscript('2'), Some('\u{b2}'));
    assert_eq!(to_superscript('3'), Some('\u{b3}'));
    assert_eq!(to_superscript('9'), Some('\u{2079}'));
    assert_eq!(to_superscript('n'), Some('\u{207f}'));
    assert_eq!(to_superscript('i'), Some('\u{2071}'));
    assert_eq!(to_superscript('a'), None);
    assert_eq!(to_superscript(' '), None);
    assert!(can_convert_to_superscript("(n+1)=2"));
    assert!(can_convert_to_superscript(""));
    assert!(!can_convert_to_superscript("n m"));
    assert_eq!(convert_to_superscript("-12"), "\u{207b}\u{b9}\u{b2}");
    assert_eq!(convert_to_superscript("2a"), "\u{b2}a");
}

#[test]
fn subscript_characters() {
    assert_eq!(to_subscript('0'), Some('\u{2080}'));
    assert_eq!(to_subscript('9'), Some('\u{2089}'));
    assert_eq!(to_subscript('a'), Some('\u{2090}'));
    assert_eq!(to_subscript('x'), Some('\u{2093}'));
    assert_eq!(to_subscript('t'), Some('\u{209c}'));
    assert_eq!(to_subscript('i'), None);
    assert_eq!(to_subscript('b'), None);
    assert!(can_convert_to_subscript("max"));
    assert!(!can_convert_to_subscript("min"));
    assert_eq!(convert_to_subscript("(2)"), "\u{208d}\u{2082}\u{208e}");
    assert_eq!(convert_to_subscript("H2O"), "H\u{2082}O");
}
