use vexdoc::text::{
    chars_of, has_prefix, holds_text, is_whitespace_char, join_lines, lines_of, push_all,
    push_decimal, push_str, same_text, string_of, strip_spaces, trimmed_tail,
};

fn text(s: &str) -> Vec<char> {
    s.chars().collect()
}

fn decimal_of(n: usize) -> String {
    let mut out: Vec<char> = Vec::new();
    push_decimal(&mut out, n);
    out.into_iter().collect()
}

#[test]
fn strings_and_characters_convert_both_ways() {
    for s in ["", "a", "héllo wörld", "line\nfeed", "\u{1F600} end"] {
        assert_eq!(chars_of(s), text(s));
        assert_eq!(string_of(&text(s)), s);
    }
}

#[test]
fn whitespace_is_what_the_standard_library_calls_whitespace() {
    let mut code: u32 = 0;
    while code <= 0x10FFFF {
        if let Some(c) = char::from_u32(code) {
            assert_eq!(is_whitespace_char(c), c.is_whitespace(), "U+{:04X}", code);
        }
        code += 1;
    }
}

#[test]
fn lines_are_split_as_the_standard_library_splits_them() {
    for s in [
        "",
        "\n",
        "\n\n",
        "one",
        "one\n",
        "one\ntwo",
        "one\r\ntwo\r\n",
        "one\rtwo\n",
        "a\r",
        "a\r\r\n",
        "\r\n",
        "a\n\nb\n\n",
        "trailing\r\nlast\r",
    ] {
        let expected: Vec<Vec<char>> = s.lines().map(|l| l.chars().collect()).collect();
        assert_eq!(lines_of(&text(s)), expected, "{:?}", s);
    }
}

#[test]
fn lines_join_with_a_separator_between_them() {
    let parts = vec![text("a"), text(""), text("bc"), text("d")];
    assert_eq!(join_lines(&parts, 0, 4, ' '), text("a  bc d"));
    assert_eq!(join_lines(&parts, 1, 3, '\n'), text("\nbc"));
    assert_eq!(join_lines(&parts, 2, 3, ' '), text("bc"));
    assert_eq!(join_lines(&parts, 2, 2, ' '), text(""));
}

#[test]
fn decimal_digits_of_numbers() {
    assert_eq!(decimal_of(0), "0");
    assert_eq!(decimal_of(7), "7");
    assert_eq!(decimal_of(10), "10");
    assert_eq!(decimal_of(109), "109");
    assert_eq!(decimal_of(1234567890), "1234567890");
    assert_eq!(decimal_of(usize::MAX), usize::MAX.to_string());
}

#[test]
fn spaces_are_stripped_and_nothing_else() {
    assert_eq!(strip_spaces(&text("  a b\tc \n ")), text("ab\tc\n"));
    assert_eq!(strip_spaces(&text("   ")), text(""));
    assert_eq!(strip_spaces(&text("a\u{a0}b")), text("a\u{a0}b"));
}

#[test]
fn tail_is_trimmed_at_its_start() {
    assert_eq!(trimmed_tail(&text("//!  \t Title "), 3), text("Title "));
    assert_eq!(trimmed_tail(&text("//!"), 3), text(""));
    assert_eq!(trimmed_tail(&text("//!   "), 3), text(""));
    assert_eq!(trimmed_tail(&text("abc"), 0), text("abc"));
}

#[test]
fn prefixes_and_equal_texts() {
    assert!(has_prefix(&text("//! x"), &text("//!")));
    assert!(has_prefix(&text("//!"), &text("//!")));
    assert!(has_prefix(&text("x"), &text("")));
    assert!(!has_prefix(&text("//"), &text("//!")));
    assert!(!has_prefix(&text(" //!"), &text("//!")));
    assert!(same_text(&text("abc"), &text("abc")));
    assert!(!same_text(&text("abc"), &text("abd")));
    assert!(!same_text(&text("abc"), &text("ab")));
    let items = vec!["rs".to_string(), "py".to_string()];
    assert!(holds_text(&items, &text("py")));
    assert!(!holds_text(&items, &text("RS")));
    assert!(!holds_text(&items, &text("")));
}

#[test]
fn characters_are_appended() {
    let mut out = text("ab");
    push_all(&mut out, &text("cd"));
    push_str(&mut out, "éf");
    assert_eq!(out, text("abcdéf"));
}
