use sgp_proxy::text::char_is_white_space;
use sgp_proxy::text::chars_of;
use sgp_proxy::text::decimal_text;
use sgp_proxy::text::join;
use sgp_proxy::text::same_text;
use sgp_proxy::text::strip_prefix;
use sgp_proxy::text::trim;
use sgp_proxy::text::trim_end_char;

#[test]
fn white_space_is_that_of_std() {
    for c in '\0'..=char::MAX {
        assert_eq!(char_is_white_space(c), c.is_whitespace());
    }
}

#[test]
fn trimming_is_that_of_std() {
    for s in ["", " ", "a", " a b ", "\u{3000}\u{e9}\r\n", "\t\u{a0}x\u{2003}", "\u{200b}a"] {
        assert_eq!(trim(s), s.trim());
        assert_eq!(trim_end_char(s, ' '), s.trim_end_matches(' '));
        assert_eq!(chars_of(s), s.chars().collect::<Vec<char>>());
    }
    assert_eq!(trim_end_char("a//b//", '/'), "a//b");
    assert_eq!(trim_end_char("//", '/'), "");
}

#[test]
fn prefixes_are_stripped_once() {
    for (s, prefix) in
        [("data:x", "data:"), ("dat", "data:"), ("data:", "data:"), ("", ""), ("\u{e9}a", "\u{e9}")]
    {
        assert_eq!(strip_prefix(s, prefix), s.strip_prefix(prefix));
    }
    assert_eq!(strip_prefix("aab", "a"), Some("ab"));
}

#[test]
fn numbers_are_written_in_decimal() {
    for n in [0, 7, 9, 10, 99, 100, 1234567890, u32::MAX] {
        assert_eq!(decimal_text(n), n.to_string());
    }
}

#[test]
fn texts_are_joined_with_separators_between() {
    let parts = |texts: &[&str]| texts.iter().map(|t| t.to_string()).collect::<Vec<String>>();
    assert_eq!(join(&parts(&[]), ", "), "");
    assert_eq!(join(&parts(&["a"]), ", "), "a");
    assert_eq!(join(&parts(&["a", "", "b"]), ", "), "a, , b");
    assert_eq!(join(&parts(&["", ""]), "-"), "-");
}

#[test]
fn texts_are_compared_in_full() {
    assert!(same_text("", ""));
    assert!(same_text("h\u{e9}", "h\u{e9}"));
    assert!(!same_text("a", "ab"));
    assert!(!same_text("ab", "a"));
    assert!(!same_text("a", "A"));
}
