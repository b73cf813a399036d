use fetch_mcp_rs::text::{
    append_decimal, blank, same_text, search, str_contains, strip_prefix, to_chars,
    to_lower_chars, white_space,
};

#[test]
fn white_space_is_the_unicode_property() {
    for c in '\u{0}'..=char::MAX {
        assert_eq!(white_space(c), c.is_whitespace(), "{c:?}");
    }
    assert!(blank(" \t\u{2003}"));
    assert!(blank(""));
    assert!(!blank(" x"));
}

#[test]
fn decimals() {
    for n in [0, 7, 10, 99, 100, 404, 1_234_567_890, usize::MAX] {
        let mut out = "n=".to_string();
        append_decimal(&mut out, n);
        assert_eq!(out, format!("n={n}"));
    }
}

#[test]
fn lower_case_is_ascii_only() {
    let text = "AZ\u{c9}\u{130}[@`{az09";
    let folded: String = to_lower_chars(text).into_iter().collect();
    assert_eq!(folded, text.to_ascii_lowercase());
}

#[test]
fn searching_finds_the_leftmost() {
    let text = to_chars("abcabc");
    assert_eq!(search(&text, &to_chars("bc"), 0), Some(1));
    assert_eq!(search(&text, &to_chars("bc"), 2), Some(4));
    assert_eq!(search(&text, &to_chars("x"), 0), None);
    assert_eq!(search(&text, &to_chars("c"), 6), None);
    assert!(str_contains("caf\u{e9} au lait", "\u{e9} a"));
    assert!(!str_contains("ab", "abc"));
    assert!(str_contains("ab", ""));
}

#[test]
fn prefixes() {
    assert_eq!(strip_prefix("--a=b", "--a="), Some("b".to_string()));
    assert_eq!(strip_prefix("--a", "--a="), None);
    assert!(same_text("a", "a"));
    assert!(!same_text("a", "ab"));
}
