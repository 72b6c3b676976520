use taplo::text::{chars_of, has_prefix_at, has_suffix_in, string_of, strip_ends, unescape_chars};

fn unescape(s: &str) -> Option<String> {
    let chars = chars_of(s);
    unescape_chars(&chars, 0, chars.len())
}

#[test]
fn chars_and_back() {
    let chars = chars_of("héllo");
    assert_eq!(chars, vec!['h', 'é', 'l', 'l', 'o']);
    assert_eq!(string_of(&chars, 0, 5), "héllo");
    assert_eq!(string_of(&chars, 1, 3), "él");
    assert_eq!(string_of(&chars, 2, 2), "");
}

#[test]
fn prefixes_and_suffixes() {
    let s = chars_of("[[a.b]]");
    assert!(has_prefix_at(&s, 0, &chars_of("[[")));
    assert!(has_prefix_at(&s, 2, &chars_of("a.")));
    assert!(!has_prefix_at(&s, 1, &chars_of("a")));
    assert!(!has_prefix_at(&s, 6, &chars_of("]]")));
    assert!(has_prefix_at(&s, 7, &chars_of("")));
    assert!(has_suffix_in(&s, 0, 7, &chars_of("]]")));
    assert!(has_suffix_in(&s, 0, 5, &chars_of(".b")));
    assert!(!has_suffix_in(&s, 6, 7, &chars_of("]]")));
}

#[test]
fn strip_ends_takes_each_end_once() {
    let s = chars_of("\"\"\"x\"\"\"");
    assert_eq!(strip_ends(&s, 0, s.len(), &chars_of("\""), &chars_of("\"")), (1, 6));
    assert_eq!(strip_ends(&s, 0, s.len(), &chars_of("\"\"\""), &chars_of("\"\"\"")), (3, 4));
    let one = chars_of("\"");
    assert_eq!(strip_ends(&one, 0, 1, &chars_of("\""), &chars_of("\"")), (1, 1));
    let plain = chars_of("abc");
    assert_eq!(strip_ends(&plain, 0, 3, &chars_of("'"), &chars_of("'")), (0, 3));
}

#[test]
fn unescape_resolves_the_short_escapes() {
    assert_eq!(unescape("plain").unwrap(), "plain");
    assert_eq!(unescape("").unwrap(), "");
    assert_eq!(unescape(r#"a\tb\nc"#).unwrap(), "a\tb\nc");
    assert_eq!(unescape(r#"\b\f\r"#).unwrap(), "\u{8}\u{c}\r");
    assert_eq!(unescape(r#"say \"hi\" \\ bye"#).unwrap(), "say \"hi\" \\ bye");
}

#[test]
fn unescape_resolves_unicode_escapes() {
    assert_eq!(unescape("\\u0041").unwrap(), "A");
    assert_eq!(unescape("\\u00e9!").unwrap(), "\u{e9}!");
    assert_eq!(unescape("\\U0001F600").unwrap(), "\u{1F600}");
    assert_eq!(unescape("x\\u00E9y\\U0000004a").unwrap(), "x\u{e9}yJ");
}

#[test]
fn unescape_drops_a_backslash_before_a_line_end() {
    assert_eq!(unescape("a\\\n   b").unwrap(), "ab");
    assert_eq!(unescape("a\\\r\n\n\t b").unwrap(), "ab");
    assert_eq!(unescape("a\\\n").unwrap(), "a");
}

#[test]
fn unescape_refuses_malformed_escapes() {
    assert_eq!(unescape(r#"\q"#), None);
    assert_eq!(unescape("trailing\\"), None);
    assert_eq!(unescape(r#"\u12"#), None);
    assert_eq!(unescape(r#"\u12G4"#), None);
    assert_eq!(unescape(r#"\uD800"#), None);
    assert_eq!(unescape(r#"\U00110000"#), None);
    assert_eq!(unescape("a\\\rb"), None);
}
