use tunnelto_server::text;

#[test]
fn trim_agrees_with_std_on_every_character() {
    for code in 0..=0x10ffffu32 {
        if let Some(c) = char::from_u32(code) {
            let s: String = [c, 'x', c].iter().collect();
            assert_eq!(text::trim(&s), s.trim(), "U+{:04X}", code);
        }
    }
}

#[test]
fn trim_edge_cases() {
    assert_eq!(text::trim(""), "");
    assert_eq!(text::trim(" \t\r\n"), "");
    assert_eq!(text::trim("  a b  "), "a b");
    assert_eq!(text::trim("\u{3000}é\u{a0}"), "é");
}

#[test]
fn trimmed_texts_stay() {
    for s in ["", " ", "a", " a b\t", "\u{2028}x\u{85}y\r\n"] {
        assert_eq!(text::trim(text::trim(s)), text::trim(s));
    }
}

#[test]
fn decimals_are_read_like_std_reads_them() {
    for s in [
        "0", "00", "7", "+7", "123", "18446744073709551615", "18446744073709551616",
        "99999999999999999999999999", "000000000000000000000000000000012", "", "+", "-", "-1",
        "-0", "++1", "1+", " 1", "1 ", "1a", "0x10", "１", "+00",
    ] {
        assert_eq!(text::parse_decimal(s), s.parse::<usize>().ok(), "{:?}", s);
    }
    assert_eq!(text::parse_decimal("+42"), Some(42));
}

#[test]
fn case_is_ignored_in_ascii_only() {
    assert!(text::eq_ignore_ascii_case("Content-Length", "content-LENGTH"));
    assert!(!text::eq_ignore_ascii_case("a", "ab"));
    assert!(!text::eq_ignore_ascii_case("É", "é"));
    assert!(!text::eq_ignore_ascii_case("[", "{"));
    assert!(!text::eq_ignore_ascii_case("@", "`"));
}

#[test]
fn capital_letters_are_made_small_like_std_does() {
    for s in ["", "abcXYZ", "ABCDEFGHIJKLMNOPQRSTUVWXYZ", "@[`{", "É-Straße", "a.B-9/ü"] {
        assert_eq!(text::to_lower_case(s), s.to_ascii_lowercase());
        assert_eq!(text::to_lower_case(&text::to_lower_case(s)), text::to_lower_case(s));
    }
    assert_eq!(text::to_lower_case("Foo.LocalHost"), "foo.localhost");
}

#[test]
fn contains_lower_finds_the_pattern() {
    assert!(text::contains_lower("gzip, ChunKed", "chunked"));
    assert!(text::contains_lower("chunked", "chunked"));
    assert!(!text::contains_lower("chunke", "chunked"));
    assert!(!text::contains_lower("chunk-ed", "chunked"));
    assert!(text::contains_lower("x", ""));
}

#[test]
fn prefixes() {
    assert_eq!(text::strip_prefix("wormhole.example", "wormhole."), Some("example".to_string()));
    assert_eq!(text::strip_prefix("wormhole", "wormhole."), None);
    assert_eq!(text::strip_prefix("é/x", "é"), Some("/x".to_string()));
    assert!(text::starts_with("abc", ""));
    assert!(text::starts_with("abc", "abc"));
    assert!(!text::starts_with("abc", "abcd"));
}

#[test]
fn equality_and_membership() {
    assert!(text::str_eq("", ""));
    assert!(text::str_eq("aé", "aé"));
    assert!(!text::str_eq("a", "b"));
    assert!(!text::str_eq("a", "aa"));
    assert!(text::contains_char("a/b", '/'));
    assert!(!text::contains_char("", '/'));
    let list = vec!["a".to_string(), "b".to_string()];
    assert!(text::list_contains(&list, "b"));
    assert!(!text::list_contains(&list, "c"));
    assert!(!text::list_contains(&Vec::new(), ""));
}
