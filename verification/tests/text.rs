use apt_fetcher::text::{
    clone_texts, contains_text, ends_with, join2, join3, parse_u64, replace, same, skip_bytes,
    split_words, starts_with, white_space,
};

#[test]
fn words_are_split_at_white_space() {
    assert_eq!(split_words("  a\tbc \n d\u{a0}e\u{3000}"), vec!["a", "bc", "d", "e"]);
    assert!(split_words(" \n\t").is_empty());
    assert!(split_words("").is_empty());
}

#[test]
fn white_space_agrees_with_unicode() {
    for code in 0..0x110000u32 {
        if let Some(c) = std::char::from_u32(code) {
            assert_eq!(white_space(c), c.is_whitespace(), "{:x}", code);
        }
    }
}

#[test]
fn words_hold_no_white_space() {
    let text = " one\u{2003}two  three\u{85}four ";
    let found = split_words(text);
    let expected: Vec<&str> = text.split_whitespace().collect();
    assert_eq!(found, expected);
    for word in found {
        assert!(!word.is_empty() && !word.chars().any(white_space));
    }
}

#[test]
fn numbers_are_read_back() {
    for n in vec![0u64, 9, 10, 4096, u64::max_value()] {
        assert_eq!(parse_u64(&format!("{}", n)), Some(n));
    }
}

#[test]
fn numbers_are_parsed_or_refused() {
    assert_eq!(parse_u64("+7"), Some(7));
    assert_eq!(parse_u64("007"), Some(7));
    assert_eq!(parse_u64(""), None);
    assert_eq!(parse_u64("+"), None);
    assert_eq!(parse_u64("++7"), None);
    assert_eq!(parse_u64("-7"), None);
    assert_eq!(parse_u64("7a"), None);
    assert_eq!(parse_u64("18446744073709551615"), Some(u64::max_value()));
    assert_eq!(parse_u64("18446744073709551616"), None);
    assert_eq!(parse_u64("99999999999999999999999"), None);
}

#[test]
fn prefixes_and_suffixes_are_found() {
    assert!(starts_with("http://a", "http"));
    assert!(!starts_with("ht", "http"));
    assert!(starts_with("a", ""));
    assert!(ends_with("Packages.xz", ".xz"));
    assert!(!ends_with("xz", ".xz"));
    assert!(same("ä", "ä") && !same("ä", "a"));
}

#[test]
fn texts_are_joined_and_looked_up() {
    assert_eq!(join2("a", "b"), "ab");
    assert_eq!(join3("a", "", "c"), "ac");
    let list = vec!["main".to_string(), "universe".to_string()];
    assert!(contains_text(&list, "universe"));
    assert!(!contains_text(&list, "multiverse"));
    assert_eq!(clone_texts(&list), list);
}

#[test]
fn occurrences_are_replaced() {
    assert_eq!(replace("a/b//c", "/", "_"), "a_b__c");
    assert_eq!(replace("aaa", "aa", "b"), "ba");
    assert_eq!(replace("ab", "", "-"), "-a-b-");
    assert_eq!(replace("", "", "-"), "-");
    assert_eq!(replace("bionic-updates", "bionic", "cosmic"), "cosmic-updates");
}

#[test]
fn bytes_are_skipped() {
    assert_eq!(skip_bytes("http://host", 7), "host");
    assert_eq!(skip_bytes("äb", 2), "b");
    assert_eq!(skip_bytes("1234567", 7), "");
}
