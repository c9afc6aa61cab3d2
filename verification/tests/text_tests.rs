use keiko_ingestion::text::{is_whitespace, join, same_text, split_whitespace, trim};

#[test]
fn whitespace_is_what_std_calls_whitespace() {
    let mut code: u32 = 0;
    while code <= 0x10FFFF {
        if let Some(c) = char::from_u32(code) {
            assert_eq!(is_whitespace(c), c.is_whitespace(), "U+{:04X}", code);
        }
        code += 1;
    }
}

#[test]
fn trim_is_what_std_trims() {
    for text in ["", " ", "a", "  a b  ", "\n\ta\u{a0}", "\u{3000}x y\u{2028}", "no-space"] {
        assert_eq!(trim(text), text.trim());
    }
}

#[test]
fn words_are_what_std_splits() {
    for text in ["", "   ", "one", " one  two\tthree\n", "a\u{a0}b", "日本 語"] {
        let expected: Vec<String> = text.split_whitespace().map(|w| w.to_string()).collect();
        assert_eq!(split_whitespace(text), expected);
    }
}

#[test]
fn join_puts_single_spaces_between_words() {
    let words = vec!["a".to_string(), "b".to_string(), "c".to_string()];
    assert_eq!(join(&words, 0), "a b c");
    assert_eq!(join(&words, 1), "b c");
    assert_eq!(join(&words, 2), "c");
    assert_eq!(join(&words, 3), "");
}

#[test]
fn same_text_compares_characters() {
    assert!(same_text("script", "script"));
    assert!(!same_text("script", "scrip"));
    assert!(!same_text("script", "scripT"));
    assert!(same_text("", ""));
}
