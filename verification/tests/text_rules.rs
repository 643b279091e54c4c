use hellcall_core::text::{
    chars_of, collapse_whitespace_chars, default_grammar_of, interleave_chars, is_blank_str,
    is_cjk_like_char, is_whitespace_char, matching_key_of, str_contains, str_starts_with,
    string_of, trim_str, StringOptionUtils, StringUtils,
};

#[test]
fn add_between_chars_spaces_each_character() {
    assert_eq!("hello".add_between_chars(" "), "h e l l o");
    assert_eq!("ab".to_string().add_between_chars("--"), "a--b");
    assert_eq!("".add_between_chars(" "), "");
    assert_eq!("x".add_between_chars(" "), "x");
}

#[test]
fn collapse_whitespace_joins_words_with_single_spaces() {
    assert_eq!("  open \t fire\n now  ".collapse_whitespace(), "open fire now");
    assert_eq!("   ".collapse_whitespace(), "");
    assert_eq!("a\u{3000}b".to_string().collapse_whitespace(), "a b");
    assert_eq!(collapse_whitespace_chars("one"), "one");
}

#[test]
fn grammar_of_blank_text_is_none() {
    assert_eq!("".build_default_vosk_grammar(), None);
    assert_eq!(" \t\n".build_default_vosk_grammar(), None);
    assert_eq!(default_grammar_of("  "), None);
}

#[test]
fn grammar_splits_kana_and_keeps_words_around_it() {
    assert_eq!(
        "fireカタ now".build_default_vosk_grammar(),
        Some("fire カ タ now".to_string())
    );
    assert_eq!(
        "  快速   开火 ".to_string().build_default_vosk_grammar(),
        Some("快 速 开 火".to_string())
    );
}

#[test]
fn matching_key_lowercases_beyond_ascii() {
    assert_eq!("ÄÖ Ü".normalize_text_for_matching(), "äöü");
    assert_eq!(matching_key_of("\tOPEN\u{3000}Fire"), "openfire");
    assert_eq!(matching_key_of("快速 开火"), "快速开火");
    assert_eq!(matching_key_of(""), "");
}

#[test]
fn matching_key_of_dotted_capital_i_expands() {
    // U+0130 lowercases to two characters.
    assert_eq!(matching_key_of("\u{130}"), "i\u{307}");
}

#[test]
fn optional_text_is_empty_when_absent_or_blank() {
    let none: Option<String> = None;
    assert!(none.is_empty());
    assert!(Some(String::new()).is_empty());
    assert!(!Some(" ".to_string()).is_empty());
    assert!(!Some("a".to_string()).is_empty());
}

#[test]
fn character_classes() {
    assert!(is_cjk_like_char('快'));
    assert!(is_cjk_like_char('カ'));
    assert!(!is_cjk_like_char('빠'));
    assert!(!is_cjk_like_char('a'));
    assert!(is_whitespace_char('\u{3000}'));
    assert!(is_whitespace_char('\n'));
    assert!(!is_whitespace_char('x'));
}

#[test]
fn trimming_and_blankness() {
    assert_eq!(trim_str("  a b \n"), "a b");
    assert_eq!(trim_str("\t"), "");
    assert!(is_blank_str(" \t "));
    assert!(is_blank_str(""));
    assert!(!is_blank_str(" x "));
}

#[test]
fn substring_and_prefix_search() {
    assert!(str_contains("open fire now", "fire"));
    assert!(str_contains("abc", ""));
    assert!(!str_contains("ab", "abc"));
    assert!(!str_contains("open fire", "Fire"));
    assert!(str_starts_with("hf-mirror", "hf"));
    assert!(!str_starts_with("h", "hf"));
}

#[test]
fn chars_round_trip() {
    let v = chars_of("快a b");
    assert_eq!(v, vec!['快', 'a', ' ', 'b']);
    assert_eq!(string_of(&v), "快a b");
    assert_eq!(interleave_chars("ab", ","), "a,b");
}

#[test]
fn matching_key_is_empty_exactly_for_blank_text() {
    assert_eq!(matching_key_of(" \t\u{3000}\n"), "");
    assert!(!matching_key_of(" a ").is_empty());
    assert!(!matching_key_of("\u{130}").is_empty());
}

#[test]
fn a_default_grammar_is_its_own_default_grammar() {
    for phrase in ["  alpha快速 fire\t", "快速开火", "open   fire now", "빠른 발사", "x"] {
        let g = default_grammar_of(phrase).unwrap();
        assert_eq!(default_grammar_of(&g), Some(g.clone()));
        assert!(!g.contains("  ") && !g.starts_with(' ') && !g.ends_with(' '));
        let kept: String = phrase.chars().filter(|c| !c.is_whitespace()).collect();
        let in_grammar: String = g.chars().filter(|c| !c.is_whitespace()).collect();
        assert_eq!(kept, in_grammar);
    }
    assert_eq!(default_grammar_of("  alpha快速 fire\t"), Some("alpha 快 速 fire".to_string()));
    assert_eq!(default_grammar_of(" \t "), None);
}
