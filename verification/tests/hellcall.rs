use hellcall_core::text::StringUtils;

#[test]
fn default_vosk_grammar_splits_cjk_chars() {
    assert_eq!(
        "快速开火".build_default_vosk_grammar(),
        Some("快 速 开 火".to_string())
    );
}

#[test]
fn default_vosk_grammar_preserves_latin_words() {
    assert_eq!(
        "open fire now".build_default_vosk_grammar(),
        Some("open fire now".to_string())
    );
}

#[test]
fn default_vosk_grammar_supports_mixed_scripts() {
    assert_eq!(
        "alpha 快速 fire".build_default_vosk_grammar(),
        Some("alpha 快 速 fire".to_string())
    );
}

#[test]
fn default_vosk_grammar_preserves_hangul_words() {
    assert_eq!(
        "빠른 발사".build_default_vosk_grammar(),
        Some("빠른 발사".to_string())
    );
}

#[test]
fn matching_normalization_removes_spaces_and_lowercases_latin_text() {
    assert_eq!(
        "Open   Fire".normalize_text_for_matching(),
        "openfire".to_string()
    );
}
