use agent_terminal::convenience::{
    classify_input_source, current_input_mode, cursor_color_for_focus, cursor_color_for_input_mode,
    ConvenienceState, InputMode, InputSourceSnapshot,
};

fn languages(values: &[&str]) -> Vec<String> {
    values.iter().map(|value| value.to_string()).collect()
}

#[test]
fn classifies_apple_abc_as_latin() {
    assert_eq!(
        classify_input_source(Some("com.apple.keylayout.ABC"), None, &languages(&["en"])),
        InputMode::Latin
    );
}

#[test]
fn classifies_chinese_language_as_cjk() {
    assert_eq!(
        classify_input_source(
            Some("com.apple.inputmethod.SCIM.ITABC"),
            None,
            &languages(&["zh-Hans"])
        ),
        InputMode::Cjk
    );
}

#[test]
fn classifies_third_party_pinyin_as_cjk() {
    assert_eq!(
        classify_input_source(Some("com.vendor.inputmethod.pinyin"), None, &languages(&[])),
        InputMode::Cjk
    );
}

#[test]
fn missing_source_is_unknown() {
    assert_eq!(classify_input_source(None, None, &[]), InputMode::Unknown);
}

#[test]
fn languages_and_names_decide_in_their_order() {
    assert_eq!(classify_input_source(None, None, &languages(&["JA"])), InputMode::Cjk);
    assert_eq!(classify_input_source(None, None, &languages(&["x-Hant"])), InputMode::Cjk);
    assert_eq!(classify_input_source(None, Some("Roman"), &[]), InputMode::Latin);
    assert_eq!(classify_input_source(Some("vendor"), None, &[]), InputMode::Latin);
    assert_eq!(classify_input_source(None, None, &languages(&["fr"])), InputMode::Latin);
    assert_eq!(
        classify_input_source(Some("abc"), None, &languages(&["en", "ko"])),
        InputMode::Cjk
    );
    assert_eq!(classify_input_source(None, None, &languages(&["it"])), InputMode::Unknown);
}

#[test]
fn an_empty_name_is_no_name() {
    assert_eq!(current_input_mode(&None), InputMode::Unknown);
    let empty = InputSourceSnapshot {
        source_id: String::new(),
        mode_id: String::new(),
        languages: vec![],
    };
    assert_eq!(current_input_mode(&Some(empty)), InputMode::Unknown);
    let named = InputSourceSnapshot {
        source_id: "com.apple.keylayout.US".to_string(),
        mode_id: String::new(),
        languages: vec![],
    };
    assert_eq!(current_input_mode(&Some(named)), InputMode::Latin);
}

#[test]
fn the_source_is_looked_at_again_after_a_while() {
    let mut state = ConvenienceState::new(1000, InputMode::Latin);
    assert_eq!(state.input_mode(), InputMode::Latin);
    assert!(!state.refresh_input_mode_if_due(1249, InputMode::Cjk));
    assert_eq!(state.input_mode(), InputMode::Latin);
    assert!(state.refresh_is_due(1250));
    assert!(state.refresh_input_mode_if_due(1250, InputMode::Cjk));
    assert_eq!(state.input_mode(), InputMode::Cjk);
    assert!(!state.refresh_input_mode(1260, InputMode::Cjk));
    assert!(!state.refresh_is_due(1200));
}

#[test]
fn latin_cursor_uses_theme_color() {
    let base = 0xffea00a6;
    assert_eq!(cursor_color_for_input_mode(base, InputMode::Latin), base);
}

#[test]
fn cjk_cursor_overrides_theme_color() {
    let base = 0xffea00a6;
    assert_ne!(cursor_color_for_input_mode(base, InputMode::Cjk), base);
}

#[test]
fn unfocused_cursor_uses_gray() {
    let base = 0xffea00a6;
    assert_eq!(cursor_color_for_focus(base, InputMode::Cjk, false), 0x8a8f98aa);
    assert_eq!(cursor_color_for_focus(base, InputMode::Cjk, true), 0x2ee6a6cc);
}
