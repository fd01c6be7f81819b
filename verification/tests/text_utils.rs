use agent_terminal::input_log::text_value;
use agent_terminal::text_utils::{
    byte_index_to_utf16, delete_next_word_utf16, delete_previous_word_utf16, delete_to_end_utf16,
    preview_text, should_accept_ax_override, should_publish_model_to_ax, summarize_text_for_trace,
    utf16_substring, utf16_to_byte_index,
};

#[test]
fn rejects_stale_ax_state_for_fresh_terminal_model() {
    assert!(!should_accept_ax_override("PNPN", 4, "", 0, "", 0,));
}

#[test]
fn accepts_ax_override_after_local_baseline_exists() {
    assert!(should_accept_ax_override("abcd", 4, "abc", 3, "abc", 3,));
}

#[test]
fn rejects_empty_ax_override_for_nonempty_model() {
    assert!(!should_accept_ax_override("", 0, "typed", 5, "typed", 5,));
}

#[test]
fn what_was_published_is_not_taken_back() {
    assert!(!should_accept_ax_override("abc", 3, "abcd", 4, "abc", 3));
    assert!(!should_accept_ax_override("abc", 3, "abc", 3, "x", 1));
    assert!(should_accept_ax_override("abc", 2, "abc", 3, "abc", 3));
    assert!(should_publish_model_to_ax("abc", 3, "abcd", 4, false));
    assert!(!should_publish_model_to_ax("abc", 3, "abcd", 4, true));
    assert!(!should_publish_model_to_ax("abc", 3, "abc", 3, false));
}

#[test]
fn positions_between_encodings() {
    let text = "a😀中b";
    assert_eq!(utf16_to_byte_index(text, 0), 0);
    assert_eq!(utf16_to_byte_index(text, 1), 1);
    assert_eq!(utf16_to_byte_index(text, 2), 1);
    assert_eq!(utf16_to_byte_index(text, 3), 5);
    assert_eq!(utf16_to_byte_index(text, 4), 8);
    assert_eq!(utf16_to_byte_index(text, 99), 9);
    assert_eq!(byte_index_to_utf16(text, 0), 0);
    assert_eq!(byte_index_to_utf16(text, 5), 3);
    assert_eq!(byte_index_to_utf16(text, 6), 4);
    assert_eq!(byte_index_to_utf16(text, 99), 5);
    assert_eq!(utf16_substring(text, 1..3).as_deref(), Some("😀"));
    assert_eq!(utf16_substring(text, 2..4).as_deref(), Some("😀中"));
    assert_eq!(utf16_substring(text, 4..1), None);
}

#[test]
fn words_are_deleted_with_the_blanks_between() {
    let mut text = "echo  one two".to_string();
    let mut cursor = 10;
    delete_previous_word_utf16(&mut text, &mut cursor);
    assert_eq!((text.as_str(), cursor), ("echo  two", 6));

    let mut text = "echo  one two".to_string();
    let mut cursor = 4;
    delete_next_word_utf16(&mut text, &mut cursor);
    assert_eq!((text.as_str(), cursor), ("echo two", 4));

    let mut text = "one".to_string();
    let mut cursor = 0;
    delete_previous_word_utf16(&mut text, &mut cursor);
    assert_eq!((text.as_str(), cursor), ("one", 0));

    let mut text = "one".to_string();
    let mut cursor = 9;
    delete_next_word_utf16(&mut text, &mut cursor);
    assert_eq!((text.as_str(), cursor), ("one", 3));

    let mut text = "a😀b".to_string();
    delete_to_end_utf16(&mut text, 2);
    assert_eq!(text, "a");
}

#[test]
fn traces_show_the_start_quoted() {
    assert_eq!(summarize_text_for_trace("a\"b\n"), "\"a\\\"b\\n\"");
    let long = "x".repeat(30);
    assert_eq!(preview_text(&long), format!("{}…", "x".repeat(24)));
    assert_eq!(summarize_text_for_trace(&long), format!("\"{}…\"", "x".repeat(24)));
    assert_eq!(preview_text("short"), "short");
    assert_eq!(text_value(true, "a\"b"), "a\"b");
    assert_eq!(text_value(false, "a\"b"), "\"a\\\"b\"");
}
