use agent_terminal::keyboard::{
    encode_control_char, encode_keystroke, encode_keystroke_with_mode, encode_modified_special_key,
    is_paste_shortcut, is_select_all_shortcut, is_terminal_control_key_name, is_zoom_in_shortcut,
    is_zoom_out_shortcut, key_matches, modifier_code, normalize_key_code_char,
    should_defer_to_text_input, Keystroke, KittyKeyEventType, Modifiers, TermMode,
};

fn keystroke(modifiers: Modifiers, key: &str, key_char: Option<&str>) -> Keystroke {
    Keystroke {
        modifiers,
        key: key.to_string(),
        key_char: key_char.map(|text| text.to_string()),
        ime_in_progress: false,
    }
}

fn shift() -> Modifiers {
    Modifiers { shift: true, ..Modifiers::none() }
}

fn alt() -> Modifiers {
    Modifiers { alt: true, ..Modifiers::none() }
}

fn ctrl() -> Modifiers {
    Modifiers { control: true, ..Modifiers::none() }
}

fn platform() -> Modifiers {
    Modifiers { platform: true, ..Modifiers::none() }
}

#[test]
fn encodes_shift_tab() {
    let ks = keystroke(shift(), "tab", None);
    assert_eq!(encode_keystroke(&ks), Some(b"\x1b[Z".to_vec()));
}

#[test]
fn encodes_ctrl_left() {
    let ks = keystroke(ctrl(), "left", None);
    assert_eq!(encode_keystroke(&ks), Some(b"\x1b[1;5D".to_vec()));
}

#[test]
fn encodes_alt_printable_with_escape_prefix() {
    let ks = keystroke(alt(), "x", None);
    assert_eq!(encode_keystroke(&ks), Some(vec![0x1b, b'x']));
}

#[test]
fn encodes_alt_ascii_key_instead_of_macos_option_glyph() {
    let ks = keystroke(alt(), "w", Some("∑"));
    assert_eq!(encode_keystroke(&ks), Some(vec![0x1b, b'w']));
}

#[test]
fn preserves_alt_shift_ascii_key_characters() {
    let modifiers = Modifiers { alt: true, shift: true, ..Modifiers::none() };
    let ks = keystroke(modifiers, "w", Some("W"));
    assert_eq!(encode_keystroke(&ks), Some(vec![0x1b, b'W']));
}

#[test]
fn mode_aware_encoding_keeps_default_legacy_behavior() {
    let ks = keystroke(alt(), "x", None);
    assert_eq!(
        encode_keystroke_with_mode(&ks, TermMode::empty(), KittyKeyEventType::Press),
        Some(vec![0x1b, b'x'])
    );
}

#[test]
fn kitty_disambiguates_alt_printable_as_csi_u() {
    let ks = keystroke(alt(), "x", None);
    let mode = TermMode { disambiguate_esc_codes: true, ..TermMode::empty() };
    assert_eq!(
        encode_keystroke_with_mode(&ks, mode, KittyKeyEventType::Press),
        Some(b"\x1b[120;3u".to_vec())
    );
}

#[test]
fn kitty_reports_all_plain_printable_keys_as_csi_u() {
    let ks = keystroke(Modifiers::none(), "x", Some("x"));
    let mode = TermMode { report_all_keys_as_esc: true, ..TermMode::empty() };
    assert_eq!(
        encode_keystroke_with_mode(&ks, mode, KittyKeyEventType::Press),
        Some(b"\x1b[120;1u".to_vec())
    );
}

#[test]
fn kitty_reports_repeat_event_type_when_requested() {
    let ks = keystroke(Modifiers::none(), "x", Some("x"));
    let mode = TermMode {
        report_all_keys_as_esc: true,
        report_event_types: true,
        ..TermMode::empty()
    };
    assert_eq!(
        encode_keystroke_with_mode(&ks, mode, KittyKeyEventType::Repeat),
        Some(b"\x1b[120;1:2u".to_vec())
    );
}

#[test]
fn kitty_reports_release_event_type_when_requested() {
    let ks = keystroke(Modifiers::none(), "x", Some("x"));
    let mode = TermMode {
        report_all_keys_as_esc: true,
        report_event_types: true,
        ..TermMode::empty()
    };
    assert_eq!(
        encode_keystroke_with_mode(&ks, mode, KittyKeyEventType::Release),
        Some(b"\x1b[120;1:3u".to_vec())
    );
}

#[test]
fn kitty_associated_text_embeds_key_char_codepoints() {
    let ks = keystroke(shift(), "a", Some("A"));
    let mode = TermMode {
        report_all_keys_as_esc: true,
        report_alternate_keys: true,
        report_associated_text: true,
        ..TermMode::empty()
    };
    assert_eq!(
        encode_keystroke_with_mode(&ks, mode, KittyKeyEventType::Press),
        Some(b"\x1b[97:65;2;65u".to_vec())
    );
}

#[test]
fn control_sends_the_codes_of_the_key_and_no_others() {
    for (key, code) in [
        ("a", 0x01u8),
        ("z", 0x1a),
        ("C", 0x03),
        ("@", 0x00),
        ("2", 0x00),
        ("[", 0x1b),
        ("\\", 0x1c),
        ("]", 0x1d),
        ("^", 0x1e),
        ("_", 0x1f),
        ("-", 0x1f),
        ("/", 0x1f),
        ("8", 0x7f),
    ] {
        assert_eq!(
            encode_keystroke(&keystroke(ctrl(), key, None)),
            Some(vec![code]),
            "ctrl {key}"
        );
    }
    for key in [";", "1", "9", "0", "=", ",", ".", "'", "é"] {
        assert_eq!(encode_keystroke(&keystroke(ctrl(), key, None)), None, "ctrl {key}");
    }
    assert_ne!(encode_control_char('-'), Some(0x0d));
    assert_ne!(encode_control_char('3'), Some(0x13));
    let ctrl_alt = Modifiers { control: true, alt: true, ..Modifiers::none() };
    assert_eq!(encode_keystroke(&keystroke(ctrl_alt, "x", None)), Some(vec![0x1b, 0x18]));
}

#[test]
fn named_keys_without_modifiers() {
    for (key, bytes) in [
        ("space", &b" "[..]),
        ("enter", b"\r"),
        ("tab", b"\t"),
        ("backspace", b"\x7f"),
        ("escape", b"\x1b"),
        ("left", b"\x1b[D"),
        ("right", b"\x1b[C"),
        ("up", b"\x1b[A"),
        ("down", b"\x1b[B"),
        ("home", b"\x1b[H"),
        ("end", b"\x1b[F"),
        ("insert", b"\x1b[2~"),
        ("delete", b"\x1b[3~"),
        ("pageup", b"\x1b[5~"),
        ("pagedown", b"\x1b[6~"),
        ("f1", b"\x1bOP"),
        ("f2", b"\x1bOQ"),
        ("f3", b"\x1bOR"),
        ("f4", b"\x1bOS"),
        ("f5", b"\x1b[15~"),
        ("f6", b"\x1b[17~"),
        ("f7", b"\x1b[18~"),
        ("f8", b"\x1b[19~"),
        ("f9", b"\x1b[20~"),
        ("f10", b"\x1b[21~"),
        ("f11", b"\x1b[23~"),
        ("f12", b"\x1b[24~"),
    ] {
        let ks = keystroke(Modifiers::none(), key, None);
        assert_eq!(encode_keystroke(&ks), Some(bytes.to_vec()), "{key}");
    }
    assert_eq!(encode_keystroke(&keystroke(Modifiers::none(), "f13", None)), None);
}

#[test]
fn named_keys_with_modifiers() {
    assert_eq!(encode_keystroke(&keystroke(shift(), "enter", None)), Some(b"\n".to_vec()));
    assert_eq!(encode_keystroke(&keystroke(alt(), "enter", None)), Some(b"\x1b\r".to_vec()));
    assert_eq!(encode_keystroke(&keystroke(ctrl(), "backspace", None)), Some(vec![0x08]));
    assert_eq!(encode_keystroke(&keystroke(alt(), "backspace", None)), Some(b"\x1b\x7f".to_vec()));
    assert_eq!(encode_keystroke(&keystroke(ctrl(), "space", None)), Some(vec![0x00]));
    assert_eq!(encode_keystroke(&keystroke(shift(), "f3", None)), Some(b"\x1b[13;2~".to_vec()));
    assert_eq!(encode_modified_special_key("delete", 6), Some(b"\x1b[3;6~".to_vec()));
    assert_eq!(encode_modified_special_key("x", 6), None);
    let all = Modifiers { control: true, alt: true, shift: true, ..Modifiers::none() };
    assert_eq!(modifier_code(&keystroke(all, "x", None)), 8);
}

#[test]
fn printable_text_and_compositions() {
    assert_eq!(
        encode_keystroke(&keystroke(Modifiers::none(), "x", Some("你"))),
        Some("你".as_bytes().to_vec())
    );
    assert_eq!(encode_keystroke(&keystroke(Modifiers::none(), "q", None)), Some(vec![b'q']));
    let composing = Keystroke {
        ime_in_progress: true,
        ..keystroke(Modifiers::none(), "a", None)
    };
    assert_eq!(encode_keystroke(&composing), None);
    assert_eq!(encode_keystroke(&keystroke(platform(), "v", Some("v"))), None);
    let function = Modifiers { function: true, ..Modifiers::none() };
    assert_eq!(encode_keystroke(&keystroke(function, "left", None)), None);
}

#[test]
fn kitty_functional_keys_and_releases() {
    let events = TermMode { report_event_types: true, ..TermMode::empty() };
    let up = keystroke(Modifiers::none(), "up", None);
    assert_eq!(
        encode_keystroke_with_mode(&up, events, KittyKeyEventType::Release),
        Some(b"\x1b[1;1:3A".to_vec())
    );
    assert_eq!(
        encode_keystroke_with_mode(&up, events, KittyKeyEventType::Press),
        Some(b"\x1b[1;1:1A".to_vec())
    );
    let f3 = keystroke(Modifiers::none(), "f3", None);
    assert_eq!(
        encode_keystroke_with_mode(&f3, events, KittyKeyEventType::Repeat),
        Some(b"\x1b[13;1:2~".to_vec())
    );
    let x = keystroke(Modifiers::none(), "x", Some("x"));
    assert_eq!(
        encode_keystroke_with_mode(&x, events, KittyKeyEventType::Release),
        Some(b"\x1b[120;1:3u".to_vec())
    );
    assert_eq!(
        encode_keystroke_with_mode(&x, events, KittyKeyEventType::Press),
        Some(b"x".to_vec())
    );
    assert_eq!(encode_keystroke_with_mode(&x, TermMode::empty(), KittyKeyEventType::Release), None);
    let disambiguate = TermMode { disambiguate_esc_codes: true, ..TermMode::empty() };
    let escape = keystroke(Modifiers::none(), "escape", None);
    assert_eq!(
        encode_keystroke_with_mode(&escape, disambiguate, KittyKeyEventType::Press),
        Some(b"\x1b[27;1u".to_vec())
    );
    let shift_tab = keystroke(shift(), "tab", None);
    assert_eq!(
        encode_keystroke_with_mode(&shift_tab, disambiguate, KittyKeyEventType::Press),
        Some(b"\x1b[Z".to_vec())
    );
    let all = TermMode { report_all_keys_as_esc: true, ..TermMode::empty() };
    let key = keystroke(Modifiers::none(), "shift", None);
    assert_eq!(
        encode_keystroke_with_mode(&key, all, KittyKeyEventType::Press),
        Some(b"\x1b[57441;1u".to_vec())
    );
    assert_eq!(normalize_key_code_char('Q'), 'q');
    assert_eq!(normalize_key_code_char('Ä'), 'Ä');
}

#[test]
fn releases_of_ordinary_keys() {
    let events = TermMode {
        disambiguate_esc_codes: true,
        report_event_types: true,
        ..TermMode::empty()
    };
    let release = KittyKeyEventType::Release;
    let cases: [(Keystroke, Option<&[u8]>); 8] = [
        (keystroke(Modifiers::none(), "space", Some(" ")), Some(b"\x1b[32;1:3u")),
        (keystroke(shift(), "a", Some("A")), Some(b"\x1b[97;2:3u")),
        (keystroke(ctrl(), "c", None), Some(b"\x1b[99;5:3u")),
        (keystroke(Modifiers::none(), "dead", Some("é")), Some(b"\x1b[233;1:3u")),
        (keystroke(Modifiers::none(), "enter", None), None),
        (keystroke(Modifiers::none(), "tab", Some("\t")), None),
        (keystroke(Modifiers::none(), "shift", None), None),
        (keystroke(platform(), "c", Some("c")), None),
    ];
    for (key, sent) in cases {
        assert_eq!(
            encode_keystroke_with_mode(&key, events, release),
            sent.map(|bytes| bytes.to_vec()),
            "{}",
            key.key
        );
    }
    let composing = Keystroke { ime_in_progress: true, ..keystroke(Modifiers::none(), "a", None) };
    assert_eq!(encode_keystroke_with_mode(&composing, events, release), None);
}

#[test]
fn releases_carry_no_text() {
    let mode = TermMode {
        report_all_keys_as_esc: true,
        report_associated_text: true,
        report_event_types: true,
        ..TermMode::empty()
    };
    let a = keystroke(shift(), "a", Some("A"));
    assert_eq!(
        encode_keystroke_with_mode(&a, mode, KittyKeyEventType::Press),
        Some(b"\x1b[97;2:1;65u".to_vec())
    );
    assert_eq!(
        encode_keystroke_with_mode(&a, mode, KittyKeyEventType::Repeat),
        Some(b"\x1b[97;2:2;65u".to_vec())
    );
    assert_eq!(
        encode_keystroke_with_mode(&a, mode, KittyKeyEventType::Release),
        Some(b"\x1b[97;2:3u".to_vec())
    );
}

#[test]
fn text_goes_to_the_input_method() {
    let a = keystroke(Modifiers::none(), "a", Some("a"));
    assert!(should_defer_to_text_input(&a, true, true));
    assert!(!should_defer_to_text_input(&a, true, false));
    let enter = keystroke(Modifiers::none(), "enter", Some("\r"));
    assert!(!should_defer_to_text_input(&enter, true, true));
    let option_d = keystroke(alt(), "d", Some("∂"));
    assert!(!should_defer_to_text_input(&option_d, true, true));
    assert!(should_defer_to_text_input(&option_d, false, true));
    let dead_key = keystroke(alt(), "e", None);
    assert!(should_defer_to_text_input(&dead_key, false, true));
    assert!(!should_defer_to_text_input(&keystroke(ctrl(), "a", Some("a")), true, true));
    assert!(is_terminal_control_key_name("pagedown"));
    assert!(!is_terminal_control_key_name("space"));
}

#[test]
fn shortcuts() {
    assert!(is_paste_shortcut(&keystroke(platform(), "V", None)));
    let ctrl_shift = Modifiers { control: true, shift: true, ..Modifiers::none() };
    assert!(is_paste_shortcut(&keystroke(ctrl_shift, "v", None)));
    assert!(!is_paste_shortcut(&keystroke(ctrl(), "v", None)));
    assert!(is_select_all_shortcut(&keystroke(platform(), "a", None), true));
    assert!(!is_select_all_shortcut(&keystroke(platform(), "a", None), false));
    assert!(is_zoom_in_shortcut(&keystroke(platform(), "Plus", None)));
    assert!(is_zoom_in_shortcut(&keystroke(platform(), "x", Some("+"))));
    assert!(!is_zoom_in_shortcut(&keystroke(ctrl(), "=", None)));
    assert!(is_zoom_out_shortcut(&keystroke(platform(), "minus", None)));
    assert!(is_zoom_out_shortcut(&keystroke(platform(), "x", Some("_"))));
    assert!(!is_zoom_out_shortcut(&keystroke(platform(), "=", None)));
    assert!(key_matches("EQUAL", &["=", "equal"]));
    assert!(!key_matches("eq", &["=", "equal"]));
}
