use agent_terminal::grid_cells::{
    extract_selection_text, normalize_selection_bounds, selection_contains_cell, CellSnapshot,
    SelectionPoint,
};
use agent_terminal::input::{
    allow_ax_override, ax_text_matches_screen_context, ax_text_matches_visible_input_context,
    dropped_paths_text, evaluate_paste_risk, is_high_priority_control_bytes, on_key_up,
    paste_input, probable_ascii_prefix_noise, rewrite_terminal_input_line,
    shell_escape_path, AxDecision, InputState, KeyAction, KeyContext, PasteRisk,
};
use agent_terminal::input_mirror::InputLineMirror;
use agent_terminal::keyboard::{Keystroke, Modifiers, TermMode};

fn cell(ch: char) -> CellSnapshot {
    CellSnapshot { ch, ..CellSnapshot::default() }
}

fn wide_cell(ch: char) -> CellSnapshot {
    CellSnapshot { ch, width_cols: 2, spans_next_col: true, ..CellSnapshot::default() }
}

fn cell_with_zerowidth(ch: char, zerowidth: Vec<char>) -> CellSnapshot {
    CellSnapshot { ch, zerowidth, ..CellSnapshot::default() }
}

const RISKY: &str = "中文内容一二三四五六七八九十中文内容一二三四五六七八九十\n第二行中文内容一二三四五六七八九十中文内容一二三四五六七八九十\n第三行中文内容一二三四五六七八九十中文内容一二三四五六七八九十\n第四行中文内容一二三四五六七八九十中文内容一二三四五六七八九十\n";

#[test]
fn paste_risk_requires_multiline_and_non_ascii_heavy_content() {
    let safe = "line1\nline2\nline3\nline4";
    assert!(evaluate_paste_risk(safe).is_none());
    assert!(evaluate_paste_risk(RISKY).is_some());
}

#[test]
fn paste_risk_ignores_short_text_even_if_non_ascii() {
    let short = "你好\n你好\n你好\n你好\n";
    assert!(evaluate_paste_risk(short).is_none());
}

#[test]
fn paste_risk_counts_exactly() {
    let line = format!("{}{}\n", "中".repeat(7), "a".repeat(13));
    let text = line.repeat(6);
    assert_eq!(
        evaluate_paste_risk(&text),
        Some(PasteRisk { line_count: 6, char_count: 126, visible_chars: 120, non_ascii_chars: 42 })
    );
    let one_line = text.replace('\n', " ");
    assert_eq!(
        evaluate_paste_risk(&one_line),
        Some(PasteRisk { line_count: 1, char_count: 126, visible_chars: 120, non_ascii_chars: 42 })
    );
    let below = format!("{one_line}a");
    assert_eq!(evaluate_paste_risk(&below), None);
}

#[test]
fn many_lines_are_enough_for_a_question() {
    let script = "curl -fsSL https://example.org/i | sh\n".repeat(4);
    assert_eq!(
        evaluate_paste_risk(&script),
        Some(PasteRisk { line_count: 4, char_count: 152, visible_chars: 132, non_ascii_chars: 0 })
    );
    let three_lines = "a".repeat(50) + "\n";
    assert_eq!(evaluate_paste_risk(&three_lines.repeat(3)), None);
    assert_eq!(evaluate_paste_risk(&"\n".repeat(119)), None);
    assert!(evaluate_paste_risk(&"\n".repeat(120)).is_some());
    assert_eq!(evaluate_paste_risk(&" ".repeat(200)), None);
}

#[test]
fn input_selection_bounds_are_normalized() {
    let a = SelectionPoint { row: 4, col: 10 };
    let b = SelectionPoint { row: 1, col: 2 };
    let (start, end) = normalize_selection_bounds(a, b);
    assert_eq!(start, b);
    assert_eq!(end, a);
}

#[test]
fn selection_contains_handles_single_and_multi_line_ranges() {
    let start = SelectionPoint { row: 1, col: 3 };
    let end = SelectionPoint { row: 3, col: 2 };

    assert!(selection_contains_cell(start, end, 1, 3));
    assert!(selection_contains_cell(start, end, 2, 50));
    assert!(selection_contains_cell(start, end, 3, 2));
    assert!(!selection_contains_cell(start, end, 0, 10));
    assert!(!selection_contains_cell(start, end, 1, 2));
    assert!(!selection_contains_cell(start, end, 3, 3));
}

#[test]
fn input_extract_selection_text_returns_expected_multiline_slice() {
    let cells: Vec<Vec<CellSnapshot>> = vec![
        "012345".chars().map(cell).collect(),
        "abcdef".chars().map(cell).collect(),
        "uvwxyz".chars().map(cell).collect(),
    ];

    let text = extract_selection_text(
        &cells,
        SelectionPoint { row: 0, col: 2 },
        SelectionPoint { row: 2, col: 3 },
    );

    assert_eq!(text, "2345\nabcdef\nuvwx");
}

#[test]
fn input_extract_selection_text_skips_wide_char_spacers() {
    let cells = vec![vec![
        wide_cell('你'),
        cell(' '),
        wide_cell('好'),
        cell(' '),
        cell('X'),
    ]];

    let text = extract_selection_text(
        &cells,
        SelectionPoint { row: 0, col: 0 },
        SelectionPoint { row: 0, col: 4 },
    );

    assert_eq!(text, "你好X");
}

#[test]
fn input_extract_selection_text_preserves_cell_zerowidth_sequence() {
    let cells = vec![vec![
        cell('A'),
        cell_with_zerowidth('\u{1f4c1}', vec!['\u{fe0f}']),
        cell('B'),
    ]];

    let text = extract_selection_text(
        &cells,
        SelectionPoint { row: 0, col: 0 },
        SelectionPoint { row: 0, col: 2 },
    );

    assert_eq!(text, "A\u{1f4c1}\u{fe0f}B");
}

#[test]
fn probable_prefix_noise_detects_short_ascii_prefix() {
    assert!(probable_ascii_prefix_noise("3n你好世界", "你好世界"));
    assert!(probable_ascii_prefix_noise("nnn你好世界", "你好世界"));
    assert!(!probable_ascii_prefix_noise("前缀你好世界", "你好世界"));
    assert!(!probable_ascii_prefix_noise("12345你好世界", "你好世界"));
    assert!(!probable_ascii_prefix_noise("你好世界abc", "你好世界"));
}

#[test]
fn ax_context_rejects_other_tab_text_that_extends_current_model() {
    assert!(!ax_text_matches_visible_input_context("abcd", "abc", "prompt abc", "prompt abc",));
}

#[test]
fn ax_context_accepts_shell_rewritten_visible_input() {
    assert!(ax_text_matches_visible_input_context(
        "git status",
        "abc",
        "prompt git status",
        "prompt git status",
    ));
}

#[test]
fn shell_escape_path_wraps_and_escapes_paths_for_shell_input() {
    assert_eq!(shell_escape_path("/tmp/a file's name.txt"), "'/tmp/a file'\\''s name.txt'");
}

#[test]
fn dropped_paths_text_joins_absolute_shell_escaped_paths() {
    let text = dropped_paths_text(&[
        "/tmp/one file.txt".to_string(),
        "/tmp/two's file.txt".to_string(),
    ]);
    assert_eq!(text, "'/tmp/one file.txt' '/tmp/two'\\''s file.txt'");
}

#[test]
fn pasted_text_is_cleaned() {
    assert_eq!(paste_input("a\r\nb\nc\rd", false), b"a\rb\rc\rd");
    assert_eq!(paste_input("x\x1b[201~y", false), b"x[201~y");
    assert_eq!(paste_input("x\x1b[201~\ny", true), b"\x1b[200~x[201~\ry\x1b[201~");
    assert_eq!(paste_input("", true), b"");
}

#[test]
fn the_screen_decides_about_a_tools_text() {
    let row: Vec<CellSnapshot> = "$ ls  ".chars().map(cell).collect();
    let cells = vec![row, vec![]];
    assert!(ax_text_matches_screen_context("ls", "x", &cells, 0, 4));
    assert!(!ax_text_matches_screen_context("cd", "x", &cells, 0, 4));
    assert!(!ax_text_matches_screen_context("lsx", "ls", &cells, 0, 3));
    assert!(ax_text_matches_screen_context("", "ls", &cells, 0, 3));
    assert!(ax_text_matches_screen_context("cd", "x", &cells, 1, 0));
    assert!(ax_text_matches_screen_context("cd", "x", &cells, 7, 0));
}

#[test]
fn tools_wait_after_a_key_and_a_gained_focus() {
    assert!(allow_ax_override(false, None, None));
    assert!(allow_ax_override(false, Some(250), Some(250)));
    assert!(!allow_ax_override(false, Some(249), None));
    assert!(!allow_ax_override(false, None, Some(0)));
    assert!(!allow_ax_override(true, None, None));
}

#[test]
fn a_rewrite_steps_back_over_characters() {
    let mut line = InputLineMirror::new();
    line.set_state("a😀中".to_string(), 1);
    assert_eq!(
        rewrite_terminal_input_line(&line),
        "\x15a😀中\x1b[D\x1b[D".as_bytes()
    );
}

#[test]
fn control_bytes_go_first() {
    assert!(is_high_priority_control_bytes(b"\r"));
    assert!(is_high_priority_control_bytes(b"\x1b[A"));
    assert!(is_high_priority_control_bytes(&[0x7f]));
    assert!(!is_high_priority_control_bytes("ab中".as_bytes()));
    assert!(!is_high_priority_control_bytes(b""));
}

fn press(key: &str, modifiers: Modifiers, key_char: Option<&str>) -> Keystroke {
    Keystroke {
        modifiers,
        key: key.to_string(),
        key_char: key_char.map(|text| text.to_string()),
        ime_in_progress: false,
    }
}

fn context(mode: TermMode) -> KeyContext {
    KeyContext { mode, option_as_meta: true, native_text_input: true, held: false }
}

fn command() -> Modifiers {
    Modifiers { platform: true, ..Modifiers::none() }
}

#[test]
fn keys_lead_to_actions() {
    let mut state = InputState::new();
    let plain = context(TermMode::empty());
    let none = Modifiers::none();

    let (action, bytes) = state.on_key_down(&press("a", none, Some("a")), plain, &None);
    assert_eq!((action, bytes.len()), (KeyAction::Defer, 0));
    assert_eq!(state.replace_text("ls 中"), "ls 中".as_bytes());
    assert_eq!(state.line.line(), "ls 中");

    let (action, bytes) = state.on_key_down(&press("backspace", none, None), plain, &None);
    assert_eq!(action, KeyAction::Send { first: true, enter: false });
    assert_eq!(bytes, vec![0x7f]);
    assert_eq!(state.line.line(), "ls ");

    let (action, bytes) = state.on_key_down(&press("enter", none, None), plain, &None);
    assert_eq!(action, KeyAction::Send { first: true, enter: true });
    assert_eq!(bytes, b"\r");
    assert_eq!(state.line.line(), "");

    state.replace_text("rm -rf");
    let full_screen = context(TermMode { alt_screen: true, ..TermMode::empty() });
    let (action, bytes) = state.on_key_down(&press("a", command(), None), full_screen, &None);
    assert_eq!((action, bytes.len()), (KeyAction::NothingToClear, 0));
    let (action, bytes) = state.on_key_down(&press("a", command(), None), plain, &None);
    assert_eq!((action, bytes), (KeyAction::ClearLine, vec![0x15]));
    assert_eq!(state.line.line(), "");

    let (action, _) = state.on_key_down(&press("+", command(), None), plain, &None);
    assert_eq!(action, KeyAction::ZoomIn);
    let (action, _) = state.on_key_down(&press("-", command(), None), plain, &None);
    assert_eq!(action, KeyAction::ZoomOut);
    let (action, bytes) = state.on_key_down(&press("x", command(), None), plain, &None);
    assert_eq!((action, bytes.len()), (KeyAction::Ignore, 0));

    let all_keys = TermMode { report_all_keys_as_esc: true, ..TermMode::empty() };
    let (action, bytes) = state.on_key_down(&press("a", none, Some("a")), context(all_keys), &None);
    assert_eq!(action, KeyAction::Send { first: true, enter: false });
    assert_eq!(bytes, b"\x1b[97;1u");
}

#[test]
fn pasting_asks_where_it_is_risky() {
    let mut state = InputState::new();
    let bracketed = context(TermMode { bracketed_paste: true, ..TermMode::empty() });
    let paste = press("v", command(), None);

    let (action, _) = state.on_key_down(&paste, bracketed, &None);
    assert_eq!(action, KeyAction::NothingToPaste);

    state.set_marked_text("に", None);
    let (action, bytes) = state.on_key_down(&paste, bracketed, &Some("ls".to_string()));
    assert_eq!(action, KeyAction::Paste);
    assert_eq!(bytes, "に\x1b[200~ls\x1b[201~".as_bytes());
    assert_eq!(state.line.line(), "にls");
    assert_eq!(state.marked_text, None);

    let risky = Some(RISKY.to_string());
    let (action, bytes) = state.on_key_down(&paste, bracketed, &risky);
    assert!(matches!(action, KeyAction::AskBeforePaste(risk) if risk.line_count == 4));
    assert!(bytes.is_empty());
    let (action, _) = state.on_key_down(&paste, bracketed, &risky);
    assert_eq!(action, KeyAction::PasteBusy);
    assert!(state.answer_paste_prompt(false, RISKY, true).is_empty());
    assert!(!state.paste_prompt_open);
    assert_eq!(state.line.line(), "にls");
    assert_eq!(state.answer_paste_prompt(true, "x\ny", false), b"x\ry");
}

#[test]
fn compositions() {
    let mut state = InputState::new();
    assert_eq!(state.marked_text_range(), None);
    assert_eq!(state.text_for_range(0, 1), None);
    assert_eq!(state.selected_text_range(false), Some((0, 0)));
    assert_eq!(state.selected_text_range(true), None);
    state.set_marked_text("a😀中", None);
    assert_eq!(state.marked_text_range(), Some((0, 4)));
    assert_eq!(state.text_for_range(1, 3), Some(("😀".to_string(), (1, 3))));
    assert_eq!(state.text_for_range(3, 99), Some(("中".to_string(), (3, 4))));
    assert_eq!(state.text_for_range(5, 6), Some((String::new(), (4, 4))));
    assert_eq!(state.text_for_range(1, 1), Some((String::new(), (1, 1))));
    assert_eq!(state.text_for_range(3, 1), Some((String::new(), (3, 3))));
    assert_eq!(state.commit_marked_text(), "a😀中".as_bytes());
    assert_eq!(state.line.line(), "a😀中");
    assert!(state.commit_marked_text().is_empty());
    state.set_marked_text("x", None);
    state.set_marked_text("", None);
    assert_eq!(state.marked_text, None);
}

#[test]
fn the_input_method_selects_in_a_composition() {
    let mut state = InputState::new();
    state.set_marked_text("a😀中", Some((1, 3)));
    assert_eq!(state.selected_text_range(false), Some((1, 3)));
    assert_eq!(state.selected_text_range(true), None);
    state.set_marked_text("a😀中", Some((2, 99)));
    assert_eq!(state.selected_text_range(false), Some((2, 4)));
    state.set_marked_text("a😀中", Some((3, 1)));
    assert_eq!(state.selected_text_range(false), Some((3, 3)));
    state.set_marked_text("a😀中", None);
    assert_eq!(state.selected_text_range(false), Some((4, 4)));
    state.set_marked_text("ab", Some((0, 1)));
    state.commit_marked_text();
    assert_eq!(state.marked_selection, None);
    assert_eq!(state.selected_text_range(false), Some((0, 0)));
    state.set_marked_text("ab", Some((0, 1)));
    state.replace_text("c");
    assert_eq!(state.selected_text_range(false), Some((0, 0)));
}

#[test]
fn typing_keeps_what_was_published() {
    let mut state = InputState::new();
    state.line.mark_published("ls".to_string(), 1);
    state.replace_text("x");
    state.set_marked_text("m", None);
    state.on_key_down(
        &press("v", command(), None),
        context(TermMode::empty()),
        &Some("y".to_string()),
    );
    state.drop_paths(&["/a".to_string()]);
    assert_eq!(state.line.line(), "xmy'/a'");
    assert_eq!(state.line.last_published(), ("ls", 1));
}

#[test]
fn typed_text_is_replaced_by_range() {
    let mut state = InputState::new();
    state.replace_text("git 😀 status");
    state.line.mark_published("git".to_string(), 3);
    assert_eq!(
        state.replace_text_in_range(Some((4, 6)), "中", false),
        "\x15git 中 status\x1b[D\x1b[D\x1b[D\x1b[D\x1b[D\x1b[D\x1b[D".as_bytes()
    );
    assert_eq!((state.line.line(), state.line.cursor_utf16()), ("git 中 status", 5));
    assert_eq!(state.line.last_published(), ("git", 3));
    assert_eq!(state.replace_text_in_range(Some((0, 12)), "ls", false), b"\x15ls");
    assert_eq!(state.replace_text_in_range(None, " -l", false), b" -l");
    assert_eq!(state.replace_text_in_range(Some((2, 2)), "a", false), b"a");
    assert_eq!(state.replace_text_in_range(Some((2, 99)), "b", false), b"b");
    assert_eq!(state.replace_text_in_range(Some((0, 2)), "c", true), b"c");
    state.set_marked_text("m", Some((0, 1)));
    assert_eq!(state.replace_text_in_range(Some((0, 1)), "d", false), b"d");
    assert_eq!(state.line.line(), "ls -labcd");
    assert_eq!((state.marked_text, state.marked_selection), (None, None));
}

#[test]
fn dropped_files_are_typed() {
    let mut state = InputState::new();
    state.set_marked_text("m", None);
    assert!(state.drop_paths(&[]).is_empty());
    assert_eq!(state.marked_text.as_deref(), Some("m"));
    assert_eq!(state.drop_paths(&["/a b".to_string()]), b"m'/a b'");
    assert_eq!(state.line.line(), "m'/a b'");
}

#[test]
fn tools_replace_the_line_where_it_fits() {
    let row: Vec<CellSnapshot> = "$ git".chars().map(cell).collect();
    let cells = vec![row];
    let mut state = InputState::new();
    let (decision, _) =
        state.apply_external_ax_input_state("git".to_string(), 1, &cells, 0, 4, true);
    assert_eq!(decision, AxDecision::NotAtPrompt);
    state.set_marked_text("m", None);
    let (decision, _) =
        state.apply_external_ax_input_state("git".to_string(), 1, &cells, 0, 4, false);
    assert_eq!(decision, AxDecision::Composing);
    state.set_marked_text("", None);
    let (decision, bytes) =
        state.apply_external_ax_input_state("git".to_string(), 1, &cells, 0, 4, false);
    assert_eq!(decision, AxDecision::Applied);
    assert_eq!(bytes, b"\x15git\x1b[D\x1b[D");
    assert_eq!((state.line.line(), state.line.cursor_utf16()), ("git", 1));
    let (decision, _) =
        state.apply_external_ax_input_state("git".to_string(), 1, &cells, 0, 4, false);
    assert_eq!(decision, AxDecision::Unchanged);
    let (decision, bytes) =
        state.apply_external_ax_input_state("3ngit".to_string(), 5, &cells, 0, 4, false);
    assert_eq!(decision, AxDecision::Rejected { noise: true });
    assert!(bytes.is_empty());
    let (decision, _) =
        state.apply_external_ax_input_state("other".to_string(), 5, &cells, 0, 4, false);
    assert_eq!(decision, AxDecision::Rejected { noise: false });
    assert_eq!(state.line.line(), "git");
}

#[test]
fn releases_are_sent_where_asked_for() {
    let up = press("up", Modifiers::none(), None);
    assert_eq!(on_key_up(&up, TermMode::empty()), None);
    let events = TermMode { report_event_types: true, ..TermMode::empty() };
    assert_eq!(on_key_up(&up, events), Some(b"\x1b[1;1:3A".to_vec()));
}
