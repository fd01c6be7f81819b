use agent_terminal::grid_cells::{CellSnapshot, SelectionPoint};
use agent_terminal::keyboard::{Modifiers, TermMode};
use agent_terminal::mouse::{
    encode_alt_scroll_bytes, encode_mouse_report, encode_normal_mouse_pos, mouse_button_code,
    mouse_grid_point, mouse_modifiers, mouse_move_button_code, on_scroll_wheel,
    repeat_wheel_report, ExternalFileDragState, FocusActivationMouseGuard, MouseButton,
    MouseOutcome, MouseState,
};
use agent_terminal::terminal::GridSize;

fn cell(ch: char) -> CellSnapshot {
    CellSnapshot { ch, ..CellSnapshot::default() }
}

fn forced_double(ch: char) -> CellSnapshot {
    CellSnapshot { ch, width_cols: 2, expands_layout: true, ..CellSnapshot::default() }
}

fn shift() -> Modifiers {
    Modifiers { shift: true, ..Modifiers::none() }
}

fn sgr() -> TermMode {
    TermMode { sgr_mouse: true, mouse_report_click: true, ..TermMode::empty() }
}

#[test]
fn external_file_drag_suppresses_terminal_mouse_until_drop_finishes() {
    let mut drag = ExternalFileDragState::new();

    drag.update_hover(true);
    assert!(drag.should_suppress_mouse_move(Some(MouseButton::Left)));
    assert!(drag.should_suppress_mouse_up(MouseButton::Left));

    drag.finish();
    assert!(!drag.should_suppress_mouse_move(Some(MouseButton::Left)));
    assert!(!drag.should_suppress_mouse_up(MouseButton::Left));
}

#[test]
fn external_file_drag_clears_stale_state_on_plain_mouse_move() {
    let mut drag = ExternalFileDragState::new();

    drag.update_hover(true);
    assert!(!drag.should_suppress_mouse_move(None));
    assert!(!drag.should_suppress_mouse_move(Some(MouseButton::Left)));
}

#[test]
fn codes_of_buttons() {
    assert_eq!(mouse_button_code(MouseButton::Left), Some(0));
    assert_eq!(mouse_button_code(MouseButton::Right), Some(1));
    assert_eq!(mouse_button_code(MouseButton::Middle), Some(2));
    assert_eq!(mouse_button_code(MouseButton::Navigate), None);
    assert_eq!(mouse_move_button_code(Some(MouseButton::Middle)), Some(33));
    assert_eq!(mouse_move_button_code(None), Some(35));
    let all = Modifiers { shift: true, alt: true, control: true, ..Modifiers::none() };
    assert_eq!(mouse_modifiers(all), 28);
}

#[test]
fn reports() {
    let none = Modifiers::none();
    assert_eq!(
        encode_mouse_report(4, 9, 1, true, none, sgr()),
        Some(b"\x1b[<1;10;5M".to_vec())
    );
    assert_eq!(
        encode_mouse_report(4, 9, 1, false, none, sgr()),
        Some(b"\x1b[<1;10;5m".to_vec())
    );
    let control = Modifiers { control: true, ..none };
    assert_eq!(
        encode_mouse_report(0, 0, 0, true, control, sgr()),
        Some(b"\x1b[<16;1;1M".to_vec())
    );
    let old = TermMode { mouse_report_click: true, ..TermMode::empty() };
    assert_eq!(encode_mouse_report(4, 9, 1, true, none, old), Some(b"\x1b[M!*%".to_vec()));
    assert_eq!(encode_mouse_report(4, 9, 1, false, none, old), Some(b"\x1b[M#*%".to_vec()));
    assert_eq!(encode_mouse_report(223, 0, 0, true, none, old), None);
    let utf8 = TermMode { utf8_mouse: true, ..old };
    assert_eq!(
        encode_mouse_report(223, 0, 0, true, none, utf8),
        Some(vec![0x1b, b'[', b'M', 32, 33, 0xc4, 0x80])
    );
    assert_eq!(encode_mouse_report(2015, 0, 0, true, none, utf8), None);
    assert_eq!(encode_normal_mouse_pos(95), [0xc2, 0x80]);
    assert_eq!(encode_normal_mouse_pos(2014), [0xdf, 0xbf]);
}

#[test]
fn wheels() {
    let none = Modifiers::none();
    assert_eq!(encode_alt_scroll_bytes(-1, 2), b"\x1bOA\x1bOA\x1bOC");
    assert_eq!(encode_alt_scroll_bytes(1, -1), b"\x1bOB\x1bOD");
    assert_eq!(
        repeat_wheel_report(0, 0, 0, 2, none, sgr()),
        b"\x1b[<64;1;1M\x1b[<64;1;1M"
    );
    assert_eq!(on_scroll_wheel(1, -1, 0, 0, none, sgr()), b"\x1b[<65;1;1M\x1b[<66;1;1M");
    assert!(on_scroll_wheel(1, -1, 0, 0, shift(), sgr()).is_empty());
    let pager = TermMode { alt_screen: true, alternate_scroll: true, ..TermMode::empty() };
    assert_eq!(on_scroll_wheel(0, 1, 0, 0, none, pager), b"\x1bOA");
    assert!(on_scroll_wheel(0, 1, 0, 0, none, TermMode::empty()).is_empty());
}

#[test]
fn places_follow_what_is_drawn() {
    let grid = GridSize { cols: 4, rows: 2 };
    let cells = vec![vec![cell('a'), forced_double('…'), cell('b'), cell('c')]];
    assert_eq!(mouse_grid_point(0, 1, grid, &cells), (0, 1));
    assert_eq!(mouse_grid_point(0, 2, grid, &cells), (0, 1));
    assert_eq!(mouse_grid_point(0, 3, grid, &cells), (0, 2));
    assert_eq!(mouse_grid_point(-5, -5, grid, &cells), (0, 0));
    assert_eq!(mouse_grid_point(9, 9, grid, &cells), (1, 3));
    assert_eq!(mouse_grid_point(9, 2, grid, &cells), (1, 2));
}

#[test]
fn the_click_that_activates_the_window_is_kept_back() {
    let mut guard = FocusActivationMouseGuard::new();
    assert!(guard.on_press(MouseButton::Left, true));
    assert!(!guard.on_release(MouseButton::Right));
    assert!(guard.on_release(MouseButton::Left));
    assert!(!guard.on_release(MouseButton::Left));
    assert!(!guard.on_press(MouseButton::Right, true));
    assert!(!guard.on_press(MouseButton::Left, false));
    assert!(guard.on_press(MouseButton::Left, true));
    guard.clear();
    assert!(!guard.on_release(MouseButton::Left));
}

fn screen() -> Vec<Vec<CellSnapshot>> {
    vec!["hello".chars().map(cell).collect(), "world".chars().map(cell).collect()]
}

#[test]
fn shift_selects() {
    let mut mouse = MouseState::new();
    let cells = screen();
    assert_eq!(mouse.selection_bounds(), None);
    let pressed =
        mouse.on_mouse_down(MouseButton::Left, shift(), 1, 2, sgr(), &cells, false);
    assert!(matches!(pressed, MouseOutcome::SelectionChanged));
    let same = mouse.on_mouse_move(Some(MouseButton::Left), shift(), 1, 2, sgr(), &cells);
    assert!(matches!(same, MouseOutcome::Taken));
    let moved =
        mouse.on_mouse_move(Some(MouseButton::Left), Modifiers::none(), 0, 3, sgr(), &cells);
    assert!(matches!(moved, MouseOutcome::SelectionChanged));
    assert_eq!(
        mouse.selection_bounds(),
        Some((SelectionPoint { row: 0, col: 3 }, SelectionPoint { row: 1, col: 2 }))
    );
    assert_eq!(mouse.current_selection_text(&cells).as_deref(), Some("lo\nwor"));
    let other = mouse.on_mouse_move(None, Modifiers::none(), 0, 0, sgr(), &cells);
    assert!(matches!(other, MouseOutcome::Ignored));
    let done = mouse.on_mouse_up(MouseButton::Left, Modifiers::none(), 0, 4, sgr(), &cells);
    assert!(matches!(done, MouseOutcome::SelectionDone(Some(text)) if text == "o\nwor"));
    assert_eq!(mouse.selection_bounds(), None);
    mouse.clear_selection();
    assert_eq!(mouse.current_selection_text(&cells), None);
}

#[test]
fn programs_get_reports() {
    let mut mouse = MouseState::new();
    let cells = screen();
    let none = Modifiers::none();
    let command = Modifiers { platform: true, ..none };
    let motion = TermMode { mouse_motion: true, sgr_mouse: true, ..TermMode::empty() };

    let link = mouse.on_mouse_down(MouseButton::Left, command, 0, 0, sgr(), &cells, true);
    assert!(matches!(link, MouseOutcome::OpenLink));
    let down = mouse.on_mouse_down(MouseButton::Right, none, 1, 2, sgr(), &cells, false);
    assert!(matches!(down, MouseOutcome::Report(bytes) if bytes == b"\x1b[<1;3;2M"));
    let up = mouse.on_mouse_up(MouseButton::Right, none, 1, 2, sgr(), &cells);
    assert!(matches!(up, MouseOutcome::Report(bytes) if bytes == b"\x1b[<1;3;2m"));
    let silent = mouse.on_mouse_down(MouseButton::Left, none, 1, 2, TermMode::empty(), &cells, false);
    assert!(matches!(silent, MouseOutcome::Ignored));

    let first = mouse.on_mouse_move(None, none, 0, 1, motion, &cells);
    assert!(matches!(first, MouseOutcome::Report(bytes) if bytes == b"\x1b[<35;2;1M"));
    let again = mouse.on_mouse_move(None, none, 0, 1, motion, &cells);
    assert!(matches!(again, MouseOutcome::Ignored));
    let drag_only = TermMode { mouse_drag: true, sgr_mouse: true, ..TermMode::empty() };
    let hover = mouse.on_mouse_move(None, none, 0, 2, drag_only, &cells);
    assert!(matches!(hover, MouseOutcome::Ignored));
    let dragged = mouse.on_mouse_move(Some(MouseButton::Left), none, 0, 2, drag_only, &cells);
    assert!(matches!(dragged, MouseOutcome::Report(bytes) if bytes == b"\x1b[<32;3;1M"));

    mouse.drag.update_hover(true);
    let files = mouse.on_mouse_move(Some(MouseButton::Left), none, 0, 3, motion, &cells);
    assert!(matches!(files, MouseOutcome::Taken));
    let dropped = mouse.on_mouse_up(MouseButton::Left, none, 0, 3, motion, &cells);
    assert!(matches!(dropped, MouseOutcome::Ignored));
}
