use agent_terminal::cli::Theme;
use agent_terminal::grid_cells::{CellSnapshot, SelectionPoint};
use agent_terminal::keyboard::{Keystroke, Modifiers};
use agent_terminal::render::{
    cursor_width_cols, image_is_visible, link_at, link_hover_cell, paint_row, palette_for,
    status_line, visual_offset, Underline,
};
use agent_terminal::sixel::images::TerminalImage;
use agent_terminal::snapshot_tab::{SnapshotAction, SnapshotTab};

fn cell(ch: char) -> CellSnapshot {
    CellSnapshot { ch, ..CellSnapshot::default() }
}

fn wide(ch: char) -> CellSnapshot {
    CellSnapshot { ch, width_cols: 2, spans_next_col: true, ..CellSnapshot::default() }
}

fn forced_double(ch: char) -> CellSnapshot {
    CellSnapshot { ch, width_cols: 2, expands_layout: true, ..CellSnapshot::default() }
}

#[test]
fn palettes() {
    assert_eq!(palette_for(Theme::Default).terminal_bg, 0x000000);
    assert_eq!(palette_for(Theme::EyeCare).terminal_bg, 0x1b241e);
    assert_eq!(palette_for(Theme::Default).cursor_bg, palette_for(Theme::EyeCare).cursor_bg);
}

#[test]
fn a_row_is_painted_cell_by_cell() {
    let mut linked = cell('x');
    linked.link = Some("http://a".to_string());
    linked.undercurl = true;
    linked.strikethrough = true;
    linked.fg = (7, 8, 9);
    let row = vec![forced_double('…'), wide('中'), cell('?'), linked, cell(' ')];
    let selection = Some((SelectionPoint { row: 2, col: 1 }, SelectionPoint { row: 2, col: 3 }));
    let painted = paint_row(&row, 2, selection, Some((1, 2, 3)));
    let places: Vec<(usize, usize, u8, bool)> = painted
        .iter()
        .map(|paint| (paint.col, paint.visual_col, paint.width_cols, paint.selected))
        .collect();
    assert_eq!(
        places,
        vec![(0, 0, 2, false), (1, 2, 2, true), (3, 4, 1, true), (4, 5, 1, false)]
    );
    let text = painted[2].text.as_ref().expect("text");
    assert_eq!(text.text, "x");
    assert_eq!(text.color, (1, 2, 3));
    assert_eq!(text.underline, Some(Underline { red: 1, green: 2, blue: 3, wavy: true }));
    assert_eq!(text.strikethrough, Some((7, 8, 9)));
    assert_eq!(painted[1].text.as_ref().expect("text").strikethrough, None);
    assert!(painted[3].text.is_none());
    let plain = paint_row(&row, 2, None, None);
    assert_eq!(plain[2].text.as_ref().expect("text").underline, None);
}

#[test]
fn links_under_the_mouse() {
    let mut linked = wide('中');
    linked.link = Some("http://a".to_string());
    let row = vec![forced_double('…'), linked, cell(' '), cell('z')];
    assert_eq!(link_hover_cell(&row, 1), None);
    assert_eq!(link_hover_cell(&row, 2), Some((1, 2, 2)));
    assert_eq!(link_hover_cell(&row, 3), Some((1, 2, 2)));
    assert_eq!(link_hover_cell(&row, 4), None);
    let cells = vec![row];
    assert_eq!(link_at(&cells, 0, 1).as_deref(), Some("http://a"));
    assert_eq!(link_at(&cells, 0, 2), None);
    assert_eq!(link_at(&cells, 1, 0), None);
    assert_eq!(visual_offset(&cells, 0, 3), 1);
    assert_eq!(visual_offset(&cells, 5, 3), 0);
    assert_eq!(cursor_width_cols(&cells, 0, 1), 2);
    assert_eq!(cursor_width_cols(&cells, 0, 9), 1);
}

#[test]
fn images_on_the_screen() {
    let image = TerminalImage { row: -2, col: 0, cols: 1, rows: 3, alt_screen: false, image: () };
    assert!(image_is_visible(&image, false, 24));
    assert!(!image_is_visible(&image, true, 24));
    let above = TerminalImage { rows: 2, ..image };
    assert!(!image_is_visible(&above, false, 24));
    let below = TerminalImage { row: 24, ..above };
    assert!(!image_is_visible(&below, false, 24));
}

#[test]
fn the_status_line() {
    assert_eq!(status_line("zsh", "connected", &None), "agent terminal | zsh | connected");
    assert_eq!(
        status_line("zsh", "connected", &Some("n".to_string())),
        "agent terminal | zsh | connected | note: n"
    );
}

fn press(key: &str, platform: bool) -> Keystroke {
    Keystroke {
        modifiers: Modifiers { platform, ..Modifiers::none() },
        key: key.to_string(),
        key_char: None,
        ime_in_progress: false,
    }
}

fn tab() -> SnapshotTab {
    let lines = vec![
        "one ".chars().map(cell).collect(),
        "two ".chars().map(cell).collect(),
        vec![wide('中'), cell(' '), cell('x'), cell(' ')],
    ];
    SnapshotTab::new("snap 1".to_string(), lines, 4, 2)
}

#[test]
fn a_snapshot_is_hit_where_it_is_drawn() {
    let lines = vec![vec![forced_double('…'), forced_double('↑'), wide('中'), cell(' ')], vec![]];
    let tab = SnapshotTab::new("snap 1".to_string(), lines, 4, 2);
    let cols: Vec<usize> = (-1..9).map(|col| tab.mouse_grid_point(0, col, 2).col).collect();
    assert_eq!(cols, vec![0, 0, 0, 1, 1, 2, 2, 2, 2, 2]);
    assert_eq!(tab.mouse_grid_point(1, 9, 2).row, 1);
    let empty = SnapshotTab::new("snap 2".to_string(), Vec::new(), 4, 2);
    assert_eq!(empty.mouse_grid_point(3, 3, 2), SelectionPoint { row: 0, col: 0 });
}

#[test]
fn a_snapshot_is_scrolled() {
    let mut tab = tab();
    assert_eq!(tab.title(), "snap 1");
    assert_eq!((tab.lines().len(), tab.cols(), tab.top_line()), (3, 4, 1));
    assert!(tab.on_scroll_wheel(-5, 2));
    assert_eq!(tab.top_line(), 0);
    assert!(!tab.on_scroll_wheel(-1, 2));
    assert!(!tab.on_scroll_wheel(0, 2));
    assert!(tab.on_scroll_wheel(9, 2));
    assert_eq!(tab.top_line(), 1);
}

#[test]
fn a_snapshot_is_selected_and_copied() {
    let mut tab = tab();
    assert_eq!(tab.all_text(), "one\ntwo\n中x");
    assert_eq!(tab.selection_text(), None);
    assert!(matches!(
        tab.on_key_down(&press("c", true), true),
        SnapshotAction::Copy(text) if text == "one\ntwo\n中x"
    ));
    assert!(!tab.on_mouse_drag(true, SelectionPoint { row: 0, col: 0 }));
    let start = tab.mouse_grid_point(0, 1, 2);
    assert_eq!(start, SelectionPoint { row: 1, col: 1 });
    assert!(!tab.on_mouse_down(false, start));
    assert!(tab.on_mouse_down(true, start));
    let end = tab.mouse_grid_point(9, 1, 2);
    assert_eq!(end, SelectionPoint { row: 2, col: 0 });
    assert!(tab.on_mouse_drag(true, end));
    assert_eq!(tab.selection_text().as_deref(), Some("wo\n中"));
    assert!(matches!(
        tab.on_key_down(&press("c", true), true),
        SnapshotAction::Copy(text) if text == "wo\n中"
    ));
    assert!(matches!(tab.on_key_down(&press("escape", false), true), SnapshotAction::Changed));
    assert_eq!(tab.selection_bounds(), None);
    assert!(matches!(tab.on_key_down(&press("escape", false), true), SnapshotAction::Ignored));
    assert!(matches!(tab.on_key_down(&press("a", true), true), SnapshotAction::Changed));
    assert_eq!(tab.selection_text().as_deref(), Some("one\ntwo\n中x"));
    assert!(matches!(tab.on_key_down(&press("c", true), false), SnapshotAction::Ignored));
    assert_eq!(tab.normalize_point(9, 9), SelectionPoint { row: 2, col: 3 });
}
