use agent_terminal::color::{ansi_to_rgb, AnsiColor, Colors, Flags, NamedColor};
use agent_terminal::grid_cells::{
    blank_cell, cell_advance_cols, cell_style_flags, extract_selection_text,
    logical_col_for_visual_col, normalize_selection_bounds, normalize_selection_col,
    row_text_without_wide_spacers, selection_contains_cell, snapshot_cell,
    visual_extra_cols_before, Cell, CellSnapshot, SelectionPoint,
};

fn narrow(ch: char) -> CellSnapshot {
    CellSnapshot { ch, ..Default::default() }
}

fn wide(ch: char) -> CellSnapshot {
    CellSnapshot { ch, width_cols: 2, spans_next_col: true, ..Default::default() }
}

fn spacer() -> CellSnapshot {
    CellSnapshot::default()
}

fn forced_double(ch: char) -> CellSnapshot {
    CellSnapshot {
        ch,
        width_cols: 2,
        spans_next_col: false,
        expands_layout: true,
        ..Default::default()
    }
}

fn default_cell() -> Cell {
    Cell {
        c: ' ',
        zerowidth: Vec::new(),
        fg: AnsiColor::Named(NamedColor::Foreground),
        bg: AnsiColor::Named(NamedColor::Background),
        flags: Flags::empty(),
        link: None,
    }
}

#[test]
fn grid_cells_cell_style_flags_preserve_terminal_text_styles() {
    let (bold, italic, underline, undercurl, strikethrough) = cell_style_flags(Flags {
        bold: true,
        italic: true,
        underline: true,
        undercurl: true,
        strikeout: true,
        ..Flags::empty()
    });

    assert!(bold);
    assert!(italic);
    assert!(underline);
    assert!(undercurl);
    assert!(strikethrough);
}

#[test]
fn every_kind_of_underline_underlines() {
    for flags in [
        Flags { double_underline: true, ..Flags::empty() },
        Flags { dotted_underline: true, ..Flags::empty() },
        Flags { dashed_underline: true, ..Flags::empty() },
    ] {
        assert_eq!(cell_style_flags(flags), (false, false, true, false, false));
    }
    assert_eq!(cell_style_flags(Flags::empty()), (false, false, false, false, false));
}

#[test]
fn advance_cols_wide_char_covers_two_columns() {
    assert_eq!(cell_advance_cols(&narrow('a')), 1);
    assert_eq!(cell_advance_cols(&wide('中')), 2);
}

#[test]
fn advance_cols_forced_double_width_stays_one_logical_column() {
    assert_eq!(cell_advance_cols(&forced_double('…')), 1);
}

#[test]
fn row_text_skips_wide_spacers() {
    let row = vec![wide('中'), spacer(), narrow('a'), wide('文'), spacer()];
    assert_eq!(row_text_without_wide_spacers(&row), "中a文");
}

#[test]
fn row_text_keeps_zerowidth_attached_to_base_char() {
    let mut cell = narrow('e');
    cell.zerowidth = vec!['\u{301}'];
    let row = vec![cell, narrow('x')];
    assert_eq!(row_text_without_wide_spacers(&row), "e\u{301}x");
}

#[test]
fn visual_extra_cols_counts_only_forced_double_width() {
    let row = vec![
        wide('中'),
        spacer(),
        forced_double('…'),
        narrow('a'),
        forced_double('—'),
    ];
    assert_eq!(visual_extra_cols_before(&row, 0), 0);
    assert_eq!(visual_extra_cols_before(&row, 2), 0);
    assert_eq!(visual_extra_cols_before(&row, 3), 1);
    assert_eq!(visual_extra_cols_before(&row, 5), 2);
}

/// The column of the screen in which a place between columns lies.
fn column(place: f32) -> usize {
    place.max(0.0).floor() as usize
}

#[test]
fn logical_col_inverts_visual_offsets() {
    let row = vec![
        wide('中'),
        spacer(),
        forced_double('…'),
        narrow('a'),
        narrow('b'),
    ];
    assert_eq!(logical_col_for_visual_col(&row, column(0.0)), 0);
    assert_eq!(logical_col_for_visual_col(&row, column(1.9)), 0);
    assert_eq!(logical_col_for_visual_col(&row, column(2.0)), 2);
    assert_eq!(logical_col_for_visual_col(&row, column(3.9)), 2);
    assert_eq!(logical_col_for_visual_col(&row, column(4.0)), 3);
    assert_eq!(logical_col_for_visual_col(&row, column(5.0)), 4);
    assert_eq!(logical_col_for_visual_col(&row, column(99.0)), 4);
    assert_eq!(logical_col_for_visual_col(&row, column(-3.0)), 0);
}

#[test]
fn logical_col_is_linear_without_special_widths() {
    let row: Vec<CellSnapshot> = "abcdef".chars().map(narrow).collect();
    for col in 0..6 {
        assert_eq!(logical_col_for_visual_col(&row, column(col as f32 + 0.5)), col);
    }
}

#[test]
fn normalize_selection_col_snaps_to_wide_char_start() {
    let row = vec![narrow('a'), wide('中'), spacer(), narrow('b')];
    assert_eq!(normalize_selection_col(&row, 2), 1);
    assert_eq!(normalize_selection_col(&row, 1), 1);
    assert_eq!(normalize_selection_col(&row, 3), 3);
    assert_eq!(normalize_selection_col(&row, 99), 3);
    assert_eq!(normalize_selection_col(&[], 5), 0);
}

#[test]
fn grid_cells_extract_selection_text_returns_expected_multiline_slice() {
    let lines = vec![
        vec![narrow('h'), narrow('i'), narrow(' '), narrow('x')],
        vec![narrow('y'), narrow('o'), narrow(' '), narrow(' ')],
    ];
    let start = SelectionPoint { row: 0, col: 1 };
    let end = SelectionPoint { row: 1, col: 1 };
    assert_eq!(extract_selection_text(&lines, start, end), "i x\nyo");
}

#[test]
fn grid_cells_extract_selection_text_skips_wide_char_spacers() {
    let lines = vec![vec![wide('中'), spacer(), narrow('a')]];
    let start = SelectionPoint { row: 0, col: 0 };
    let end = SelectionPoint { row: 0, col: 2 };
    assert_eq!(extract_selection_text(&lines, start, end), "中a");
}

#[test]
fn grid_cells_extract_selection_text_preserves_cell_zerowidth_sequence() {
    let mut flag = wide('\u{1F1E8}');
    flag.zerowidth = vec!['\u{1F1F3}'];
    let lines = vec![vec![flag, spacer(), narrow('!')]];
    let start = SelectionPoint { row: 0, col: 0 };
    let end = SelectionPoint { row: 0, col: 2 };
    assert_eq!(extract_selection_text(&lines, start, end), "\u{1F1E8}\u{1F1F3}!");
}

#[test]
fn selections_at_the_edges() {
    let lines = vec![vec![narrow('a'), narrow(' ')], vec![], vec![narrow('b')]];
    let start = SelectionPoint { row: 0, col: 0 };
    assert_eq!(
        extract_selection_text(&lines, start, SelectionPoint { row: 9, col: 9 }),
        "a\n\nb"
    );
    assert_eq!(
        extract_selection_text(&lines, SelectionPoint { row: 3, col: 0 }, SelectionPoint { row: 9, col: 0 }),
        ""
    );
    assert_eq!(
        extract_selection_text(&lines, SelectionPoint { row: 2, col: 0 }, start),
        ""
    );
}

#[test]
fn grid_cells_selection_bounds_are_normalized() {
    let a = SelectionPoint { row: 4, col: 10 };
    let b = SelectionPoint { row: 1, col: 2 };
    let (start, end) = normalize_selection_bounds(a, b);
    assert_eq!(start, b);
    assert_eq!(end, a);
    assert_eq!(normalize_selection_bounds(b, a), (start, end));
    assert!(selection_contains_cell(start, end, a.row, a.col));
    assert!(selection_contains_cell(start, end, b.row, b.col));
}

#[test]
fn selection_contains_cell_handles_multi_row_ranges() {
    let start = SelectionPoint { row: 1, col: 2 };
    let end = SelectionPoint { row: 3, col: 1 };
    assert!(!selection_contains_cell(start, end, 0, 5));
    assert!(!selection_contains_cell(start, end, 1, 1));
    assert!(selection_contains_cell(start, end, 1, 2));
    assert!(selection_contains_cell(start, end, 2, 0));
    assert!(selection_contains_cell(start, end, 3, 1));
    assert!(!selection_contains_cell(start, end, 3, 2));
}

#[test]
fn snapshot_cell_wide_char_and_spacer_semantics() {
    let colors = Colors::new();

    let wide_cell = Cell {
        c: '中',
        flags: Flags { wide_char: true, ..Flags::empty() },
        ..default_cell()
    };
    let snap = snapshot_cell(&wide_cell, &colors, &[]).expect("wide char is content");
    assert_eq!(snap.ch, '中');
    assert_eq!(snap.width_cols, 2);
    assert!(snap.spans_next_col);
    assert!(!snap.expands_layout);

    let spacer_cell = Cell {
        flags: Flags { wide_char_spacer: true, ..Flags::empty() },
        ..default_cell()
    };
    assert!(snapshot_cell(&spacer_cell, &colors, &[]).is_none());
}

#[test]
fn snapshot_cell_hidden_blanks_content_and_inverse_swaps_colors() {
    let colors = Colors::new();

    let hidden = Cell {
        c: 'x',
        zerowidth: vec!['\u{301}'],
        flags: Flags { hidden: true, ..Flags::empty() },
        ..default_cell()
    };
    let snap = snapshot_cell(&hidden, &colors, &[]).expect("hidden cell keeps its slot");
    assert_eq!(snap.ch, ' ');
    assert!(snap.zerowidth.is_empty());
    assert!(snap.is_blank());

    let inverse = Cell {
        c: 'y',
        fg: AnsiColor::Named(NamedColor::Red),
        bg: AnsiColor::Named(NamedColor::Background),
        flags: Flags { inverse: true, ..Flags::empty() },
        ..default_cell()
    };
    let snap = snapshot_cell(&inverse, &colors, &[]).expect("inverse cell is content");
    assert_eq!(
        snap.bg,
        Some(ansi_to_rgb(
            AnsiColor::Named(NamedColor::Red),
            &colors,
            Flags::empty(),
            true
        ))
    );
}

#[test]
fn inverse_swaps_resolved_colors_after_bold_variant() {
    let colors = Colors::new();

    let cell = Cell {
        c: 'z',
        fg: AnsiColor::Named(NamedColor::Red),
        bg: AnsiColor::Named(NamedColor::Background),
        flags: Flags { inverse: true, bold: true, ..Flags::empty() },
        ..default_cell()
    };
    let snap = snapshot_cell(&cell, &colors, &[]).expect("content cell");

    let bold = Flags { bold: true, ..Flags::empty() };
    let bright_red = ansi_to_rgb(AnsiColor::Named(NamedColor::Red), &colors, bold, true);
    let plain_red = ansi_to_rgb(AnsiColor::Named(NamedColor::Red), &colors, Flags::empty(), true);
    assert_eq!(snap.bg, Some(bright_red));
    assert_ne!(snap.bg, Some(plain_red));
    assert_eq!(
        snap.fg,
        ansi_to_rgb(
            AnsiColor::Named(NamedColor::Background),
            &colors,
            Flags::empty(),
            false
        )
    );
}

#[test]
fn snapshot_cell_forced_double_width_expands_layout_only() {
    let colors = Colors::new();
    let cell = Cell { c: '…', link: Some("https://a.test".to_string()), ..default_cell() };
    let snap = snapshot_cell(&cell, &colors, &['…']).expect("content cell");
    assert!(snap.expands_layout);
    assert!(!snap.spans_next_col);
    assert_eq!(snap.width_cols, 2);
    assert_eq!(cell_advance_cols(&snap), 1);
    assert_eq!(snap.link.as_deref(), Some("https://a.test"));
    assert_eq!(snap.text(), "…");
}

#[test]
fn blank_cells() {
    let cell = blank_cell((1, 2, 3));
    assert!(cell.is_blank());
    assert_eq!(cell.fg, (1, 2, 3));
    assert_eq!(cell.bg, None);
    assert!(!narrow('a').is_blank());
}
