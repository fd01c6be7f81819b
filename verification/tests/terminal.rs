use agent_terminal::color::{AnsiColor, Colors, Flags, NamedColor};
use agent_terminal::grid_cells::{cell_style_flags, Cell, CellSnapshot, ScreenSnapshot};
use agent_terminal::keyboard::TermMode;
use agent_terminal::links::{
    annotate_plain_text_links_for_row, find_next_url_scheme, find_plain_text_links,
    is_url_body_char, is_url_trailing_punctuation,
};
use agent_terminal::sixel::parser::SixelStreamAction;
use agent_terminal::terminal::{
    adjust_font_size, batch_has_room, capture_snapshot_lines, compute_grid_size,
    current_cursor_anchor, effective_cursor_shape, focus_report, image_note,
    is_input_trace_enabled, parse_double_width_chars, plan_resize, probe_timings,
    refresh_snapshot, run_self_check, snapshot_to_lines, stream_step, tab_title, window_title,
    ClipboardType, CursorShape, GridSize, IndexedCell, LatencyDiagnostics, PendingTerminalEvent,
    PtyPixelSize, PtySampler, Resize, StreamStep, TermContent, TermEvent, TitleTrackingListener,
};

#[test]
fn plain_text_link_detection_trims_trailing_punctuation() {
    let links = find_plain_text_links("open https://example.com/path?q=1). next");
    assert_eq!(links, vec![(5, 33, "https://example.com/path?q=1".to_string())]);
}

#[test]
fn terminal_cell_style_flags_preserve_terminal_text_styles() {
    let (bold, italic, underline, undercurl, strikethrough) = cell_style_flags(Flags {
        bold: true,
        italic: true,
        underline: true,
        undercurl: true,
        strikeout: true,
        ..Flags::empty()
    });

    assert!(bold);
    assert!(italic);
    assert!(underline);
    assert!(undercurl);
    assert!(strikethrough);
}

#[test]
fn plain_text_link_annotation_preserves_osc8_links() {
    let mut row: Vec<CellSnapshot> = "go https://fallback.test"
        .chars()
        .map(|ch| CellSnapshot { ch, ..CellSnapshot::default() })
        .collect();
    row[3].link = Some("https://osc8.test".to_string());

    annotate_plain_text_links_for_row(&mut row);

    assert_eq!(row[3].link.as_deref(), Some("https://osc8.test"));
    assert_eq!(row[4].link.as_deref(), Some("https://fallback.test"));
}

#[test]
fn snapshot_to_lines_preserves_cell_zerowidth_sequence() {
    let snapshot = ScreenSnapshot {
        cells: vec![vec![
            CellSnapshot {
                ch: '\u{1f4c1}',
                zerowidth: vec!['\u{fe0f}'],
                ..CellSnapshot::default()
            },
            CellSnapshot { ch: ' ', ..CellSnapshot::default() },
        ]],
        cursor_row: 0,
        cursor_col: 0,
        cursor_visible: true,
        alt_screen: false,
    };

    assert_eq!(snapshot_to_lines(&snapshot), vec!["\u{1f4c1}\u{fe0f}"]);
}

#[test]
fn several_links_in_a_text() {
    let links = find_plain_text_links("中 http://a.b, (https://c.d/e) https:// mailto:x@y.z");
    assert_eq!(links.len(), 2);
    assert_eq!(links[0], (2, 12, "http://a.b".to_string()));
    assert_eq!(links[1], (15, 28, "https://c.d/e".to_string()));
    assert!(find_plain_text_links("no link here").is_empty());
    let text: Vec<char> = "x http://".chars().collect();
    assert_eq!(find_next_url_scheme(&text, 0), Some((2, "http://")));
    assert_eq!(find_next_url_scheme(&text, 3), None);
    assert!(is_url_body_char('%'));
    assert!(!is_url_body_char(' '));
    assert!(is_url_trailing_punctuation('.'));
    assert!(!is_url_trailing_punctuation('/'));
}

#[test]
fn links_cover_the_spacers_of_wide_characters() {
    let mut row: Vec<CellSnapshot> = Vec::new();
    for ch in "http://a/".chars() {
        row.push(CellSnapshot { ch, ..CellSnapshot::default() });
    }
    row.push(CellSnapshot {
        ch: '中',
        width_cols: 2,
        spans_next_col: true,
        ..CellSnapshot::default()
    });
    row.push(CellSnapshot::default());
    row.push(CellSnapshot { ch: 'z', ..CellSnapshot::default() });
    annotate_plain_text_links_for_row(&mut row);
    assert_eq!(row[0].link, row[8].link);
    assert!(row[0].link.is_some());
}

#[test]
fn sizes() {
    assert_eq!(compute_grid_size(0, 0), GridSize { cols: 2, rows: 1 });
    assert_eq!(compute_grid_size(120, 40), GridSize { cols: 120, rows: 40 });
    assert_eq!(GridSize::default(), GridSize { cols: 80, rows: 24 });
    let grid = GridSize { cols: 80, rows: 24 };
    let pixels = PtyPixelSize { width: 640, height: 432 };
    let other = PtyPixelSize { width: 641, height: 432 };
    assert_eq!(plan_resize(grid, pixels, grid, pixels), Resize::Nothing);
    assert_eq!(plan_resize(grid, pixels, grid, other), Resize::Pixels);
    assert_eq!(plan_resize(grid, pixels, compute_grid_size(81, 24), pixels), Resize::Grid);
    assert_eq!(adjust_font_size(14, 1), 15);
    assert_eq!(adjust_font_size(8, -1), 8);
    assert_eq!(adjust_font_size(48, 1), 48);
    assert!(batch_has_room(0, 0));
    assert!(!batch_has_room(256, 0));
    assert!(!batch_has_room(0, 256 * 1024));
}

fn cell(c: char) -> Cell {
    Cell {
        c,
        zerowidth: Vec::new(),
        fg: AnsiColor::Named(NamedColor::Foreground),
        bg: AnsiColor::Named(NamedColor::Background),
        flags: Flags::empty(),
        link: None,
    }
}

#[test]
fn the_screen_shows_the_emulators_cells() {
    let mut cells = Vec::new();
    for (column, c) in "hi http://a.b".chars().enumerate() {
        cells.push(IndexedCell { line: -1, column, cell: cell(c) });
    }
    cells.push(IndexedCell { line: 0, column: 1, cell: cell('y') });
    cells.push(IndexedCell { line: 1, column: 0, cell: cell('x') });
    cells.push(IndexedCell { line: 0, column: 99, cell: cell('x') });
    cells.push(IndexedCell { line: -7, column: 0, cell: cell('x') });
    let content = TermContent {
        cells,
        colors: Colors::new(),
        cursor_line: 0,
        cursor_column: 30,
        cursor_shape: CursorShape::Hidden,
        display_offset: 1,
        alt_screen: true,
    };
    let snapshot = refresh_snapshot(&content, GridSize { cols: 14, rows: 2 }, &[]);
    assert_eq!(snapshot_to_lines(&snapshot), vec!["hi http://a.b", " y"]);
    assert_eq!(snapshot.cells[0][3].link.as_deref(), Some("http://a.b"));
    assert_eq!((snapshot.cursor_row, snapshot.cursor_col), (1, 13));
    assert!(!snapshot.cursor_visible);
    assert!(snapshot.alt_screen);
}

#[test]
fn the_history_is_captured() {
    let spacer = Cell {
        flags: Flags { wide_char_spacer: true, ..Flags::empty() },
        ..cell('?')
    };
    let wide = Cell { flags: Flags { wide_char: true, ..Flags::empty() }, ..cell('中') };
    let rows = vec![vec![wide, spacer, cell('a')], vec![]];
    let lines = capture_snapshot_lines(&rows, &Colors::new(), &['a']);
    assert_eq!(lines.len(), 2);
    assert!(lines[0][0].spans_next_col);
    assert_eq!(lines[0][1].ch, ' ');
    assert!(lines[0][2].expands_layout);
    assert!(lines[1].is_empty());
}

#[test]
fn the_cursor() {
    let grid = GridSize { cols: 80, rows: 24 };
    assert_eq!(current_cursor_anchor(3, 2, 7, grid), (5, 7));
    assert_eq!(current_cursor_anchor(-9, 2, 99, grid), (0, 79));
    assert_eq!(effective_cursor_shape(CursorShape::Block, true), CursorShape::Beam);
    assert_eq!(effective_cursor_shape(CursorShape::Hidden, true), CursorShape::Hidden);
    assert_eq!(effective_cursor_shape(CursorShape::Underline, false), CursorShape::Underline);
}

#[test]
fn characters_that_are_drawn_wide() {
    let raw = vec![" ↑ ".to_string(), "ab".to_string(), "↑".to_string(), "U+2026".to_string()];
    let chars = parse_double_width_chars(&raw);
    assert!(chars.contains(&'↑'));
    assert_eq!(chars.iter().filter(|c| **c == '↑').count(), 1);
    assert!(parse_double_width_chars(&[]).is_empty());
}

#[test]
fn pieces_of_the_stream() {
    assert!(matches!(
        stream_step(SixelStreamAction::Bytes(b"ab".to_vec()), 0, 0),
        StreamStep::Advance(bytes) if bytes == b"ab"
    ));
    assert!(matches!(
        stream_step(SixelStreamAction::Sixel(b"~".to_vec()), 3, 4),
        StreamStep::Place(image) if image.row == 3 && image.col == 4
    ));
    assert!(matches!(
        stream_step(SixelStreamAction::Sixel(b"".to_vec()), 3, 4),
        StreamStep::Nothing
    ));
    assert!(matches!(
        stream_step(SixelStreamAction::UnknownDcs(b"\x1bP$q\x1b\\".to_vec()), 0, 0),
        StreamStep::Advance(_)
    ));
    let passthrough = SixelStreamAction::TmuxPassthrough {
        payload: b"mux;x".to_vec(),
        raw: b"raw".to_vec(),
    };
    assert!(matches!(
        stream_step(passthrough, 0, 0),
        StreamStep::Advance(bytes) if bytes == b"raw"
    ));
}

#[test]
fn a_report_of_the_emulator_is_written_to_the_shell() {
    let mut listener: TitleTrackingListener<char> = TitleTrackingListener::new();
    assert_eq!(
        listener.send_event(TermEvent::PtyWrite("\x1b[1;4R".to_string())),
        Some(b"\x1b[1;4R".to_vec())
    );
    assert_eq!(listener.send_event(TermEvent::Title("vim".to_string())), None);
    assert_eq!(listener.title.as_deref(), Some("vim"));
    assert_eq!(listener.send_event(TermEvent::Other), None);
    assert_eq!(listener.send_event(TermEvent::ResetTitle), None);
    assert_eq!(listener.title, None);
    assert!(listener.take_pending().is_empty());
}

#[test]
fn clipboard_and_image_events_wait_in_their_order() {
    let mut listener: TitleTrackingListener<char> = TitleTrackingListener::new();
    listener
        .send_event(TermEvent::ClipboardStore(ClipboardType::Clipboard, "Hello".to_string()));
    listener.send_event(TermEvent::ClipboardLoad(ClipboardType::Clipboard, 'f'));
    listener.send_event(TermEvent::Scroll { region_top: 0, region_bottom: 9, delta: -1 });
    listener.send_event(TermEvent::Erase { region_top: 2, region_bottom: 3 });
    let events = listener.take_pending();
    assert_eq!(events.len(), 4);
    assert!(matches!(
        &events[0],
        PendingTerminalEvent::ClipboardStore(ClipboardType::Clipboard, text) if text == "Hello"
    ));
    assert!(matches!(
        &events[1],
        PendingTerminalEvent::ClipboardLoad(ClipboardType::Clipboard, 'f')
    ));
    assert!(matches!(&events[2], PendingTerminalEvent::Scroll { delta: -1, .. }));
    assert!(matches!(&events[3], PendingTerminalEvent::Erase { region_top: 2, .. }));
    assert!(listener.take_pending().is_empty());
}

#[test]
fn titles_and_notes() {
    assert_eq!(tab_title(&Some("vim".to_string()), "/bin/zsh"), "vim");
    assert_eq!(tab_title(&Some("  ".to_string()), "/bin/zsh"), "/bin/zsh");
    assert_eq!(tab_title(&None, "/bin/zsh"), "/bin/zsh");
    assert_eq!(window_title("vim"), "agent terminal | vim");
    assert_eq!(image_note(true, 10, 20, 3, 4), "sixel image 10x20 at 3,4");
    assert_eq!(image_note(false, 0, 0, 3, 4), "invalid sixel image 0x0 at 3,4");
    let asks = TermMode { focus_in_out: true, ..TermMode::empty() };
    assert_eq!(focus_report(true, asks), b"\x1b[I");
    assert_eq!(focus_report(false, asks), b"\x1b[O");
    assert!(focus_report(true, TermMode::empty()).is_empty());
    assert!(is_input_trace_enabled(Some("yes".to_string())));
    assert!(!is_input_trace_enabled(None));
}

#[test]
fn the_way_of_an_entered_line() {
    let mut diagnostics = LatencyDiagnostics::new();
    assert_eq!(diagnostics.mark_enter_latency_first_pty(1), None);
    let (id, replaced) = diagnostics.start_enter_latency_probe(100);
    assert_eq!((id, replaced), (1, None));
    assert_eq!(diagnostics.mark_enter_latency_first_pty(101), None);
    assert_eq!(diagnostics.mark_enter_latency_write_done(9, 102), None);
    assert!(diagnostics.mark_enter_latency_write_done(id, 103).is_some());
    assert_eq!(diagnostics.mark_enter_latency_write_done(id, 104), None);
    assert_eq!(diagnostics.mark_enter_latency_first_paint(), None);
    assert!(diagnostics.mark_enter_latency_first_pty(110).is_some());
    assert_eq!(diagnostics.mark_enter_latency_first_pty(111), None);
    let probe = diagnostics.mark_enter_latency_first_paint().expect("painted");
    let timings = probe_timings(&probe, 125);
    assert_eq!(timings.keydown_to_now_ms, 25);
    assert_eq!(timings.keydown_to_write_ms, Some(3));
    assert_eq!(timings.write_to_now_ms, Some(22));
    assert_eq!(timings.keydown_to_first_pty_ms, Some(10));
    assert_eq!(timings.first_pty_to_now_ms, Some(15));
    assert_eq!(diagnostics.mark_enter_latency_first_paint(), None);
    diagnostics.start_enter_latency_probe(200);
    let (id, replaced) = diagnostics.start_enter_latency_probe(300);
    assert_eq!(id, 3);
    assert_eq!(replaced.map(|probe| probe.id), Some(2));
}

#[test]
fn the_stream_is_sampled() {
    let mut sampler = PtySampler::new(1000);
    assert_eq!(sampler.record_pty_ingest_diagnostics(1100, 300), (None, None));
    let (gap, sample) = sampler.record_pty_ingest_diagnostics(2000, 700);
    assert_eq!(gap, Some(900));
    let sample = sample.expect("sample");
    assert_eq!(sample.window_ms, 1000);
    assert_eq!((sample.bytes, sample.chunks), (1000, 2));
    assert_eq!((sample.bytes_per_sec, sample.chunks_per_sec), (1000, 2));
    assert_eq!(sampler.bytes, 0);
}

#[test]
fn the_self_check() {
    assert_eq!(run_self_check(GridSize { cols: 80, rows: 20 }), Ok(()));
    assert_eq!(
        run_self_check(GridSize { cols: 79, rows: 1 }),
        Err("computed columns too small for 1000px viewport".to_string())
    );
    assert_eq!(
        run_self_check(GridSize { cols: 80, rows: 19 }),
        Err("computed rows too small for 520px viewport".to_string())
    );
}
