use agent_terminal::sixel::decoder::{
    decode_sixel_payload, decode_tmux_passthrough_sixel, default_palette, hls_to_rgba,
    parse_number, parse_params, percent_to_byte, Rgba, SixelImage, MAX_SIXEL_DIMENSION,
};
use agent_terminal::sixel::images::{
    erase_images_in_region, render_image_from_sixel, reserve_sixel_layout,
    rows_moved_by_resize, rows_scrolled_by_reservation, scroll_images_in_region, ImageEvent, TerminalImage,
    TerminalImages, MAX_IMAGES,
};
use agent_terminal::sixel::parser::{
    aborts_control_sequence, continues_character, SixelStreamAction, SixelStreamParser,
};
use agent_terminal::sixel::single::{divided, rounded, times, ONE};

/// A grid that prints, breaks lines, scrolls, and moves its cursor.
struct Grid {
    rows: Vec<Vec<char>>,
    cols: usize,
    row: usize,
    col: usize,
    history: usize,
}

impl Grid {
    fn new(cols: usize, rows: usize) -> Grid {
        Grid { rows: vec![vec![' '; cols]; rows], cols, row: 0, col: 0, history: 0 }
    }

    fn advance(&mut self, bytes: &[u8]) {
        let mut i = 0;
        while i < bytes.len() {
            match bytes[i] {
                b'\r' => self.col = 0,
                b'\n' => {
                    if self.row + 1 == self.rows.len() {
                        self.rows.remove(0);
                        self.rows.push(vec![' '; self.cols]);
                        self.history += 1;
                    } else {
                        self.row += 1;
                    }
                }
                0x1b => {
                    assert_eq!(bytes[i + 1], b'[');
                    i += 2;
                    let mut params = vec![0usize];
                    while bytes[i].is_ascii_digit() || bytes[i] == b';' {
                        if bytes[i] == b';' {
                            params.push(0);
                        } else {
                            let last = params.len() - 1;
                            params[last] = params[last] * 10 + (bytes[i] - b'0') as usize;
                        }
                        i += 1;
                    }
                    match bytes[i] {
                        b'C' => self.col = (self.col + params[0]).min(self.cols - 1),
                        b'H' => {
                            self.row = (params[0] - 1).min(self.rows.len() - 1);
                            self.col = (params[1] - 1).min(self.cols - 1);
                        }
                        other => panic!("unexpected sequence {other}"),
                    }
                }
                byte => {
                    self.rows[self.row][self.col] = byte as char;
                    self.col += 1;
                }
            }
            i += 1;
        }
    }

    fn text(&self, row: usize, len: usize) -> String {
        self.rows[row][..len].iter().collect()
    }
}

fn occupied(pixels: usize, cell: f32) -> usize {
    (pixels as f32 / cell).ceil().max(1.0) as usize
}

#[test]
fn sixel_layout_reservation_places_following_text_below_image() {
    let mut term = Grid::new(80, 6);
    let mut parser = SixelStreamParser::default();
    let actions = parser.advance(b"before\r\n\x1bPq\"1;1;1;36#1~\x1b\\after");

    for action in actions {
        match action {
            SixelStreamAction::Bytes(bytes) => term.advance(&bytes),
            SixelStreamAction::Sixel(payload) => {
                let image = decode_sixel_payload(term.row, term.col, &payload).unwrap();
                term.advance(&reserve_sixel_layout(
                    occupied(image.width, 8.0),
                    occupied(image.height, 18.0),
                ));
            }
            _ => panic!("unexpected stream action"),
        }
    }

    assert_eq!(term.text(3, 5), "after");
}

#[test]
fn sixel_layout_reservation_reports_scroll_when_image_starts_at_bottom() {
    let mut term = Grid::new(80, 4);
    term.advance(b"\x1b[4;1H");
    term.advance(&reserve_sixel_layout(1, 2));
    let scrolled_rows = rows_scrolled_by_reservation(3, 2, term.row);
    term.advance(b"after");

    assert_eq!(scrolled_rows, 2);
    assert_eq!(term.text(3, 5), "after");
}

#[test]
fn a_reservation_has_at_least_one_row() {
    assert_eq!(reserve_sixel_layout(0, 0), b"\r\n");
    assert_eq!(reserve_sixel_layout(12, 3), b"\x1b[12C\r\n\r\n\r\n");
    assert_eq!(rows_scrolled_by_reservation(1, 2, 5), 0);
    assert_eq!(rows_scrolled_by_reservation(usize::MAX, 2, usize::MAX), 0);
}

fn placed(row: isize, rows: usize, alt_screen: bool) -> TerminalImage<()> {
    TerminalImage { row, col: 0, cols: 1, rows, alt_screen, image: () }
}

#[test]
fn sixel_images_follow_normal_text_scrollback() {
    let mut term = Grid::new(80, 4);
    let mut images = vec![placed(2, 3, false)];

    term.advance(b"one\r\ntwo\r\nthree\r\nfour");
    let old_history_size = term.history;
    term.advance(b"\r\nfive");
    let new_history_size = term.history;
    if new_history_size > old_history_size {
        scroll_images_in_region(
            &mut images,
            0,
            usize::MAX / 2,
            -((new_history_size - old_history_size) as i32),
            false,
        );
    }

    assert_eq!(images[0].row, 1);

    term.advance(b"\r\nsix\r\nseven\r\neight");
    let next_history_size = term.history;
    if next_history_size > new_history_size {
        scroll_images_in_region(
            &mut images,
            0,
            usize::MAX / 2,
            -((next_history_size - new_history_size) as i32),
            false,
        );
    }

    assert_eq!(images[0].row, -2);

    term.advance(b"\r\nnine");
    let final_history_size = term.history;
    if final_history_size > next_history_size {
        scroll_images_in_region(
            &mut images,
            0,
            usize::MAX / 2,
            -((final_history_size - next_history_size) as i32),
            false,
        );
    }

    assert!(images.is_empty());
}

#[test]
fn terminal_region_scroll_moves_intersecting_sixel_images() {
    let mut images = vec![placed(2, 2, false), placed(5, 1, false)];

    scroll_images_in_region(&mut images, 1, 4, -1, false);

    assert_eq!(images.len(), 2);
    assert_eq!(images[0].row, 1);
    assert_eq!(images[1].row, 5);

    scroll_images_in_region(&mut images, 1, 4, -3, false);

    assert_eq!(images.len(), 1);
    assert_eq!(images[0].row, 5);
}

#[test]
fn scroll_and_erase_only_touch_images_on_the_same_screen() {
    let mut images = vec![placed(2, 2, false), placed(2, 2, true)];

    scroll_images_in_region(&mut images, 0, 10, -1, true);
    assert_eq!(images[0].row, 2);
    assert_eq!(images[1].row, 1);

    erase_images_in_region(&mut images, 0, 10, true);
    assert_eq!(images.len(), 1);
    assert!(!images[0].alt_screen);
}

#[test]
fn terminal_erase_removes_intersecting_sixel_images() {
    let mut images = vec![placed(2, 2, false), placed(5, 1, false)];

    erase_images_in_region(&mut images, 0, 4, false);

    assert_eq!(images.len(), 1);
    assert_eq!(images[0].row, 5);
}

#[test]
fn images_follow_a_new_size() {
    let mut images: TerminalImages<u8> = TerminalImages::new();
    for (row, rows, alt_screen) in [(2, 3, false), (10, 2, false), (20, 4, false), (1, 1, true)] {
        assert!(images.store(&decoded(row), 1, rows, alt_screen, Some(row as u8)));
    }
    let places = |images: &TerminalImages<u8>| -> Vec<(isize, u8)> {
        images.as_slice().iter().map(|image| (image.row, image.image)).collect()
    };
    assert_eq!(rows_moved_by_resize(20, 8), -12);
    images.follow_resize(rows_moved_by_resize(10, 8), 20, false);
    assert_eq!(places(&images), vec![(0, 2), (8, 10), (18, 20), (1, 1)]);
    images.follow_resize(rows_moved_by_resize(8, 10), 24, false);
    assert_eq!(places(&images), vec![(2, 2), (10, 10), (20, 20), (1, 1)]);
    images.follow_resize(-12, 12, false);
    assert_eq!(places(&images), vec![(8, 20), (1, 1)]);
    images.follow_resize(4, 12, false);
    assert_eq!(places(&images), vec![(1, 1)]);
    images.follow_resize(0, 1, true);
    assert!(images.as_slice().is_empty());
}

fn decoded(row: usize) -> SixelImage {
    decode_sixel_payload(row, 2, b"~").unwrap()
}

#[test]
fn images_are_kept_up_to_a_number() {
    let mut images: TerminalImages<usize> = TerminalImages::new();
    assert!(!images.store(&decoded(0), 1, 1, false, None));
    for n in 0..=MAX_IMAGES {
        assert!(images.store(&decoded(n), 3, 2, false, Some(n)));
    }
    assert_eq!(images.as_slice().len(), MAX_IMAGES);
    assert_eq!(images.as_slice()[0].image, 1);
    assert_eq!(images.as_slice()[0].row, 1);
    assert_eq!(images.as_slice()[0].col, 2);
    assert_eq!(images.as_slice()[0].cols, 3);
    images.erase_region(0, usize::MAX / 2, false);
    assert!(images.as_slice().is_empty());
}

#[test]
fn what_scrolled_before_a_picture_does_not_move_it() {
    let mut images: TerminalImages<char> = TerminalImages::new();
    images.store(&decoded(5), 1, 1, false, Some('a'));
    let events = [
        ImageEvent::Scroll { region_top: 0, region_bottom: 10, delta: -2 },
        ImageEvent::Erase { region_top: 8, region_bottom: 10 },
    ];
    assert!(images.store_after_events(&events, &decoded(8), 1, 1, false, Some('b')));
    let rows: Vec<(char, isize)> =
        images.as_slice().iter().map(|image| (image.image, image.row)).collect();
    assert_eq!(rows, vec![('a', 3), ('b', 8)]);
    images.apply_events(&events, false);
    assert_eq!(images.as_slice().len(), 2);
    images.scroll_region(0, 10, 2, false);
    images.scroll_region(0, 10, -2, false);
    let rows: Vec<isize> = images.as_slice().iter().map(|image| image.row).collect();
    assert_eq!(rows, vec![1, 6]);
}

#[test]
fn pixels_for_the_renderer() {
    let image = SixelImage {
        row: 0,
        col: 0,
        width: 2,
        height: 1,
        rgba: vec![1, 2, 3, 4, 5, 6, 7, 8],
    };
    let frame = render_image_from_sixel(&image).expect("complete");
    assert_eq!((frame.width, frame.height), (2, 1));
    assert_eq!(frame.bgra, vec![3, 2, 1, 4, 7, 6, 5, 8]);
    let short = SixelImage { rgba: vec![0; 7], ..image };
    assert!(render_image_from_sixel(&short).is_none());
    let empty = SixelImage { width: 0, rgba: vec![], ..short };
    assert!(render_image_from_sixel(&empty).is_none());
}

#[test]
fn sixel_stream_parser_extracts_sixel_and_preserves_text() {
    let mut parser = SixelStreamParser::default();
    let actions = parser.advance(b"before\x1bPq~\x1b\\after");

    assert_eq!(actions.len(), 3);
    match &actions[0] {
        SixelStreamAction::Bytes(bytes) => assert_eq!(bytes, b"before"),
        _ => panic!("expected leading text"),
    }
    match &actions[1] {
        SixelStreamAction::Sixel(payload) => assert_eq!(payload, b"~"),
        _ => panic!("expected sixel payload"),
    }
    match &actions[2] {
        SixelStreamAction::Bytes(bytes) => assert_eq!(bytes, b"after"),
        _ => panic!("expected trailing text"),
    }
}

#[test]
fn sixel_stream_parser_abandons_unterminated_dcs_past_limit() {
    let mut parser = SixelStreamParser::with_max_dcs_bytes(64);
    let flood = vec![b'A'; 512];

    let mut passed_through = Vec::new();
    for action in parser.advance(b"\x1bPq") {
        if let SixelStreamAction::Bytes(bytes) = action {
            passed_through.extend_from_slice(&bytes);
        }
    }
    for action in parser.advance(&flood) {
        match action {
            SixelStreamAction::Bytes(bytes) => passed_through.extend_from_slice(&bytes),
            SixelStreamAction::Sixel(_) => panic!("unterminated DCS must not yield a sixel"),
            _ => {}
        }
    }

    assert!(passed_through.starts_with(b"\x1bPq"));
    assert_eq!(passed_through.len(), 3 + flood.len());

    let actions = parser.advance(b"\x1bPq~\x1b\\");
    assert!(actions.iter().any(|action| matches!(
        action,
        SixelStreamAction::Sixel(payload) if payload == b"~"
    )));
}

#[test]
fn sixel_stream_parser_treats_can_and_sub_as_dcs_abort() {
    for abort in [0x18u8, 0x1a] {
        assert!(aborts_control_sequence(abort));
        let mut parser = SixelStreamParser::default();
        let mut input = Vec::from(b"\x1bPq~".as_slice());
        input.push(abort);
        input.extend_from_slice(b"after");

        let actions = parser.advance(&input);

        assert!(
            !actions.iter().any(|action| matches!(action, SixelStreamAction::Sixel(_))),
            "aborted DCS must not produce a sixel (abort byte {abort:#04x})"
        );

        let mut bytes = Vec::new();
        for action in &actions {
            if let SixelStreamAction::Bytes(chunk) = action {
                bytes.extend_from_slice(chunk);
            }
        }
        assert_eq!(bytes, input);
    }
}

#[test]
fn sixel_stream_parser_keeps_tmux_escaped_st_until_outer_terminator() {
    let mut parser = SixelStreamParser::default();
    let actions = parser.advance(b"before\x1bPtmux;\x1b\x1bPq~\x1b\x1b\\\x1b\\after");

    assert_eq!(actions.len(), 3);
    match &actions[0] {
        SixelStreamAction::Bytes(bytes) => assert_eq!(bytes, b"before"),
        _ => panic!("expected leading text"),
    }
    match &actions[1] {
        SixelStreamAction::TmuxPassthrough { payload, .. } => {
            assert_eq!(payload, b"mux;\x1b\x1bPq~\x1b\x1b\\");
            assert!(decode_tmux_passthrough_sixel(0, 0, payload).is_some());
        }
        _ => panic!("expected tmux passthrough payload"),
    }
    match &actions[2] {
        SixelStreamAction::Bytes(bytes) => assert_eq!(bytes, b"after"),
        _ => panic!("expected trailing text"),
    }
}

/// All bytes that come out of the parser, pictures with their frames.
fn passed(actions: &[SixelStreamAction]) -> Vec<u8> {
    let mut out = Vec::new();
    for action in actions {
        match action {
            SixelStreamAction::Bytes(bytes) => out.extend_from_slice(bytes),
            SixelStreamAction::Sixel(payload) => {
                out.push(b'<');
                out.extend_from_slice(payload);
                out.push(b'>');
            }
            SixelStreamAction::TmuxPassthrough { raw, .. } => out.extend_from_slice(raw),
            SixelStreamAction::UnknownDcs(raw) => out.extend_from_slice(raw),
        }
    }
    out
}

#[test]
fn characters_do_not_end_a_dcs() {
    // U+671C and U+1F71C end in the byte of the terminator, U+771F and U+1C001
    // hold it inside.
    for text in ["\u{671c}", "\u{1f71c}", "\u{771f}", "\u{1c001}", "\u{9c}", "本日は\u{dc}"] {
        let mut parser = SixelStreamParser::default();
        let stream = format!("a\x1bP+z{text}b\x1b\\c");
        let actions = parser.advance(stream.as_bytes());
        assert_eq!(actions.len(), 3, "{text:?}");
        let raw = format!("\x1bP+z{text}b\x1b\\");
        assert!(
            matches!(&actions[1], SixelStreamAction::UnknownDcs(bytes) if bytes == raw.as_bytes())
        );
        let mut parser = SixelStreamParser::default();
        let wrapped = format!("\x1bPtmux;{text}\x1b\\");
        let actions = parser.advance(wrapped.as_bytes());
        let payload = format!("mux;{text}");
        assert!(matches!(
            &actions[..],
            [SixelStreamAction::TmuxPassthrough { payload: found, .. }]
                if found == payload.as_bytes()
        ));
    }
}

#[test]
fn a_terminator_outside_a_character_ends_a_dcs() {
    let heads: [&[u8]; 7] =
        [b"x", "\u{672c}".as_bytes(), b"\xc3\xa9", b"\xe0", b"\xf4", b"\x80", b"\xc1"];
    for head in heads {
        let mut stream = b"\x1bP+z".to_vec();
        stream.extend_from_slice(head);
        stream.extend_from_slice(b"\x9cc");
        let mut parser = SixelStreamParser::default();
        let actions = parser.advance(&stream);
        let end = stream.len() - 1;
        assert!(
            matches!(&actions[0], SixelStreamAction::UnknownDcs(raw) if raw[..] == stream[..end])
        );
        assert!(matches!(&actions[1], SixelStreamAction::Bytes(bytes) if bytes == b"c"));
    }
    assert!(continues_character(b"\xe6\x9c", 0x9c));
    assert!(continues_character(b"\xf0\x9f\x9c", 0x9c));
    assert!(!continues_character(b"\xe0\x80", 0x9c));
    assert!(!continues_character(b"\xed\xa0", 0x9c));
    assert!(!continues_character(b"\xf0\x80\x80", 0x9c));
    assert!(!continues_character(b"\xe6\x9c\x9c", 0x9c));
    assert!(!continues_character(b"\xe6", 0x41));
    assert!(!continues_character(b"", 0x9c));
}

#[test]
fn cutting_the_stream_makes_no_difference() {
    let stream: &[u8] = b"a\x1b[31mb\x1bP0;1q#1~-~\x1b\\c\x1bPtmux;x\x1b\\\x1bP$qm\x1b\\d\x1bPq~\x9ce";
    let mut whole = SixelStreamParser::default();
    let expected = passed(&whole.advance(stream));
    assert!(expected.starts_with(b"a\x1b[31mb<#1~-~>c"));
    for cut in 0..=stream.len() {
        let mut parser = SixelStreamParser::default();
        let mut actions = parser.advance(&stream[..cut]);
        actions.extend(parser.advance(&stream[cut..]));
        assert_eq!(passed(&actions), expected, "cut at {cut}");
    }
}

#[test]
fn decodes_rgb_sixel_payload() {
    let image = decode_sixel_payload(2, 3, br#""1;1;1;6#1;2;100;0;0~"#).unwrap();

    assert_eq!(image.row, 2);
    assert_eq!(image.col, 3);
    assert_eq!(image.width, 1);
    assert_eq!(image.height, 6);
    for pixel in image.rgba.chunks_exact(4) {
        assert_eq!(pixel, &[255, 0, 0, 255]);
    }
}

#[test]
fn decodes_hls_sixel_palette_entries() {
    let image = decode_sixel_payload(0, 0, br#""1;1;1;6#1;1;0;50;100~"#).unwrap();

    for pixel in image.rgba.chunks_exact(4) {
        assert_eq!(pixel, &[255, 0, 0, 255]);
    }
}

#[test]
fn decodes_tmux_passthrough_sixel() {
    let image = decode_tmux_passthrough_sixel(4, 5, b"mux;\x1b\x1bPq~\x1b\x1b\\").unwrap();

    assert_eq!(image.row, 4);
    assert_eq!(image.col, 5);
    assert_eq!(image.width, 1);
    assert_eq!(image.height, 6);
    assert!(decode_tmux_passthrough_sixel(0, 0, b"mux;plain").is_none());
    assert!(decode_tmux_passthrough_sixel(0, 0, b"screen").is_none());
}

#[test]
fn commands_of_a_payload() {
    let image = decode_sixel_payload(0, 0, b"#2;2;0;100;0!3@$#1;2;0;0;100!0?A-@").unwrap();
    assert_eq!((image.width, image.height), (3, 7));
    let pixel = |x: usize, y: usize| {
        let at = (y * image.width + x) * 4;
        [image.rgba[at], image.rgba[at + 1], image.rgba[at + 2], image.rgba[at + 3]]
    };
    assert_eq!(pixel(0, 0), [0, 255, 0, 255]);
    assert_eq!(pixel(2, 0), [0, 255, 0, 255]);
    assert_eq!(pixel(1, 1), [0, 0, 255, 255]);
    assert_eq!(pixel(0, 1), [0, 0, 0, 0]);
    assert_eq!(pixel(0, 6), [0, 0, 255, 255]);
}

#[test]
fn blank_columns_count_and_nothing_is_no_picture() {
    let image = decode_sixel_payload(0, 0, b"@???").unwrap();
    assert_eq!((image.width, image.height), (4, 1));
    assert!(decode_sixel_payload(0, 0, b"").is_none());
    assert!(decode_sixel_payload(0, 0, b"???").is_none());
    assert_eq!(image.rgba[4..], [0; 12]);
    let far = decode_sixel_payload(0, 0, b"!4500?~").unwrap();
    assert_eq!((far.width, far.height), (4501, 6));
    assert_eq!(far.rgba[4499 * 4..4501 * 4], [0, 0, 0, 0, 0, 0, 0, 255]);
    let padded = decode_sixel_payload(0, 0, b"~!99999?-@").unwrap();
    assert_eq!((padded.width, padded.height), (MAX_SIXEL_DIMENSION, 7));
    assert_eq!(padded.rgba.len(), MAX_SIXEL_DIMENSION * 7 * 4);
    assert_eq!(padded.rgba[0..8], [0, 0, 0, 255, 0, 0, 0, 0]);
    assert_eq!(padded.rgba[MAX_SIXEL_DIMENSION * 4..][..4], [0, 0, 0, 255]);
    let declared = decode_sixel_payload(0, 0, b"\"1;1;5;4@").unwrap();
    assert_eq!((declared.width, declared.height), (5, 4));
    assert_eq!(declared.rgba.len(), 80);
}

#[test]
fn a_picture_that_grows_keeps_what_was_drawn() {
    let image = decode_sixel_payload(0, 0, b"#1;2;100;0;0@!199?#2;2;0;100;0@").unwrap();
    assert_eq!((image.width, image.height), (201, 1));
    assert_eq!(image.rgba[0..4], [255, 0, 0, 255]);
    assert_eq!(image.rgba[4..8], [0, 0, 0, 0]);
    assert_eq!(image.rgba[800..804], [0, 255, 0, 255]);
}

#[test]
fn a_picture_stays_within_its_limits() {
    let wide = decode_sixel_payload(0, 0, b"!99999@").unwrap();
    assert_eq!((wide.width, wide.height), (4096, 1));
    let declared = decode_sixel_payload(0, 0, b"\"1;1;9000;4@").unwrap();
    assert_eq!((declared.width, declared.height), (MAX_SIXEL_DIMENSION, 4));
    assert!(decode_sixel_payload(0, 0, b"\"1;1;8192;8192").is_none());
    let tall = decode_sixel_payload(0, 0, b"\"1;1;2;8000@!99999?").unwrap();
    assert_eq!((tall.width, tall.height), (2, 8000));
}

#[test]
fn numbers_and_parameters() {
    assert_eq!(parse_number(b"x12y", 1), (Some(12), 3));
    assert_eq!(parse_number(b"x", 1), (None, 1));
    assert_eq!(parse_number(b"123456", 0), (Some(MAX_SIXEL_DIMENSION), 6));
    assert_eq!(parse_params(b"1;;30#", 0), (vec![1, 0, 30], 5));
    assert_eq!(parse_params(b"#", 0), (vec![], 0));
    assert_eq!(parse_params(b"5;", 0), (vec![5, 0], 2));
    assert_eq!(percent_to_byte(0), 0);
    assert_eq!(percent_to_byte(50), 128);
    assert_eq!(percent_to_byte(200), 255);
    assert_eq!(default_palette().len(), 256);
    assert_eq!(default_palette()[231], Rgba { r: 255, g: 255, b: 255, a: 255 });
}

/// The conversion in single precision.
fn hls_in_single_precision(hue: usize, lightness: usize, saturation: usize) -> [u8; 3] {
    let hue = (hue % 360) as f32 / 360.0;
    let lightness = lightness.min(100) as f32 / 100.0;
    let saturation = saturation.min(100) as f32 / 100.0;
    let byte = |value: f32| (value.clamp(0.0, 1.0) * 255.0).round() as u8;
    if saturation == 0.0 {
        return [byte(lightness); 3];
    }
    let q = if lightness < 0.5 {
        lightness * (1.0 + saturation)
    } else {
        lightness + saturation - lightness * saturation
    };
    let p = 2.0 * lightness - q;
    let part = |mut angle: f32| {
        if angle < 0.0 {
            angle += 1.0;
        }
        if angle > 1.0 {
            angle -= 1.0;
        }
        if angle < 1.0 / 6.0 {
            p + (q - p) * 6.0 * angle
        } else if angle < 0.5 {
            q
        } else if angle < 2.0 / 3.0 {
            p + (q - p) * (2.0 / 3.0 - angle) * 6.0
        } else {
            p
        }
    };
    [byte(part(hue + 1.0 / 3.0)), byte(part(hue)), byte(part(hue - 1.0 / 3.0))]
}

#[test]
fn hls_colors_are_those_of_single_precision() {
    for hue in (0..400).step_by(11) {
        for lightness in 0..=101 {
            for saturation in 0..=101 {
                let color = hls_to_rgba(hue, lightness, saturation);
                assert_eq!(
                    [color.r, color.g, color.b],
                    hls_in_single_precision(hue, lightness, saturation),
                    "{hue} {lightness} {saturation}"
                );
            }
        }
    }
}

#[test]
fn hls_colors() {
    let cases = [
        ((120, 50, 100), [0, 255, 0]),
        ((0, 50, 0), [128, 128, 128]),
        ((90, 70, 74), [178, 235, 122]),
        ((173, 65, 100), [76, 255, 234]),
        ((60, 25, 60), [102, 102, 25]),
        ((716, 8, 25), [25, 15, 16]),
        ((240, 999, 999), [255, 255, 255]),
    ];
    for ((hue, lightness, saturation), [r, g, b]) in cases {
        assert_eq!(hls_to_rgba(hue, lightness, saturation), Rgba { r, g, b, a: 255 });
    }
}

#[test]
fn numbers_of_single_precision() {
    for (a, b) in [(1u16, 3u16), (2, 3), (1, 6), (1, 100), (99, 100), (359, 360), (0, 7), (5, 5)] {
        let value = f32::from(a) / f32::from(b);
        assert_eq!(divided(a, b) as f32, value * ONE as f32);
        for (c, d) in [(1u16, 3u16), (37, 100), (17, 360)] {
            let other = f32::from(c) / f32::from(d);
            let (x, y) = (divided(a, b), divided(c, d));
            assert_eq!(times(x, y) as f32, value * other * ONE as f32);
            assert_eq!(times(-x, y) as f32, -(value * other) * ONE as f32);
            assert_eq!(rounded(x + y) as f32, (value + other) * ONE as f32);
            assert_eq!(rounded(x - y) as f32, (value - other) * ONE as f32);
            assert_eq!(rounded(x * 255) as f32, value * 255.0 * ONE as f32);
        }
    }
    // Halfway between two numbers the even one is taken.
    assert_eq!(rounded(0x100_0001), 0x100_0000);
    assert_eq!(rounded(0x100_0003), 0x100_0004);
    assert_eq!(rounded(-0x100_0003), -0x100_0004);
    assert_eq!(rounded(0xff_ffff), 0xff_ffff);
}
