use agent_terminal::input_mirror::InputLineMirror;

#[test]
fn terminal_bytes_drive_line_and_cursor() {
    let mut mirror = InputLineMirror::new();
    mirror.apply_terminal_bytes(b"echo hi");
    assert_eq!(mirror.line(), "echo hi");
    assert_eq!(mirror.cursor_utf16(), 7);

    mirror.apply_terminal_bytes(b"\x1b[D");
    mirror.apply_terminal_bytes(&[0x7f]);
    assert_eq!(mirror.line(), "echo i");
    assert_eq!(mirror.cursor_utf16(), 5);

    mirror.apply_terminal_bytes(b"\r");
    assert_eq!(mirror.line(), "");
    assert_eq!(mirror.cursor_utf16(), 0);
}

#[test]
fn utf16_editing_respects_char_boundaries() {
    let mut mirror = InputLineMirror::new();
    mirror.insert_at_cursor("a😀中");
    assert_eq!(mirror.cursor_utf16(), 4);

    mirror.move_cursor_left();
    mirror.move_cursor_left();
    assert_eq!(mirror.cursor_utf16(), 1);

    mirror.delete_char_at_cursor();
    assert_eq!(mirror.line(), "a中");
}

#[test]
fn replace_range_moves_cursor_after_replacement() {
    let mut mirror = InputLineMirror::new();
    mirror.insert_at_cursor("hello world");
    mirror.replace_range_utf16(6, 11, "there");
    assert_eq!(mirror.line(), "hello there");
    assert_eq!(mirror.cursor_utf16(), 11);
}

#[test]
fn control_codes_edit_the_line() {
    let mut mirror = InputLineMirror::new();
    mirror.apply_terminal_bytes("one two 三".as_bytes());
    assert_eq!(mirror.len_utf16(), 9);
    mirror.apply_terminal_bytes(&[0x01]);
    assert_eq!(mirror.cursor_utf16(), 0);
    mirror.apply_terminal_bytes(&[0x06]);
    mirror.apply_terminal_bytes(&[0x04]);
    assert_eq!(mirror.line(), "oe two 三");
    mirror.apply_terminal_bytes(b"\x1bd");
    assert_eq!(mirror.line(), "o two 三");
    mirror.apply_terminal_bytes(&[0x05]);
    mirror.apply_terminal_bytes(&[0x17]);
    assert_eq!(mirror.line(), "o two ");
    mirror.apply_terminal_bytes(b"\x1b\x7f");
    assert_eq!(mirror.line(), "o ");
    mirror.apply_terminal_bytes(&[0x02]);
    mirror.apply_terminal_bytes(&[0x0b]);
    assert_eq!(mirror.line(), "o");
    mirror.apply_terminal_bytes(b"\x1b[H");
    mirror.apply_terminal_bytes(b"\x1b[3~");
    assert_eq!(mirror.line(), "");
    mirror.apply_terminal_bytes(b"x");
    mirror.apply_terminal_bytes(b"\x1b[F");
    mirror.apply_terminal_bytes(b"\x1b[C");
    mirror.apply_terminal_bytes(&[0x08]);
    assert_eq!(mirror.line(), "");
    for clear in [0x03u8, 0x15] {
        mirror.apply_terminal_bytes(b"text");
        mirror.apply_terminal_bytes(&[clear]);
        assert_eq!(mirror.line(), "");
    }
}

#[test]
fn other_bytes_leave_the_line_alone() {
    let mut mirror = InputLineMirror::new();
    mirror.apply_terminal_bytes(b"ls");
    mirror.apply_terminal_bytes(b"\x1b[A");
    mirror.apply_terminal_bytes(b"\t");
    mirror.apply_terminal_bytes(b"\x1b");
    mirror.apply_terminal_bytes(&[0xff, 0xfe]);
    mirror.apply_terminal_bytes(b"a\nb");
    assert_eq!(mirror.line(), "ls");
    assert_eq!(mirror.cursor_utf16(), 2);
}

#[test]
fn typing_and_taking_back() {
    let mut mirror = InputLineMirror::new();
    mirror.set_state("ab".to_string(), 1);
    mirror.insert_at_cursor("😀");
    assert_eq!((mirror.line(), mirror.cursor_utf16()), ("a😀b", 3));
    mirror.backspace_char();
    assert_eq!((mirror.line(), mirror.cursor_utf16()), ("ab", 1));
    mirror.move_cursor_right();
    mirror.move_cursor_left();
    assert_eq!(mirror.cursor_utf16(), 1);
    mirror.set_state("ab".to_string(), 99);
    assert_eq!(mirror.cursor_utf16(), 2);
    mirror.move_cursor_to_start();
    mirror.backspace_char();
    mirror.move_cursor_left();
    assert_eq!((mirror.line(), mirror.cursor_utf16()), ("ab", 0));
    mirror.move_cursor_to_end();
    mirror.delete_char_at_cursor();
    mirror.move_cursor_right();
    assert_eq!((mirror.line(), mirror.cursor_utf16()), ("ab", 2));
}

#[test]
fn what_was_published_is_remembered() {
    let mut mirror = InputLineMirror::new();
    assert_eq!(mirror.last_published(), ("", 0));
    mirror.insert_at_cursor("ls");
    mirror.mark_published("ls".to_string(), 2);
    mirror.clear();
    assert_eq!(mirror.last_published(), ("ls", 2));
    mirror.delete_previous_word();
    mirror.delete_next_word();
    mirror.delete_to_end();
    mirror.clamp_cursor();
    assert_eq!(mirror.line(), "");
}
