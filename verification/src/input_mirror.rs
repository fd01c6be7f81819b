//! The model of the line that the user is typing.
//!
//! The terminal shows this line to assistive tools, which read and replace it.
//! Its text and its cursor move only through the methods here.
use vstd::prelude::*;
use vstd::utf8::{decode_utf8, valid_utf8};

use crate::chars::{
    char_len_utf16, chars_of, control_char, count_utf16, has_control_char, holds_control_char,
    lemma_encode_push, lemma_prefix_lens, lemma_utf16_le_utf8, lemma_utf16_len_concat, push_chars,
    text_from_utf8, text_of, utf16_len, utf16_width, utf8_len, utf8_width, whitespace_char,
};
use crate::text_utils::{
    blanks_end, blanks_start, chars_before, count_chars_before, delete_next_word_utf16,
    delete_previous_word_utf16, delete_to_end_utf16, lemma_chars_before,
    lemma_chars_before_unique, lemma_word_bounds, remove_chars, without, word_end, word_start, Line,
};

verus! {

/// What a run of bytes sent to the shell does to the line.
pub ghost enum LineEdit {
    Clear,
    Backspace,
    DeleteChar,
    Left,
    Right,
    Start,
    End,
    DeleteToEnd,
    DeletePreviousWord,
    DeleteNextWord,
    Insert(Seq<char>),
    Nothing,
}

/// The edit that a run of bytes stands for: the control codes and sequences
/// of a line editor, and text without control characters, which is inserted.
pub open spec fn edit_of(bytes: Seq<u8>) -> LineEdit {
    if bytes == seq![0x0du8] || bytes == seq![0x03u8] || bytes == seq![0x15u8] {
        LineEdit::Clear
    } else if bytes == seq![0x7fu8] || bytes == seq![0x08u8] {
        LineEdit::Backspace
    } else if bytes == seq![0x01u8] || bytes == seq![0x1bu8, 0x5b, 0x48] {
        LineEdit::Start
    } else if bytes == seq![0x05u8] || bytes == seq![0x1bu8, 0x5b, 0x46] {
        LineEdit::End
    } else if bytes == seq![0x02u8] || bytes == seq![0x1bu8, 0x5b, 0x44] {
        LineEdit::Left
    } else if bytes == seq![0x06u8] || bytes == seq![0x1bu8, 0x5b, 0x43] {
        LineEdit::Right
    } else if bytes == seq![0x04u8] || bytes == seq![0x1bu8, 0x5b, 0x33, 0x7e] {
        LineEdit::DeleteChar
    } else if bytes == seq![0x0bu8] {
        LineEdit::DeleteToEnd
    } else if bytes == seq![0x17u8] || bytes == seq![0x1bu8, 0x7f] {
        LineEdit::DeletePreviousWord
    } else if bytes == seq![0x1bu8, 0x64] {
        LineEdit::DeleteNextWord
    } else if bytes.len() > 0 && bytes[0] == 0x1b {
        LineEdit::Nothing
    } else if valid_utf8(bytes) && !has_control_char(decode_utf8(bytes)) {
        LineEdit::Insert(decode_utf8(bytes))
    } else {
        LineEdit::Nothing
    }
}

pub open spec fn smaller(a: nat, b: nat) -> nat {
    if a < b {
        a
    } else {
        b
    }
}

pub open spec fn less_or_zero(a: nat, b: nat) -> nat {
    if a < b {
        0
    } else {
        (a - b) as nat
    }
}

impl Line {
    /// The cursor brought back into the line.
    pub open spec fn clamped(self) -> Line {
        Line { cursor: smaller(self.cursor, utf16_len(self.text)), ..self }
    }

    /// A text put in at the cursor, which then stands behind it.
    pub open spec fn inserted(self, text: Seq<char>) -> Line {
        let line = self.clamped();
        if text.len() == 0 {
            self
        } else {
            Line {
                text: line.text.take(line.at()) + text + line.text.skip(line.at()),
                cursor: line.cursor + utf16_len(text),
            }
        }
    }

    /// A range, in UTF-16 code units, replaced; the cursor then stands behind
    /// the replacement.
    pub open spec fn replaced(self, start: nat, end: nat, text: Seq<char>) -> Line {
        Line {
            text: self.text.take(chars_before(self.text, start)) + text + self.text.skip(
                chars_before(self.text, end),
            ),
            cursor: start + utf16_len(text),
        }
    }

    /// The character before the cursor removed.
    pub open spec fn backspaced(self) -> Line {
        let line = self.clamped();
        if line.cursor == 0 || line.at() == 0 {
            line
        } else {
            Line {
                text: without(line.text, line.at() - 1, line.at()),
                cursor: less_or_zero(line.cursor, utf16_width(line.text[line.at() - 1])),
            }
        }
    }

    /// The character at the cursor removed.
    pub open spec fn char_deleted(self) -> Line {
        let line = self.clamped();
        if line.at() >= line.text.len() {
            line
        } else {
            Line { text: without(line.text, line.at(), line.at() + 1), cursor: line.cursor }
        }
    }

    pub open spec fn moved_left(self) -> Line {
        let line = self.clamped();
        if line.cursor == 0 || line.at() == 0 {
            Line { cursor: 0, ..line }
        } else {
            Line {
                cursor: less_or_zero(line.cursor, utf16_width(line.text[line.at() - 1])),
                ..line
            }
        }
    }

    pub open spec fn moved_right(self) -> Line {
        let line = self.clamped();
        if line.at() >= line.text.len() {
            line
        } else {
            Line { cursor: line.cursor + utf16_width(line.text[line.at()]), ..line }
        }
    }

    /// So many steps to the left.
    pub open spec fn stepped_left(self, steps: nat) -> Line
        decreases steps,
    {
        if steps == 0 {
            self
        } else {
            self.stepped_left((steps - 1) as nat).moved_left()
        }
    }

    pub open spec fn at_start(self) -> Line {
        Line { cursor: 0, ..self }
    }

    pub open spec fn at_end(self) -> Line {
        Line { cursor: utf16_len(self.text), ..self }
    }

    pub open spec fn cleared() -> Line {
        Line { text: Seq::empty(), cursor: 0 }
    }

    pub open spec fn cut_at_cursor(self) -> Line {
        (Line { text: self.text.take(self.at()), cursor: self.cursor }).clamped()
    }

    pub open spec fn edited(self, edit: LineEdit) -> Line {
        match edit {
            LineEdit::Clear => Line::cleared(),
            LineEdit::Backspace => self.backspaced(),
            LineEdit::DeleteChar => self.char_deleted(),
            LineEdit::Left => self.moved_left(),
            LineEdit::Right => self.moved_right(),
            LineEdit::Start => self.at_start(),
            LineEdit::End => self.at_end(),
            LineEdit::DeleteToEnd => self.cut_at_cursor(),
            LineEdit::DeletePreviousWord => self.without_previous_word().clamped(),
            LineEdit::DeleteNextWord => self.without_next_word().clamped(),
            LineEdit::Insert(text) => self.inserted(text),
            LineEdit::Nothing => self,
        }
    }

    /// The cursor stands between two characters of the line, or at one of its
    /// ends.
    pub open spec fn wf(self) -> bool {
        self.cursor == utf16_len(self.text.take(self.at()))
    }
}

pub struct InputLineMirror {
    line: String,
    cursor_utf16: usize,
    last_published_line: String,
    last_published_cursor_utf16: usize,
}

impl View for InputLineMirror {
    type V = Line;

    closed spec fn view(&self) -> Line {
        Line { text: self.line@, cursor: self.cursor_utf16 as nat }
    }
}

impl InputLineMirror {
    /// What was last shown to assistive tools.
    pub closed spec fn published(&self) -> Line {
        Line { text: self.last_published_line@, cursor: self.last_published_cursor_utf16 as nat }
    }

    pub fn new() -> (mirror: Self)
        ensures
            mirror@ == Line::cleared(),
            mirror.published() == Line::cleared(),
    {
        InputLineMirror {
            line: String::new(),
            cursor_utf16: 0,
            last_published_line: String::new(),
            last_published_cursor_utf16: 0,
        }
    }

    pub fn line(&self) -> (line: &str)
        ensures
            line@ == self@.text,
    {
        self.line.as_str()
    }

    pub fn cursor_utf16(&self) -> (cursor: usize)
        ensures
            cursor == self@.cursor,
    {
        self.cursor_utf16
    }

    pub fn len_utf16(&self) -> (len: usize)
        ensures
            len == utf16_len(self@.text),
    {
        count_utf16(self.line.as_str())
    }

    pub fn last_published(&self) -> (r: (&str, usize))
        ensures
            r.0@ == self.published().text,
            r.1 == self.published().cursor,
    {
        (self.last_published_line.as_str(), self.last_published_cursor_utf16)
    }

    pub fn mark_published(&mut self, line: String, cursor_utf16: usize)
        ensures
            final(self)@ == old(self)@,
            final(self).published() == (Line { text: line@, cursor: cursor_utf16 as nat }),
    {
        self.last_published_line = line;
        self.last_published_cursor_utf16 = cursor_utf16;
    }

    /// Replaces the line and the cursor as a whole.
    pub fn set_state(&mut self, line: String, cursor_utf16: usize)
        ensures
            final(self)@ == (Line { text: line@, cursor: cursor_utf16 as nat }).clamped(),
            final(self).published() == old(self).published(),
    {
        self.line = line;
        self.cursor_utf16 = cursor_utf16;
        self.clamp_cursor();
    }

    /// Replaces a range in UTF-16 code units.
    pub fn replace_range_utf16(&mut self, start: usize, end: usize, text: &str)
        requires
            start <= end,
            start + utf16_len(text@) <= usize::MAX,
        ensures
            final(self)@ == old(self)@.replaced(start as nat, end as nat, text@),
            final(self).published() == old(self).published(),
    {
        let chars = chars_of(self.line.as_str());
        let from: usize = count_chars_before(chars.as_slice(), start);
        let to: usize = count_chars_before(chars.as_slice(), end);
        let mut out: Vec<char> = Vec::new();
        push_chars(&mut out, vstd::slice::slice_subrange(chars.as_slice(), 0, from));
        let inserted = chars_of(text);
        push_chars(&mut out, inserted.as_slice());
        push_chars(&mut out, vstd::slice::slice_subrange(chars.as_slice(), to, chars.len()));
        assert(out@ =~= self@.replaced(start as nat, end as nat, text@).text);
        self.line = text_of(out.as_slice());
        self.cursor_utf16 = start + count_utf16(text);
    }

    pub fn clamp_cursor(&mut self)
        ensures
            final(self)@ == old(self)@.clamped(),
            final(self).published() == old(self).published(),
    {
        let len: usize = self.len_utf16();
        if self.cursor_utf16 > len {
            self.cursor_utf16 = len;
        }
    }

    pub fn insert_at_cursor(&mut self, text: &str)
        ensures
            final(self)@ == old(self)@.inserted(text@),
            final(self).published() == old(self).published(),
    {
        if text.is_empty() {
            return;
        }
        self.clamp_cursor();
        let ghost before = self@;
        let chars = chars_of(self.line.as_str());
        let at: usize = count_chars_before(chars.as_slice(), self.cursor_utf16);
        let mut out: Vec<char> = Vec::new();
        push_chars(&mut out, vstd::slice::slice_subrange(chars.as_slice(), 0, at));
        let inserted = chars_of(text);
        push_chars(&mut out, inserted.as_slice());
        push_chars(&mut out, vstd::slice::slice_subrange(chars.as_slice(), at, chars.len()));
        assert(out@ =~= before.text.take(at as int) + text@ + before.text.skip(at as int));
        self.line = text_of(out.as_slice());
        let bound: usize = self.line.as_str().as_bytes().len();
        proof {
            lemma_utf16_len_concat(before.text.take(at as int), text@);
            lemma_utf16_len_concat(
                before.text.take(at as int) + text@,
                before.text.skip(at as int),
            );
            lemma_utf16_len_concat(before.text.take(at as int), before.text.skip(at as int));
            assert(before.text.take(at as int) + before.text.skip(at as int) =~= before.text);
            lemma_utf16_le_utf8(out@);
        }
        self.cursor_utf16 = self.cursor_utf16 + count_utf16(text);
    }

    pub fn backspace_char(&mut self)
        ensures
            final(self)@ == old(self)@.backspaced(),
            final(self).published() == old(self).published(),
    {
        self.clamp_cursor();
        if self.cursor_utf16 == 0 {
            return;
        }
        let chars = chars_of(self.line.as_str());
        let at: usize = count_chars_before(chars.as_slice(), self.cursor_utf16);
        if at == 0 {
            return;
        }
        let width: usize = char_len_utf16(chars[at - 1]);
        self.line = remove_chars(chars.as_slice(), at - 1, at);
        self.cursor_utf16 = if self.cursor_utf16 < width {
            0
        } else {
            self.cursor_utf16 - width
        };
    }

    pub fn delete_char_at_cursor(&mut self)
        ensures
            final(self)@ == old(self)@.char_deleted(),
            final(self).published() == old(self).published(),
    {
        self.clamp_cursor();
        let chars = chars_of(self.line.as_str());
        let at: usize = count_chars_before(chars.as_slice(), self.cursor_utf16);
        if at < chars.len() {
            self.line = remove_chars(chars.as_slice(), at, at + 1);
        }
    }

    pub fn move_cursor_left(&mut self)
        ensures
            final(self)@ == old(self)@.moved_left(),
            final(self).published() == old(self).published(),
    {
        self.clamp_cursor();
        if self.cursor_utf16 == 0 {
            return;
        }
        let chars = chars_of(self.line.as_str());
        let at: usize = count_chars_before(chars.as_slice(), self.cursor_utf16);
        if at > 0 {
            let width: usize = char_len_utf16(chars[at - 1]);
            self.cursor_utf16 = if self.cursor_utf16 < width {
                0
            } else {
                self.cursor_utf16 - width
            };
        } else {
            self.cursor_utf16 = 0;
        }
    }

    pub fn move_cursor_right(&mut self)
        ensures
            final(self)@ == old(self)@.moved_right(),
            final(self).published() == old(self).published(),
    {
        self.clamp_cursor();
        let chars = chars_of(self.line.as_str());
        let at: usize = count_chars_before(chars.as_slice(), self.cursor_utf16);
        if at < chars.len() {
            let bound: usize = self.line.as_str().as_bytes().len();
            let width: usize = char_len_utf16(chars[at]);
            proof {
                lemma_moved_right_stays(self@);
            }
            self.cursor_utf16 = self.cursor_utf16 + width;
        }
    }

    pub fn move_cursor_to_start(&mut self)
        ensures
            final(self)@ == old(self)@.at_start(),
            final(self).published() == old(self).published(),
    {
        self.cursor_utf16 = 0;
    }

    pub fn move_cursor_to_end(&mut self)
        ensures
            final(self)@ == old(self)@.at_end(),
            final(self).published() == old(self).published(),
    {
        self.cursor_utf16 = self.len_utf16();
    }

    pub fn clear(&mut self)
        ensures
            final(self)@ == Line::cleared(),
            final(self).published() == old(self).published(),
    {
        self.line = String::new();
        self.cursor_utf16 = 0;
    }

    pub fn delete_previous_word(&mut self)
        ensures
            final(self)@ == old(self)@.without_previous_word().clamped(),
            final(self).published() == old(self).published(),
    {
        delete_previous_word_utf16(&mut self.line, &mut self.cursor_utf16);
        self.clamp_cursor();
    }

    pub fn delete_next_word(&mut self)
        ensures
            final(self)@ == old(self)@.without_next_word().clamped(),
            final(self).published() == old(self).published(),
    {
        delete_next_word_utf16(&mut self.line, &mut self.cursor_utf16);
        self.clamp_cursor();
    }

    pub fn delete_to_end(&mut self)
        ensures
            final(self)@ == old(self)@.cut_at_cursor(),
            final(self).published() == old(self).published(),
    {
        delete_to_end_utf16(&mut self.line, self.cursor_utf16);
        self.clamp_cursor();
    }

    /// Follows what bytes sent to the shell do to the line.
    pub fn apply_terminal_bytes(&mut self, bytes: &[u8])
        ensures
            final(self)@ == old(self)@.edited(edit_of(bytes@)),
            final(self).published() == old(self).published(),
    {
        let n: usize = bytes.len();
        if n == 1 {
            let byte: u8 = bytes[0];
            assert(bytes@ =~= seq![byte]);
            assert(seq![byte][0] == byte);
            proof {
                lemma_single_byte_edits(byte);
            }
            if byte == 0x0d || byte == 0x03 || byte == 0x15 {
                self.clear();
            } else if byte == 0x7f || byte == 0x08 {
                self.backspace_char();
            } else if byte == 0x01 {
                self.move_cursor_to_start();
            } else if byte == 0x05 {
                self.move_cursor_to_end();
            } else if byte == 0x02 {
                self.move_cursor_left();
            } else if byte == 0x06 {
                self.move_cursor_right();
            } else if byte == 0x04 {
                self.delete_char_at_cursor();
            } else if byte == 0x0b {
                self.delete_to_end();
            } else if byte == 0x17 {
                self.delete_previous_word();
            } else if byte != 0x1b {
                self.insert_plain_text(bytes);
            }
        } else if n > 1 && bytes[0] == 0x1b {
            proof {
                lemma_escape_edits(bytes@);
            }
            if n == 2 && bytes[1] == 0x7f {
                self.delete_previous_word();
            } else if n == 2 && bytes[1] == 0x64 {
                self.delete_next_word();
            } else if n == 3 && bytes[1] == 0x5b && bytes[2] == 0x44 {
                self.move_cursor_left();
            } else if n == 3 && bytes[1] == 0x5b && bytes[2] == 0x43 {
                self.move_cursor_right();
            } else if n == 3 && bytes[1] == 0x5b && bytes[2] == 0x48 {
                self.move_cursor_to_start();
            } else if n == 3 && bytes[1] == 0x5b && bytes[2] == 0x46 {
                self.move_cursor_to_end();
            } else if n == 4 && bytes[1] == 0x5b && bytes[2] == 0x33 && bytes[3] == 0x7e {
                self.delete_char_at_cursor();
            }
        } else {
            proof {
                lemma_plain_edits(bytes@);
            }
            self.insert_plain_text(bytes);
        }
    }

    /// Inserts bytes that encode text without control characters.
    fn insert_plain_text(&mut self, bytes: &[u8])
        ensures
            final(self)@ == if valid_utf8(bytes@) && !has_control_char(decode_utf8(bytes@)) {
                old(self)@.inserted(decode_utf8(bytes@))
            } else {
                old(self)@
            },
            final(self).published() == old(self).published(),
    {
        if let Some(text) = text_from_utf8(bytes) {
            proof {
                vstd::utf8::encode_utf8_decode_utf8(text@);
            }
            assert(text@ == decode_utf8(bytes@));
            if !holds_control_char(text) {
                self.insert_at_cursor(text);
            }
        }
    }
}

pub proof fn lemma_single_byte_edits(byte: u8)
    ensures
        byte == 0x0d || byte == 0x03 || byte == 0x15 ==> edit_of(seq![byte]) == LineEdit::Clear,
        byte == 0x7f || byte == 0x08 ==> edit_of(seq![byte]) == LineEdit::Backspace,
        byte == 0x01 ==> edit_of(seq![byte]) == LineEdit::Start,
        byte == 0x05 ==> edit_of(seq![byte]) == LineEdit::End,
        byte == 0x02 ==> edit_of(seq![byte]) == LineEdit::Left,
        byte == 0x06 ==> edit_of(seq![byte]) == LineEdit::Right,
        byte == 0x04 ==> edit_of(seq![byte]) == LineEdit::DeleteChar,
        byte == 0x0b ==> edit_of(seq![byte]) == LineEdit::DeleteToEnd,
        byte == 0x17 ==> edit_of(seq![byte]) == LineEdit::DeletePreviousWord,
        byte == 0x1b ==> edit_of(seq![byte]) == LineEdit::Nothing,
        byte != 0x0d && byte != 0x03 && byte != 0x15 && byte != 0x7f && byte != 0x08 && byte != 0x01
            && byte != 0x05 && byte != 0x02 && byte != 0x06 && byte != 0x04 && byte != 0x0b && byte
            != 0x17 && byte != 0x1b ==> edit_of(seq![byte]) == if valid_utf8(seq![byte])
            && !has_control_char(decode_utf8(seq![byte])) {
            LineEdit::Insert(decode_utf8(seq![byte]))
        } else {
            LineEdit::Nothing
        },
{
    let s = seq![byte];
    assert(s[0] == byte);
    assert(s.len() == 1);
    assert(seq![0x0du8][0] == 0x0d && seq![0x03u8][0] == 0x03 && seq![0x15u8][0] == 0x15);
    assert(seq![0x7fu8][0] == 0x7f && seq![0x08u8][0] == 0x08 && seq![0x01u8][0] == 0x01);
    assert(seq![0x05u8][0] == 0x05 && seq![0x02u8][0] == 0x02 && seq![0x06u8][0] == 0x06);
    assert(seq![0x04u8][0] == 0x04 && seq![0x0bu8][0] == 0x0b && seq![0x17u8][0] == 0x17);
    assert(seq![0x1bu8, 0x5b, 0x48].len() == 3);
    assert(seq![0x1bu8, 0x5b, 0x46].len() == 3);
    assert(seq![0x1bu8, 0x5b, 0x44].len() == 3);
    assert(seq![0x1bu8, 0x5b, 0x43].len() == 3);
    assert(seq![0x1bu8, 0x5b, 0x33, 0x7e].len() == 4);
    assert(seq![0x1bu8, 0x7f].len() == 2);
    assert(seq![0x1bu8, 0x64].len() == 2);
}

pub proof fn lemma_escape_edits(bytes: Seq<u8>)
    requires
        bytes.len() > 1,
        bytes[0] == 0x1b,
    ensures
        edit_of(bytes) == if bytes.len() == 2 && bytes[1] == 0x7f {
            LineEdit::DeletePreviousWord
        } else if bytes.len() == 2 && bytes[1] == 0x64 {
            LineEdit::DeleteNextWord
        } else if bytes.len() == 3 && bytes[1] == 0x5b && bytes[2] == 0x44 {
            LineEdit::Left
        } else if bytes.len() == 3 && bytes[1] == 0x5b && bytes[2] == 0x43 {
            LineEdit::Right
        } else if bytes.len() == 3 && bytes[1] == 0x5b && bytes[2] == 0x48 {
            LineEdit::Start
        } else if bytes.len() == 3 && bytes[1] == 0x5b && bytes[2] == 0x46 {
            LineEdit::End
        } else if bytes.len() == 4 && bytes[1] == 0x5b && bytes[2] == 0x33 && bytes[3] == 0x7e {
            LineEdit::DeleteChar
        } else {
            LineEdit::Nothing
        },
{
    lemma_equals_singletons(bytes);
    let home = seq![0x1bu8, 0x5b, 0x48];
    let end = seq![0x1bu8, 0x5b, 0x46];
    let left = seq![0x1bu8, 0x5b, 0x44];
    let right = seq![0x1bu8, 0x5b, 0x43];
    let delete = seq![0x1bu8, 0x5b, 0x33, 0x7e];
    let previous = seq![0x1bu8, 0x7f];
    let next = seq![0x1bu8, 0x64];
    assert(home.len() == 3 && home[1] == 0x5b && home[2] == 0x48);
    assert(end.len() == 3 && end[1] == 0x5b && end[2] == 0x46);
    assert(left.len() == 3 && left[1] == 0x5b && left[2] == 0x44);
    assert(right.len() == 3 && right[1] == 0x5b && right[2] == 0x43);
    assert(delete.len() == 4 && delete[1] == 0x5b && delete[2] == 0x33 && delete[3] == 0x7e);
    assert(previous.len() == 2 && previous[1] == 0x7f);
    assert(next.len() == 2 && next[1] == 0x64);
    if bytes.len() == 2 && bytes[1] == 0x7f {
        assert(bytes =~= previous);
    } else if bytes.len() == 2 && bytes[1] == 0x64 {
        assert(bytes =~= next);
    } else if bytes.len() == 3 && bytes[1] == 0x5b && bytes[2] == 0x44 {
        assert(bytes =~= left);
    } else if bytes.len() == 3 && bytes[1] == 0x5b && bytes[2] == 0x43 {
        assert(bytes =~= right);
    } else if bytes.len() == 3 && bytes[1] == 0x5b && bytes[2] == 0x48 {
        assert(bytes =~= home);
    } else if bytes.len() == 3 && bytes[1] == 0x5b && bytes[2] == 0x46 {
        assert(bytes =~= end);
    } else if bytes.len() == 4 && bytes[1] == 0x5b && bytes[2] == 0x33 && bytes[3] == 0x7e {
        assert(bytes =~= delete);
    }
}

proof fn lemma_equals_singletons(bytes: Seq<u8>)
    requires
        bytes.len() != 1,
    ensures
        forall|byte: u8| bytes != #[trigger] seq![byte],
{
    assert forall|byte: u8| bytes != #[trigger] seq![byte] by {
        assert(seq![byte].len() == 1);
    }
}

proof fn lemma_plain_edits(bytes: Seq<u8>)
    requires
        bytes.len() != 1,
        bytes.len() == 0 || bytes[0] != 0x1b,
    ensures
        edit_of(bytes) == if valid_utf8(bytes) && !has_control_char(decode_utf8(bytes)) {
            LineEdit::Insert(decode_utf8(bytes))
        } else {
            LineEdit::Nothing
        },
{
    lemma_equals_singletons(bytes);
    assert(seq![0x1bu8, 0x5b, 0x48][0] == 0x1b);
    assert(seq![0x1bu8, 0x5b, 0x46][0] == 0x1b);
    assert(seq![0x1bu8, 0x5b, 0x44][0] == 0x1b);
    assert(seq![0x1bu8, 0x5b, 0x43][0] == 0x1b);
    assert(seq![0x1bu8, 0x5b, 0x33, 0x7e][0] == 0x1b);
    assert(seq![0x1bu8, 0x7f][0] == 0x1b);
    assert(seq![0x1bu8, 0x64][0] == 0x1b);
    assert(seq![0x1bu8, 0x5b, 0x48].len() == 3);
    assert(seq![0x1bu8, 0x5b, 0x46].len() == 3);
    assert(seq![0x1bu8, 0x5b, 0x44].len() == 3);
    assert(seq![0x1bu8, 0x5b, 0x43].len() == 3);
    assert(seq![0x1bu8, 0x5b, 0x33, 0x7e].len() == 4);
    assert(seq![0x1bu8, 0x7f].len() == 2);
    assert(seq![0x1bu8, 0x64].len() == 2);
}

/// The character at the cursor ends within the bytes of the line.
proof fn lemma_moved_right_stays(line: Line)
    requires
        0 <= line.at() < line.text.len(),
    ensures
        line.cursor + utf16_width(line.text[line.at()]) <= utf8_len(line.text),
{
    let text = line.text;
    let k = line.at();
    let c = text[k];
    lemma_chars_before(text, line.cursor);
    assert(text.take(k + 1).drop_last() =~= text.take(k));
    assert(text.take(k + 1) =~= text.take(k).push(c));
    lemma_encode_push(text.take(k), c);
    lemma_prefix_lens(text, k, k);
    lemma_prefix_lens(text, k + 1, text.len() as int);
    assert(text.take(text.len() as int) =~= text);
    if utf16_width(c) == 2 {
        assert(utf8_width(c) == 4) by {
            broadcast use vstd::utf8::char_is_scalar;

        }
    } else {
        lemma_prefix_lens(text, k, k + 1);
    }
}

proof fn lemma_boundary(text: Seq<char>, k: int)
    requires
        0 <= k <= text.len(),
    ensures
        (Line { text, cursor: utf16_len(text.take(k)) }).at() == k,
        (Line { text, cursor: utf16_len(text.take(k)) }).wf(),
        utf16_len(text.take(k)) <= utf16_len(text),
{
    if k < text.len() {
        lemma_prefix_lens(text, k, k + 1);
    }
    lemma_prefix_lens(text, k, text.len() as int);
    assert(text.take(text.len() as int) =~= text);
    lemma_chars_before_unique(text, utf16_len(text.take(k)), k);
}

proof fn lemma_wf_bounds(line: Line)
    requires
        line.wf(),
    ensures
        0 <= line.at() <= line.text.len(),
        line.cursor <= utf16_len(line.text),
        line.clamped() == line,
        line.cursor == 0 <==> line.at() == 0,
{
    lemma_chars_before(line.text, line.cursor);
    lemma_boundary(line.text, line.at());
    lemma_prefix_lens(line.text, 0, line.at());
    assert(line.text.take(0) =~= Seq::<char>::empty());
}

/// Law: whatever bytes are sent to the shell, the cursor stays between two
/// characters of the line.
pub proof fn law_edits_keep_the_cursor_between_characters(line: Line, bytes: Seq<u8>)
    requires
        line.wf(),
    ensures
        line.edited(edit_of(bytes)).wf(),
        line.edited(edit_of(bytes)).cursor <= utf16_len(line.edited(edit_of(bytes)).text),
{
    lemma_wf_bounds(line);
    let text = line.text;
    let at = line.at();
    let after = line.edited(edit_of(bytes));
    match edit_of(bytes) {
        LineEdit::Clear => {
            assert(Seq::<char>::empty().take(0) =~= Seq::<char>::empty());
            lemma_boundary(Seq::empty(), 0);
        },
        LineEdit::Backspace => {
            if at > 0 {
                lemma_prefix_step(text, at - 1);
                assert(after.text.take(at - 1) =~= text.take(at - 1));
                lemma_boundary(after.text, at - 1);
            }
        },
        LineEdit::DeleteChar => {
            if at < text.len() {
                assert(after.text.take(at) =~= text.take(at));
                lemma_boundary(after.text, at);
            }
        },
        LineEdit::Left => {
            if at > 0 {
                lemma_prefix_step(text, at - 1);
                lemma_boundary(text, at - 1);
            }
        },
        LineEdit::Right => {
            if at < text.len() {
                lemma_prefix_step(text, at);
                lemma_boundary(text, at + 1);
            }
        },
        LineEdit::Start => {
            assert(text.take(0) =~= Seq::<char>::empty());
            lemma_boundary(text, 0);
        },
        LineEdit::End => {
            assert(text.take(text.len() as int) =~= text);
            lemma_boundary(text, text.len() as int);
        },
        LineEdit::DeleteToEnd => {
            assert(text.take(at).take(at) =~= text.take(at));
            lemma_boundary(text.take(at), at);
        },
        LineEdit::DeletePreviousWord => {
            lemma_word_bounds(text, at);
            let start = word_start(text, blanks_start(text, at));
            let shorter = without(text, start, at);
            assert(shorter.take(start) =~= text.take(start));
            lemma_boundary(shorter, start);
            lemma_prefix_lens(shorter, start, shorter.len() as int);
            assert(shorter.take(shorter.len() as int) =~= shorter);
        },
        LineEdit::DeleteNextWord => {
            lemma_word_bounds(text, at);
            if at < text.len() {
                let end = word_end(text, blanks_end(text, at));
                let shorter = without(text, at, end);
                assert(shorter.take(at) =~= text.take(at));
                lemma_boundary(shorter, at);
                lemma_prefix_lens(shorter, at, shorter.len() as int);
                assert(shorter.take(shorter.len() as int) =~= shorter);
            } else {
                assert(text.take(text.len() as int) =~= text);
            }
        },
        LineEdit::Insert(inserted) => {
            lemma_inserted_is_wf(line, inserted);
        },
        LineEdit::Nothing => {},
    }
    lemma_wf_bounds(after);
}

proof fn lemma_prefix_step(text: Seq<char>, k: int)
    requires
        0 <= k < text.len(),
    ensures
        utf16_len(text.take(k + 1)) == utf16_len(text.take(k)) + utf16_width(text[k]),
{
    assert(text.take(k + 1).drop_last() =~= text.take(k));
}

proof fn lemma_inserted_is_wf(line: Line, inserted: Seq<char>)
    requires
        line.wf(),
    ensures
        line.inserted(inserted).wf(),
        line.inserted(inserted).at() == line.at() + inserted.len(),
{
    lemma_wf_bounds(line);
    let at = line.at();
    let after = line.inserted(inserted);
    if inserted.len() > 0 {
        lemma_utf16_len_concat(line.text.take(at), inserted);
        assert(after.text.take(at + inserted.len()) =~= line.text.take(at) + inserted);
        lemma_boundary(after.text, at + inserted.len());
    }
}

/// Law: a backspace takes back the character that was typed last.
pub proof fn law_backspace_undoes_insert(line: Line, c: char)
    requires
        line.wf(),
    ensures
        line.inserted(seq![c]).backspaced() == line,
{
    lemma_wf_bounds(line);
    lemma_inserted_is_wf(line, seq![c]);
    let at = line.at();
    let typed = line.inserted(seq![c]);
    lemma_wf_bounds(typed);
    assert(typed.at() == at + 1);
    assert(typed.text[at] == c);
    lemma_prefix_step(typed.text, at);
    assert(typed.text.take(at) =~= line.text.take(at));
    assert(without(typed.text, at, at + 1) =~= line.text);
}

/// Law: a step to the left takes a step to the right back.
pub proof fn law_left_undoes_right(line: Line)
    requires
        line.wf(),
        line.at() < line.text.len(),
    ensures
        line.moved_right().moved_left() == line,
        line.moved_right().at() == line.at() + 1,
{
    lemma_wf_bounds(line);
    lemma_prefix_step(line.text, line.at());
    lemma_boundary(line.text, line.at() + 1);
    lemma_wf_bounds(line.moved_right());
}

/// Law: a text that is typed at the end of a line extends it.
pub proof fn law_typing_at_the_end_extends_the_line(line: Line, text: Seq<char>)
    requires
        line.wf(),
        line.at() == line.text.len(),
    ensures
        line.inserted(text).text == line.text + text,
        line.inserted(text).cursor == utf16_len(line.text + text),
{
    lemma_wf_bounds(line);
    assert(line.text.take(line.text.len() as int) =~= line.text);
    lemma_utf16_len_concat(line.text, text);
    assert(line.inserted(text).text =~= line.text + text);
}

/// Law: from the end of a line, a step to the left over each character leads to
/// the place with as many characters behind it.
pub proof fn law_steps_to_the_left_count_characters(text: Seq<char>, steps: nat)
    requires
        steps <= text.len(),
    ensures
        (Line { text, cursor: utf16_len(text) }).stepped_left(steps) == (Line {
            text,
            cursor: utf16_len(text.take(text.len() - steps)),
        }),
        (Line { text, cursor: utf16_len(text) }).stepped_left(steps).at() == text.len() - steps,
    decreases steps,
{
    if steps == 0 {
        assert(text.take(text.len() as int) =~= text);
        lemma_boundary(text, text.len() as int);
    } else {
        law_steps_to_the_left_count_characters(text, (steps - 1) as nat);
        let k = text.len() - steps;
        lemma_boundary(text, k + 1);
        lemma_boundary(text, k);
        lemma_prefix_step(text, k);
        lemma_wf_bounds(Line { text, cursor: utf16_len(text.take(k + 1)) });
    }
}

/// A line with the cursor between two parts of its text.
pub open spec fn line_at(before: Seq<char>, after: Seq<char>) -> Line {
    Line { text: before + after, cursor: utf16_len(before) }
}

proof fn lemma_line_at(before: Seq<char>, after: Seq<char>)
    ensures
        line_at(before, after).at() == before.len(),
        line_at(before, after).clamped() == line_at(before, after),
        line_at(before, after).text.take(before.len() as int) == before,
        line_at(before, after).text.skip(before.len() as int) == after,
{
    let text = before + after;
    let k = before.len() as int;
    assert(text.take(k) =~= before);
    assert(text.skip(k) =~= after);
    lemma_utf16_len_concat(before, after);
    if k < text.len() {
        lemma_prefix_lens(text, k, k + 1);
    }
    lemma_chars_before_unique(text, utf16_len(before), k);
}

/// Law: what is typed stands at the cursor, between what was before and behind
/// it, and the cursor behind what was typed.
pub proof fn law_typing(before: Seq<char>, after: Seq<char>, text: Seq<char>)
    ensures
        line_at(before, after).inserted(text) == line_at(before + text, after),
{
    lemma_line_at(before, after);
    lemma_utf16_len_concat(before, text);
    if text.len() == 0 {
        assert(before + text =~= before);
    }
}

/// Law: to delete backwards takes the one character before the cursor away, to
/// delete forwards the one behind it; at the ends of the line nothing.
pub proof fn law_deleting(before: Seq<char>, c: char, after: Seq<char>)
    ensures
        line_at(before.push(c), after).backspaced() == line_at(before, after),
        line_at(before, seq![c] + after).char_deleted() == line_at(before, after),
        line_at(Seq::empty(), after).backspaced() == line_at(Seq::empty(), after),
        line_at(before, Seq::empty()).char_deleted() == line_at(before, Seq::empty()),
{
    let none = Seq::<char>::empty();
    lemma_line_at(before.push(c), after);
    lemma_line_at(before, seq![c] + after);
    lemma_line_at(none, after);
    lemma_line_at(before, none);
    lemma_utf16_len_concat(before, seq![c]);
    assert(before.push(c) =~= before + seq![c]);
    assert(seq![c].drop_last() =~= none);
    assert(utf16_len(seq![c]) == utf16_len(none) + utf16_width(c));
    let n = before.len() as int;
    let text = before.push(c) + after;
    assert(text[n] == c);
    assert(without(text, n, n + 1) =~= before + after);
    let other = before + (seq![c] + after);
    assert(without(other, n, n + 1) =~= before + after);
    assert(utf16_len(before.push(c)) > 0);
}

/// Law: the cursor moves over one character at a time, to the start, and to the
/// end; the text stays.
pub proof fn law_moving_the_cursor(before: Seq<char>, c: char, after: Seq<char>)
    ensures
        line_at(before.push(c), after).moved_left() == line_at(before, seq![c] + after),
        line_at(before, seq![c] + after).moved_right() == line_at(before.push(c), after),
        line_at(Seq::empty(), after).moved_left() == line_at(Seq::empty(), after),
        line_at(before, Seq::empty()).moved_right() == line_at(before, Seq::empty()),
        line_at(before, after).at_start() == line_at(Seq::empty(), before + after),
        line_at(before, after).at_end() == line_at(before + after, Seq::empty()),
{
    let none = Seq::<char>::empty();
    lemma_line_at(before.push(c), after);
    lemma_line_at(before, seq![c] + after);
    lemma_line_at(none, after);
    lemma_line_at(before, none);
    lemma_utf16_len_concat(before, seq![c]);
    assert(before.push(c) =~= before + seq![c]);
    assert(seq![c].drop_last() =~= none);
    assert(utf16_len(seq![c]) == utf16_len(none) + utf16_width(c));
    let n = before.len() as int;
    assert(before.push(c) + after =~= before + (seq![c] + after));
    assert((before.push(c) + after)[n] == c);
    assert(none + (before + after) =~= before + after);
    assert((before + after) + none =~= before + after);
}

/// Law: to clear the line leaves nothing, and to delete to its end leaves what is
/// before the cursor.
pub proof fn law_clearing(before: Seq<char>, after: Seq<char>)
    ensures
        line_at(before, after).edited(LineEdit::Clear) == line_at(Seq::empty(), Seq::empty()),
        line_at(before, after).edited(LineEdit::DeleteToEnd) == line_at(before, Seq::empty()),
{
    let none = Seq::<char>::empty();
    lemma_line_at(before, after);
    lemma_line_at(before, none);
    assert(none + none =~= none);
    assert(before + none =~= before);
}

proof fn lemma_blanks_start(text: Seq<char>, start: int, end: int)
    requires
        0 <= start <= end <= text.len(),
        forall|i: int| start <= i < end ==> whitespace_char(#[trigger] text[i]),
        start > 0 ==> !whitespace_char(text[start - 1]),
    ensures
        blanks_start(text, end) == start,
    decreases end - start,
{
    if start < end {
        lemma_blanks_start(text, start, end - 1);
    }
}

proof fn lemma_word_start(text: Seq<char>, start: int, end: int)
    requires
        0 <= start <= end <= text.len(),
        forall|i: int| start <= i < end ==> !whitespace_char(#[trigger] text[i]),
        start > 0 ==> whitespace_char(text[start - 1]),
    ensures
        word_start(text, end) == start,
    decreases end - start,
{
    if start < end {
        lemma_word_start(text, start, end - 1);
    }
}

proof fn lemma_blanks_end(text: Seq<char>, start: int, end: int)
    requires
        0 <= start <= end <= text.len(),
        forall|i: int| start <= i < end ==> whitespace_char(#[trigger] text[i]),
        end < text.len() ==> !whitespace_char(text[end]),
    ensures
        blanks_end(text, start) == end,
    decreases end - start,
{
    if start < end {
        lemma_blanks_end(text, start + 1, end);
    }
}

proof fn lemma_word_end(text: Seq<char>, start: int, end: int)
    requires
        0 <= start <= end <= text.len(),
        forall|i: int| start <= i < end ==> !whitespace_char(#[trigger] text[i]),
        end < text.len() ==> whitespace_char(text[end]),
    ensures
        word_end(text, start) == end,
    decreases end - start,
{
    if start < end {
        lemma_word_end(text, start + 1, end);
    }
}

/// Law: to delete the word before the cursor takes this word away, with the white
/// space behind it, and nothing else.
pub proof fn law_deleting_the_previous_word(
    before: Seq<char>,
    word: Seq<char>,
    blanks: Seq<char>,
    after: Seq<char>,
)
    requires
        word.len() > 0,
        forall|i: int| 0 <= i < word.len() ==> !whitespace_char(#[trigger] word[i]),
        forall|i: int| 0 <= i < blanks.len() ==> whitespace_char(#[trigger] blanks[i]),
        before.len() > 0 ==> whitespace_char(before.last()),
    ensures
        line_at(before + word + blanks, after).edited(LineEdit::DeletePreviousWord) == line_at(
            before,
            after,
        ),
{
    let front = before + word + blanks;
    let text = front + after;
    lemma_line_at(front, after);
    lemma_line_at(before, after);
    let a = before.len() as int;
    let b = a + word.len();
    let n = front.len() as int;
    assert forall|i: int| b <= i < n implies whitespace_char(#[trigger] text[i]) by {
        assert(text[i] == blanks[i - b]);
    }
    assert forall|i: int| a <= i < b implies !whitespace_char(#[trigger] text[i]) by {
        assert(text[i] == word[i - a]);
    }
    assert(text[b - 1] == word[word.len() - 1]);
    if a > 0 {
        assert(text[a - 1] == before.last());
    }
    lemma_blanks_start(text, b, n);
    lemma_word_start(text, a, b);
    assert(without(text, a, n) =~= before + after);
    assert(text.take(a) =~= before);
    lemma_utf16_len_concat(before + word, blanks);
    lemma_utf16_len_concat(before, word);
    lemma_utf16_le_utf8(word);
}

/// Law: to delete the word behind the cursor takes this word away, with the white
/// space before it, and nothing else.
pub proof fn law_deleting_the_next_word(
    before: Seq<char>,
    blanks: Seq<char>,
    word: Seq<char>,
    after: Seq<char>,
)
    requires
        word.len() > 0,
        forall|i: int| 0 <= i < word.len() ==> !whitespace_char(#[trigger] word[i]),
        forall|i: int| 0 <= i < blanks.len() ==> whitespace_char(#[trigger] blanks[i]),
        after.len() > 0 ==> whitespace_char(after[0]),
    ensures
        line_at(before, blanks + word + after).edited(LineEdit::DeleteNextWord) == line_at(
            before,
            after,
        ),
{
    let back = blanks + word + after;
    let text = before + back;
    lemma_line_at(before, back);
    lemma_line_at(before, after);
    let n = before.len() as int;
    let a = n + blanks.len();
    let b = a + word.len();
    assert forall|i: int| n <= i < a implies whitespace_char(#[trigger] text[i]) by {
        assert(text[i] == blanks[i - n]);
    }
    assert forall|i: int| a <= i < b implies !whitespace_char(#[trigger] text[i]) by {
        assert(text[i] == word[i - a]);
    }
    assert(text[a] == word[0]);
    if after.len() > 0 {
        assert(text[b] == after[0]);
    }
    lemma_blanks_end(text, n, a);
    lemma_word_end(text, a, b);
    assert(without(text, n, b) =~= before + after);
    lemma_utf16_len_concat(before, after);
}

/// Law: to replace a part of the line puts the text in its place and the cursor
/// behind it; what is before and behind the part stays.
pub proof fn law_replacing(
    before: Seq<char>,
    part: Seq<char>,
    after: Seq<char>,
    cursor: nat,
    text: Seq<char>,
)
    ensures
        (Line { text: before + part + after, cursor }).replaced(
            utf16_len(before),
            utf16_len(before + part),
            text,
        ) == line_at(before + text, after),
{
    let all = before + part + after;
    assert(all =~= before + (part + after));
    lemma_line_at(before, part + after);
    lemma_line_at(before + part, after);
    lemma_utf16_len_concat(before, text);
}

/// Law: text without control characters that is sent to the shell is typed into
/// the line as it is.
pub proof fn law_sent_text_is_typed(line: Line, text: Seq<char>)
    requires
        text.len() > 0,
        !has_control_char(text),
    ensures
        line.edited(edit_of(vstd::utf8::encode_utf8(text))) == line.inserted(text),
{
    let bytes = vstd::utf8::encode_utf8(text);
    vstd::utf8::encode_utf8_valid_utf8(text);
    vstd::utf8::encode_utf8_decode_utf8(text);
    lemma_utf16_le_utf8(text);
    let c = text[0];
    assert(!control_char(c));
    let u = c as u32;
    let head = vstd::utf8::encode_scalar(u);
    vstd::utf8::char_is_scalar(c);
    assert(bytes[0] == head[0]);
    assert(u <= 0x7f ==> (u & 0x7F) as u8 == u) by (bit_vector);
    assert(0xC0u8 | ((u >> 6) & 0x1F) as u8 >= 0xc0) by (bit_vector);
    assert(0xE0u8 | ((u >> 12) & 0x0F) as u8 >= 0xe0) by (bit_vector);
    assert(0xF0u8 | ((u >> 18) & 0x07) as u8 >= 0xf0) by (bit_vector);
    assert(0x20 <= bytes[0] && bytes[0] != 0x7f);
    if bytes.len() == 1 {
        assert(bytes =~= seq![bytes[0]]);
        lemma_single_byte_edits(bytes[0]);
    } else {
        lemma_plain_edits(bytes);
    }
}

/// Law: the codes and sequences by which a line is edited: those of the keys, and
/// those of control with a letter.
pub proof fn law_codes_of_a_line_editor()
    ensures
        edit_of(seq![0x0du8]) == LineEdit::Clear,
        edit_of(seq![0x03u8]) == LineEdit::Clear,
        edit_of(seq![0x15u8]) == LineEdit::Clear,
        edit_of(seq![0x7fu8]) == LineEdit::Backspace,
        edit_of(seq![0x08u8]) == LineEdit::Backspace,
        edit_of(seq![0x01u8]) == LineEdit::Start,
        edit_of(seq![0x1bu8, 0x5b, 0x48]) == LineEdit::Start,
        edit_of(seq![0x05u8]) == LineEdit::End,
        edit_of(seq![0x1bu8, 0x5b, 0x46]) == LineEdit::End,
        edit_of(seq![0x02u8]) == LineEdit::Left,
        edit_of(seq![0x1bu8, 0x5b, 0x44]) == LineEdit::Left,
        edit_of(seq![0x06u8]) == LineEdit::Right,
        edit_of(seq![0x1bu8, 0x5b, 0x43]) == LineEdit::Right,
        edit_of(seq![0x04u8]) == LineEdit::DeleteChar,
        edit_of(seq![0x1bu8, 0x5b, 0x33, 0x7e]) == LineEdit::DeleteChar,
        edit_of(seq![0x0bu8]) == LineEdit::DeleteToEnd,
        edit_of(seq![0x17u8]) == LineEdit::DeletePreviousWord,
        edit_of(seq![0x1bu8, 0x7f]) == LineEdit::DeletePreviousWord,
        edit_of(seq![0x1bu8, 0x64]) == LineEdit::DeleteNextWord,
        edit_of(seq![0x1bu8, 0x5b, 0x41]) == LineEdit::Nothing,
        edit_of(seq![0x1bu8, 0x5b, 0x42]) == LineEdit::Nothing,
{
    lemma_single_byte_edits(0x0d);
    lemma_single_byte_edits(0x03);
    lemma_single_byte_edits(0x15);
    lemma_single_byte_edits(0x7f);
    lemma_single_byte_edits(0x08);
    lemma_single_byte_edits(0x01);
    lemma_single_byte_edits(0x05);
    lemma_single_byte_edits(0x02);
    lemma_single_byte_edits(0x06);
    lemma_single_byte_edits(0x04);
    lemma_single_byte_edits(0x0b);
    lemma_single_byte_edits(0x17);
    lemma_escape_edits(seq![0x1bu8, 0x5b, 0x48]);
    lemma_escape_edits(seq![0x1bu8, 0x5b, 0x46]);
    lemma_escape_edits(seq![0x1bu8, 0x5b, 0x44]);
    lemma_escape_edits(seq![0x1bu8, 0x5b, 0x43]);
    lemma_escape_edits(seq![0x1bu8, 0x5b, 0x33, 0x7e]);
    lemma_escape_edits(seq![0x1bu8, 0x7f]);
    lemma_escape_edits(seq![0x1bu8, 0x64]);
    lemma_escape_edits(seq![0x1bu8, 0x5b, 0x41]);
    lemma_escape_edits(seq![0x1bu8, 0x5b, 0x42]);
}

/// Law: each edit does what it is called.
pub proof fn law_edits(line: Line)
    ensures
        line.edited(LineEdit::Backspace) == line.backspaced(),
        line.edited(LineEdit::DeleteChar) == line.char_deleted(),
        line.edited(LineEdit::Left) == line.moved_left(),
        line.edited(LineEdit::Right) == line.moved_right(),
        line.edited(LineEdit::Start) == line.at_start(),
        line.edited(LineEdit::End) == line.at_end(),
        line.edited(LineEdit::Nothing) == line,
{
}

} // verus!
