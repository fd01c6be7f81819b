//! What the user types, pastes and drops, and what assistive tools put in: how
//! it reaches the shell, and how the model of the input line follows.
use vstd::prelude::*;
use vstd::utf8::{encode_scalar, encode_utf8};

use crate::chars::{
    ascii_lower_text, bytes_view, chars_of, control_char, count_utf16, has_text_at, is_control,
    is_whitespace, push_repeated, repeated, same_text, same_text_ignoring_case, text_of, text_view,
    text_views, trim_end_from, trimmed_end, utf16_len, whitespace_char,
};
use crate::grid_cells::{cells_text, push_cells_text, row_views, CellSnapshot};
use crate::input_mirror::{
    edit_of, law_steps_to_the_left_count_characters, law_typing_at_the_end_extends_the_line,
    lemma_escape_edits, lemma_single_byte_edits, InputLineMirror, LineEdit,
};
use crate::keyboard::{
    defers_to_text_input, encode_keystroke_with_mode, encoded_key, is_paste_shortcut,
    is_select_all_shortcut, is_zoom_in_shortcut, is_zoom_out_shortcut, paste_shortcut,
    select_all_shortcut, should_defer_to_text_input, zoom_in_shortcut,
    zoom_out_shortcut, Keystroke, KittyKeyEventType, TermMode,
};
use crate::text_utils::{chars_before, count_chars_before, utf16_substring, Line};

verus! {

// ---------------------------------------------------------------------------
// Pasting
// ---------------------------------------------------------------------------

pub const ESCAPE: char = '\u{1b}';

/// The text with every line break as a carriage return, which is what the key
/// for a new line sends.
pub open spec fn with_returns(text: Seq<char>) -> Seq<char>
    decreases text.len(),
{
    if text.len() == 0 {
        Seq::empty()
    } else if text.len() >= 2 && text[0] == '\r' && text[1] == '\n' {
        seq!['\r'] + with_returns(text.skip(2))
    } else if text[0] == '\n' {
        seq!['\r'] + with_returns(text.skip(1))
    } else {
        seq![text[0]] + with_returns(text.skip(1))
    }
}

/// The text without escape characters.
pub open spec fn without_escapes(text: Seq<char>) -> Seq<char>
    decreases text.len(),
{
    if text.len() == 0 {
        Seq::empty()
    } else if text.last() == ESCAPE {
        without_escapes(text.drop_last())
    } else {
        without_escapes(text.drop_last()).push(text.last())
    }
}

/// A pasted text as it is sent: nothing in it can end the paste or start a
/// control sequence.
pub open spec fn pasted_text(text: Seq<char>) -> Seq<char> {
    without_escapes(with_returns(text))
}

pub open spec fn paste_start() -> Seq<u8> {
    seq![0x1bu8, 0x5b, 0x32, 0x30, 0x30, 0x7e]
}

pub open spec fn paste_end() -> Seq<u8> {
    seq![0x1bu8, 0x5b, 0x32, 0x30, 0x31, 0x7e]
}

/// The bytes of a pasted text, between marks where the program asks for them.
pub open spec fn paste_bytes(text: Seq<char>, bracketed: bool) -> Seq<u8> {
    if text.len() == 0 {
        Seq::empty()
    } else if bracketed {
        paste_start() + encode_utf8(pasted_text(text)) + paste_end()
    } else {
        encode_utf8(pasted_text(text))
    }
}

fn push_pasted_text(text: &str) -> (r: String)
    ensures
        r@ == pasted_text(text@),
{
    let chars = chars_of(text);
    let mut returned: Vec<char> = Vec::new();
    let mut i: usize = 0;
    assert(text@.skip(0) =~= text@);
    assert(returned@ + with_returns(text@) =~= with_returns(text@));
    while i < chars.len()
        invariant
            i <= chars@.len(),
            chars@ == text@,
            returned@ + with_returns(text@.skip(i as int)) == with_returns(text@),
        decreases chars@.len() - i,
    {
        let ghost rest = text@.skip(i as int);
        let ghost done = returned@;
        if chars.len() - i >= 2 && chars[i] == '\r' && chars[i + 1] == '\n' {
            returned.push('\r');
            assert(rest.skip(2) =~= text@.skip(i + 2));
            assert(returned@ + with_returns(rest.skip(2)) =~= done + (seq!['\r'] + with_returns(
                rest.skip(2),
            )));
            i += 2;
        } else {
            let c: char = if chars[i] == '\n' {
                '\r'
            } else {
                chars[i]
            };
            returned.push(c);
            assert(rest.skip(1) =~= text@.skip(i + 1));
            assert(returned@ + with_returns(rest.skip(1)) =~= done + (seq![c] + with_returns(
                rest.skip(1),
            )));
            i += 1;
        }
    }
    assert(text@.skip(i as int) =~= Seq::<char>::empty());
    assert(returned@ =~= with_returns(text@));
    let mut out: Vec<char> = Vec::new();
    let mut j: usize = 0;
    assert(returned@.take(0) =~= Seq::<char>::empty());
    while j < returned.len()
        invariant
            j <= returned@.len(),
            out@ == without_escapes(returned@.take(j as int)),
        decreases returned@.len() - j,
    {
        assert(returned@.take(j + 1).drop_last() =~= returned@.take(j as int));
        if returned[j] != ESCAPE {
            out.push(returned[j]);
        }
        j += 1;
    }
    assert(returned@.take(returned@.len() as int) =~= returned@);
    text_of(out.as_slice())
}

/// The bytes that a pasted text sends.
pub fn paste_input(text: &str, bracketed: bool) -> (bytes: Vec<u8>)
    ensures
        bytes@ == paste_bytes(text@, bracketed),
{
    let mut bytes: Vec<u8> = Vec::new();
    if text.is_empty() {
        return bytes;
    }
    let body = push_pasted_text(text);
    if bracketed {
        push_mark(&mut bytes, 0x30);
    }
    let ghost head = bytes@;
    bytes.extend_from_slice(body.as_str().as_bytes());
    if bracketed {
        push_mark(&mut bytes, 0x31);
    }
    assert(bytes@ =~= paste_bytes(text@, bracketed));
    bytes
}

fn push_mark(out: &mut Vec<u8>, last: u8)
    ensures
        final(out)@ == old(out)@ + seq![0x1bu8, 0x5b, 0x32, 0x30, last, 0x7e],
{
    out.push(0x1b);
    out.push(0x5b);
    out.push(0x32);
    out.push(0x30);
    out.push(last);
    out.push(0x7e);
    assert(out@ =~= old(out)@ + seq![0x1bu8, 0x5b, 0x32, 0x30, last, 0x7e]);
}

proof fn lemma_with_returns(text: Seq<char>, i: int)
    requires
        0 <= i < with_returns(text).len(),
    ensures
        with_returns(text)[i] != '\n',
    decreases text.len(),
{
    if i > 0 {
        if text.len() >= 2 && text[0] == '\r' && text[1] == '\n' {
            lemma_with_returns(text.skip(2), i - 1);
        } else {
            lemma_with_returns(text.skip(1), i - 1);
        }
    }
}

proof fn lemma_without_escapes(text: Seq<char>, i: int)
    requires
        0 <= i < without_escapes(text).len(),
    ensures
        without_escapes(text)[i] != ESCAPE,
        text.contains(without_escapes(text)[i]),
    decreases text.len(),
{
    let front = text.drop_last();
    if text.last() != ESCAPE && i == without_escapes(front).len() {
        assert(text[text.len() - 1] == text.last());
    } else {
        lemma_without_escapes(front, i);
        let k = choose|k: int| 0 <= k < front.len() && front[k] == without_escapes(front)[i];
        assert(text[k] == without_escapes(text)[i]);
    }
}

/// No byte of a character other than the escape is the escape.
proof fn lemma_scalar_has_no_escape(c: char)
    requires
        c != ESCAPE,
    ensures
        !encode_scalar(c as u32).contains(0x1b),
{
    broadcast use vstd::utf8::char_is_scalar;

    let u = c as u32;
    let bytes = encode_scalar(u);
    assert forall|i: int| 0 <= i < bytes.len() implies bytes[i] != 0x1b by {
        assert((u & 0x7F) as u8 == 0x1b && u <= 0x7f ==> u == 0x1b) by (bit_vector);
        assert(0xC0u8 | ((u >> 6) & 0x1F) as u8 != 0x1b) by (bit_vector);
        assert(0xE0u8 | ((u >> 12) & 0x0F) as u8 != 0x1b) by (bit_vector);
        assert(0xF0u8 | ((u >> 18) & 0x07) as u8 != 0x1b) by (bit_vector);
        assert(0x80u8 | (u & 0x3F) as u8 != 0x1b) by (bit_vector);
        assert(0x80u8 | ((u >> 6) & 0x3F) as u8 != 0x1b) by (bit_vector);
        assert(0x80u8 | ((u >> 12) & 0x3F) as u8 != 0x1b) by (bit_vector);
    }
}

proof fn lemma_text_has_no_escape(text: Seq<char>)
    requires
        !text.contains(ESCAPE),
    ensures
        !encode_utf8(text).contains(0x1b),
    decreases text.len(),
{
    if text.len() > 0 {
        assert(text[0] != ESCAPE) by {
            assert(text.contains(text[0]));
        }
        lemma_scalar_has_no_escape(text[0]);
        let rest = text.drop_first();
        assert(!rest.contains(ESCAPE)) by {
            if rest.contains(ESCAPE) {
                let k = choose|k: int| 0 <= k < rest.len() && rest[k] == ESCAPE;
                assert(text[k + 1] == ESCAPE);
            }
        }
        lemma_text_has_no_escape(rest);
        let bytes = encode_utf8(text);
        let head = encode_scalar(text[0] as u32);
        assert forall|i: int| 0 <= i < bytes.len() implies bytes[i] != 0x1b by {
            if i < head.len() {
                assert(bytes[i] == head[i]);
                assert(head.contains(head[i]));
            } else {
                assert(bytes[i] == encode_utf8(rest)[i - head.len()]);
                assert(encode_utf8(rest).contains(encode_utf8(rest)[i - head.len()]));
            }
        }
    }
}

/// Law: a pasted text sends no line feed and no escape: line breaks arrive as
/// the key for a new line does, and the text can neither leave the marks around
/// it nor start a control sequence.
pub proof fn law_pasted_text_is_harmless(text: Seq<char>)
    ensures
        !pasted_text(text).contains('\n'),
        !pasted_text(text).contains(ESCAPE),
        !encode_utf8(pasted_text(text)).contains(0x1b),
{
    let pasted = pasted_text(text);
    assert forall|i: int| 0 <= i < pasted.len() implies pasted[i] != '\n' && pasted[i] != ESCAPE by {
        lemma_without_escapes(with_returns(text), i);
        let k = choose|k: int|
            0 <= k < with_returns(text).len() && with_returns(text)[k] == pasted[i];
        lemma_with_returns(text, k);
    }
    lemma_text_has_no_escape(pasted);
}

/// Why a paste wants a confirmation: its lines and characters, and how many of
/// the visible ones are beyond ASCII.
#[derive(Clone, Copy, Debug, PartialEq, Eq, Structural)]
pub struct PasteRisk {
    pub line_count: usize,
    pub char_count: usize,
    pub visible_chars: usize,
    pub non_ascii_chars: usize,
}

pub const PASTE_GUARD_MIN_LINES: usize = 4;

pub const PASTE_GUARD_MIN_CHARS: usize = 120;

pub open spec fn newline_count(text: Seq<char>) -> nat
    decreases text.len(),
{
    if text.len() == 0 {
        0
    } else {
        newline_count(text.drop_last()) + if text.last() == '\n' {
            1nat
        } else {
            0
        }
    }
}

/// How many lines a text has; a line break at its end starts no other line.
pub open spec fn line_count(text: Seq<char>) -> nat {
    newline_count(text) + if text.len() > 0 && text.last() != '\n' {
        1nat
    } else {
        0
    }
}

pub open spec fn visible(c: char) -> bool {
    !control_char(c) && !whitespace_char(c)
}

pub open spec fn visible_count(text: Seq<char>) -> nat
    decreases text.len(),
{
    if text.len() == 0 {
        0
    } else {
        visible_count(text.drop_last()) + if visible(text.last()) {
            1nat
        } else {
            0
        }
    }
}

pub open spec fn non_ascii_count(text: Seq<char>) -> nat
    decreases text.len(),
{
    if text.len() == 0 {
        0
    } else {
        non_ascii_count(text.drop_last()) + if visible(text.last()) && text.last() as u32 >= 128 {
            1nat
        } else {
            0
        }
    }
}

/// Whether at least 35 percent of the visible characters are beyond ASCII.
pub open spec fn is_mostly_beyond_ascii(text: Seq<char>) -> bool {
    visible_count(text) > 0 && non_ascii_count(text) * 20 >= visible_count(text) * 7
}

/// Whether a paste wants a confirmation: it has many characters, and either many
/// lines, each of which a shell may run, or a large part beyond ASCII.
pub open spec fn is_risky_paste(text: Seq<char>) -> bool {
    &&& text.len() >= PASTE_GUARD_MIN_CHARS
    &&& line_count(text) >= PASTE_GUARD_MIN_LINES || is_mostly_beyond_ascii(text)
}

pub open spec fn paste_risk(text: Seq<char>) -> Option<PasteRisk> {
    if is_risky_paste(text) {
        Some(
            PasteRisk {
                line_count: line_count(text) as usize,
                char_count: text.len() as usize,
                visible_chars: visible_count(text) as usize,
                non_ascii_chars: non_ascii_count(text) as usize,
            },
        )
    } else {
        None
    }
}

pub fn evaluate_paste_risk(text: &str) -> (risk: Option<PasteRisk>)
    ensures
        risk == paste_risk(text@),
{
    let chars = chars_of(text);
    let char_count: usize = chars.len();
    let mut newlines: usize = 0;
    let mut visible_chars: usize = 0;
    let mut non_ascii_chars: usize = 0;
    let mut i: usize = 0;
    assert(text@.take(0) =~= Seq::<char>::empty());
    while i < chars.len()
        invariant
            i <= chars@.len(),
            chars@ == text@,
            newlines == newline_count(text@.take(i as int)) && newlines <= i,
            i > 0 && text@[i - 1] != '\n' ==> newlines < i,
            visible_chars == visible_count(text@.take(i as int)) && visible_chars + newlines <= i,
            non_ascii_chars == non_ascii_count(text@.take(i as int)) && non_ascii_chars <= i,
        decreases chars@.len() - i,
    {
        assert(text@.take(i + 1).drop_last() =~= text@.take(i as int));
        let c: char = chars[i];
        if c == '\n' {
            newlines += 1;
        }
        if !is_control(c) && !is_whitespace(c) {
            visible_chars += 1;
            if c as u32 >= 128 {
                non_ascii_chars += 1;
            }
        }
        i += 1;
    }
    assert(text@.take(text@.len() as int) =~= text@);
    if char_count < PASTE_GUARD_MIN_CHARS {
        return None;
    }
    let lines: usize = newlines + if chars[chars.len() - 1] != '\n' {
        1
    } else {
        0
    };
    let beyond_ascii = visible_chars > 0 && (non_ascii_chars as u128) * 20 >= (
    visible_chars as u128) * 7;
    if lines < PASTE_GUARD_MIN_LINES && !beyond_ascii {
        return None;
    }
    Some(PasteRisk { line_count: lines, char_count, visible_chars, non_ascii_chars })
}

// ---------------------------------------------------------------------------
// Dropped files
// ---------------------------------------------------------------------------

/// The text with every quote closed, escaped and opened again.
pub open spec fn quoted_body(text: Seq<char>) -> Seq<char>
    decreases text.len(),
{
    if text.len() == 0 {
        Seq::empty()
    } else if text.last() == '\'' {
        quoted_body(text.drop_last()) + seq!['\'', '\\', '\'', '\'']
    } else {
        quoted_body(text.drop_last()) + seq![text.last()]
    }
}

/// A path as one word of the shell.
pub open spec fn shell_word(path: Seq<char>) -> Seq<char> {
    seq!['\''] + quoted_body(path) + seq!['\'']
}

fn push_shell_word(out: &mut Vec<char>, path: &str)
    ensures
        final(out)@ == old(out)@ + shell_word(path@),
{
    let chars = chars_of(path);
    out.push('\'');
    let ghost head = out@;
    let mut i: usize = 0;
    assert(path@.take(0) =~= Seq::<char>::empty());
    assert(head + quoted_body(Seq::empty()) =~= head);
    while i < chars.len()
        invariant
            i <= chars@.len(),
            chars@ == path@,
            out@ == head + quoted_body(path@.take(i as int)),
        decreases chars@.len() - i,
    {
        let ghost before = out@;
        assert(path@.take(i + 1).drop_last() =~= path@.take(i as int));
        if chars[i] == '\'' {
            out.push('\'');
            out.push('\\');
            out.push('\'');
            out.push('\'');
            assert(out@ =~= head + (quoted_body(path@.take(i as int)) + seq![
                '\'',
                '\\',
                '\'',
                '\'',
            ]));
        } else {
            out.push(chars[i]);
            assert(out@ =~= head + (quoted_body(path@.take(i as int)) + seq![chars@[i as int]]));
        }
        i += 1;
    }
    assert(path@.take(path@.len() as int) =~= path@);
    out.push('\'');
    assert(out@ =~= old(out)@ + shell_word(path@));
}

pub fn shell_escape_path(path: &str) -> (word: String)
    ensures
        word@ == shell_word(path@),
{
    let mut out: Vec<char> = Vec::new();
    push_shell_word(&mut out, path);
    assert(out@ =~= shell_word(path@));
    text_of(out.as_slice())
}

/// Paths as words of the shell with blanks between them.
pub open spec fn shell_words(paths: Seq<Seq<char>>) -> Seq<char>
    decreases paths.len(),
{
    if paths.len() == 0 {
        Seq::empty()
    } else if paths.len() == 1 {
        shell_word(paths[0])
    } else {
        shell_words(paths.drop_last()) + seq![' '] + shell_word(paths.last())
    }
}

/// The text that dropped files type, given their absolute paths.
pub fn dropped_paths_text(paths: &[String]) -> (text: String)
    ensures
        text@ == shell_words(text_views(paths@)),
{
    let ghost views = text_views(paths@);
    let mut out: Vec<char> = Vec::new();
    let mut i: usize = 0;
    assert(views.take(0) =~= Seq::<Seq<char>>::empty());
    while i < paths.len()
        invariant
            i <= paths@.len(),
            views == text_views(paths@),
            out@ == shell_words(views.take(i as int)),
        decreases paths@.len() - i,
    {
        let ghost before = out@;
        if i > 0 {
            out.push(' ');
        }
        push_shell_word(&mut out, paths[i].as_str());
        proof {
            let taken = views.take(i + 1);
            assert(taken.drop_last() =~= views.take(i as int));
            assert(taken.last() == paths@[i as int]@);
            if i == 0 {
                assert(taken[0] == paths@[0]@);
                assert(before =~= Seq::<char>::empty());
                assert(out@ =~= shell_word(taken[0]));
            } else {
                assert(out@ =~= before + seq![' '] + shell_word(taken.last()));
            }
        }
        i += 1;
    }
    assert(views.take(views.len() as int) =~= views);
    text_of(out.as_slice())
}

/// A shell that reads words: those it has read, the one it is reading, and
/// whether it is inside quotes or behind a backslash.
pub ghost struct WordReader {
    pub words: Seq<Seq<char>>,
    pub word: Option<Seq<char>>,
    pub quoted: bool,
    pub escaped: bool,
}

pub open spec fn word_or_empty(word: Option<Seq<char>>) -> Seq<char> {
    match word {
        Some(text) => text,
        None => Seq::empty(),
    }
}

impl WordReader {
    pub open spec fn start() -> WordReader {
        WordReader { words: Seq::empty(), word: None, quoted: false, escaped: false }
    }

    /// How a POSIX shell takes a character: between quotes every one stands for
    /// itself but the quote, a backslash lets the next one stand for itself, and
    /// a blank ends a word.
    pub open spec fn after(self, c: char) -> WordReader {
        let text = word_or_empty(self.word);
        if self.quoted {
            if c == '\'' {
                WordReader { quoted: false, ..self }
            } else {
                WordReader { word: Some(text.push(c)), ..self }
            }
        } else if self.escaped {
            WordReader { word: Some(text.push(c)), escaped: false, ..self }
        } else if c == '\'' {
            WordReader { word: Some(text), quoted: true, ..self }
        } else if c == '\\' {
            WordReader { escaped: true, ..self }
        } else if c == ' ' {
            match self.word {
                Some(word) => WordReader { words: self.words.push(word), word: None, ..self },
                None => self,
            }
        } else {
            WordReader { word: Some(text.push(c)), ..self }
        }
    }

    pub open spec fn after_all(self, text: Seq<char>) -> WordReader
        decreases text.len(),
    {
        if text.len() == 0 {
            self
        } else {
            self.after_all(text.drop_last()).after(text.last())
        }
    }

    /// The words when the text is at its end.
    pub open spec fn finished(self) -> Seq<Seq<char>> {
        match self.word {
            Some(word) => self.words.push(word),
            None => self.words,
        }
    }
}

/// The words that a shell reads from a text.
pub open spec fn words_of(text: Seq<char>) -> Seq<Seq<char>> {
    WordReader::start().after_all(text).finished()
}

proof fn lemma_reader_concat(reader: WordReader, a: Seq<char>, b: Seq<char>)
    ensures
        reader.after_all(a + b) == reader.after_all(a).after_all(b),
    decreases b.len(),
{
    if b.len() == 0 {
        assert(a + b =~= a);
    } else {
        lemma_reader_concat(reader, a, b.drop_last());
        assert((a + b).drop_last() =~= a + b.drop_last());
    }
}

proof fn lemma_read_one(reader: WordReader, c: char)
    ensures
        reader.after_all(seq![c]) == reader.after(c),
{
    assert(seq![c].drop_last() =~= Seq::<char>::empty());
    assert(reader.after_all(Seq::<char>::empty()) == reader);
}

proof fn lemma_read_body(words: Seq<Seq<char>>, path: Seq<char>)
    ensures
        (WordReader { words, word: Some(Seq::empty()), quoted: true, escaped: false }).after_all(
            quoted_body(path),
        ) == (WordReader { words, word: Some(path), quoted: true, escaped: false }),
    decreases path.len(),
{
    let start = WordReader { words, word: Some(Seq::empty()), quoted: true, escaped: false };
    if path.len() == 0 {
        assert(path =~= Seq::<char>::empty());
    } else {
        let front = path.drop_last();
        lemma_read_body(words, front);
        let middle = WordReader { words, word: Some(front), quoted: true, escaped: false };
        if path.last() == '\'' {
            let tail = seq!['\'', '\\', '\'', '\''];
            lemma_reader_concat(start, quoted_body(front), tail);
            assert(tail =~= seq!['\''] + seq!['\\'] + seq!['\''] + seq!['\'']);
            lemma_reader_concat(middle, seq!['\''] + seq!['\\'] + seq!['\''], seq!['\'']);
            lemma_reader_concat(middle, seq!['\''] + seq!['\\'], seq!['\'']);
            lemma_reader_concat(middle, seq!['\''], seq!['\\']);
            lemma_read_one(middle, '\'');
            let r1 = middle.after('\'');
            lemma_read_one(r1, '\\');
            let r2 = r1.after('\\');
            lemma_read_one(r2, '\'');
            let r3 = r2.after('\'');
            lemma_read_one(r3, '\'');
            assert(front.push('\'') =~= path);
        } else {
            lemma_reader_concat(start, quoted_body(front), seq![path.last()]);
            lemma_read_one(middle, path.last());
            assert(front.push(path.last()) =~= path);
        }
    }
}

proof fn lemma_read_word(words: Seq<Seq<char>>, path: Seq<char>)
    ensures
        (WordReader { words, word: None, quoted: false, escaped: false }).after_all(
            shell_word(path),
        ) == (WordReader { words, word: Some(path), quoted: false, escaped: false }),
{
    let start = WordReader { words, word: None, quoted: false, escaped: false };
    lemma_reader_concat(start, seq!['\''] + quoted_body(path), seq!['\'']);
    lemma_reader_concat(start, seq!['\''], quoted_body(path));
    lemma_read_one(start, '\'');
    lemma_read_body(words, path);
    lemma_read_one(
        WordReader { words, word: Some(path), quoted: true, escaped: false },
        '\'',
    );
}

proof fn lemma_read_words(paths: Seq<Seq<char>>)
    requires
        paths.len() > 0,
    ensures
        WordReader::start().after_all(shell_words(paths)) == (WordReader {
            words: paths.drop_last(),
            word: Some(paths.last()),
            quoted: false,
            escaped: false,
        }),
    decreases paths.len(),
{
    if paths.len() == 1 {
        lemma_read_word(Seq::empty(), paths[0]);
        assert(paths.drop_last() =~= Seq::<Seq<char>>::empty());
    } else {
        let front = paths.drop_last();
        lemma_read_words(front);
        let start = WordReader::start();
        lemma_reader_concat(start, shell_words(front) + seq![' '], shell_word(paths.last()));
        lemma_reader_concat(start, shell_words(front), seq![' ']);
        let middle = WordReader {
            words: front.drop_last(),
            word: Some(front.last()),
            quoted: false,
            escaped: false,
        };
        lemma_read_one(middle, ' ');
        assert(front.drop_last().push(front.last()) =~= front);
        lemma_read_word(front, paths.last());
    }
}

/// Law: a shell reads back from the text that dropped files type exactly their
/// paths, one word each, whatever characters they hold.
pub proof fn law_dropped_paths_read_back(paths: Seq<Seq<char>>)
    ensures
        words_of(shell_words(paths)) == paths,
{
    if paths.len() > 0 {
        lemma_read_words(paths);
        assert(paths.drop_last().push(paths.last()) =~= paths);
    } else {
        assert(words_of(shell_words(paths)) =~= paths);
    }
}

// ---------------------------------------------------------------------------
// Assistive tools
// ---------------------------------------------------------------------------

/// How long typing and a gained focus keep tools from replacing the line, in
/// milliseconds.
pub const AX_OVERRIDE_GUARD_WINDOW_MS: u64 = 250;

pub open spec fn is_alphanumeric_ascii(c: char) -> bool {
    ('0' <= c <= '9') || ('a' <= c <= 'z') || ('A' <= c <= 'Z')
}

/// Whether a tool's text is the model's with a few letters or digits in front,
/// which is what a composition leaks.
pub open spec fn prefix_noise(ax_text: Seq<char>, model: Seq<char>) -> bool {
    let prefix_len = ax_text.len() - model.len();
    &&& model.len() > 0
    &&& 1 <= prefix_len <= 4
    &&& ax_text.skip(prefix_len) == model
    &&& forall|i: int| 0 <= i < prefix_len ==> is_alphanumeric_ascii(#[trigger] ax_text[i])
}

pub fn probable_ascii_prefix_noise(ax_text: &str, model_text: &str) -> (r: bool)
    ensures
        r == prefix_noise(ax_text@, model_text@),
{
    let ax = chars_of(ax_text);
    let model = chars_of(model_text);
    if model.len() == 0 || ax.len() <= model.len() || ax.len() - model.len() > 4 {
        return false;
    }
    let prefix_len: usize = ax.len() - model.len();
    if !has_text_at(ax.as_slice(), model.as_slice(), prefix_len) {
        assert(ax@.subrange(prefix_len as int, prefix_len + model@.len()) =~= ax@.skip(
            prefix_len as int,
        ));
        return false;
    }
    assert(ax@.subrange(prefix_len as int, prefix_len + model@.len()) =~= ax@.skip(
        prefix_len as int,
    ));
    let mut i: usize = 0;
    while i < prefix_len
        invariant
            i <= prefix_len < ax@.len(),
            ax@ == ax_text@,
            prefix_len == ax_text@.len() - model_text@.len(),
            forall|k: int| 0 <= k < i ==> is_alphanumeric_ascii(#[trigger] ax_text@[k]),
        decreases prefix_len - i,
    {
        let c: char = ax[i];
        if !(('0' <= c && c <= '9') || ('a' <= c && c <= 'z') || ('A' <= c && c <= 'Z')) {
            assert(!is_alphanumeric_ascii(ax_text@[i as int]));
            return false;
        }
        i += 1;
    }
    true
}

pub open spec fn ends_with(text: Seq<char>, end: Seq<char>) -> bool {
    end.len() <= text.len() && text.skip(text.len() - end.len()) == end
}

fn has_end(text: &[char], end: &[char]) -> (r: bool)
    ensures
        r == ends_with(text@, end@),
{
    if end.len() > text.len() {
        return false;
    }
    let at: usize = text.len() - end.len();
    assert(text@.subrange(at as int, at + end@.len()) =~= text@.skip(at as int));
    has_text_at(text, end, at)
}

/// Whether a tool's text may be what stands on the screen: the row of the
/// cursor ends with it, and not with what the model holds instead.
pub open spec fn fits_visible_input(
    ax_text: Seq<char>,
    model: Seq<char>,
    visible_row: Seq<char>,
    row_before_cursor: Seq<char>,
) -> bool {
    if ax_text.len() == 0 {
        true
    } else if model.len() > 0 && ax_text != model && (ends_with(row_before_cursor, model)
        || ends_with(visible_row, model)) {
        false
    } else {
        ends_with(row_before_cursor, ax_text) || ends_with(visible_row, ax_text)
    }
}

pub fn ax_text_matches_visible_input_context(
    ax_text: &str,
    model_text: &str,
    visible_row: &str,
    row_before_cursor: &str,
) -> (r: bool)
    ensures
        r == fits_visible_input(ax_text@, model_text@, visible_row@, row_before_cursor@),
{
    if ax_text.is_empty() {
        return true;
    }
    let ax = chars_of(ax_text);
    let model = chars_of(model_text);
    let visible = chars_of(visible_row);
    let before = chars_of(row_before_cursor);
    if model.len() > 0 && !same_text(ax_text, model_text) && (has_end(
        before.as_slice(),
        model.as_slice(),
    ) || has_end(visible.as_slice(), model.as_slice())) {
        return false;
    }
    has_end(before.as_slice(), ax.as_slice()) || has_end(visible.as_slice(), ax.as_slice())
}

/// The same, for a screen and its cursor. Where there is no row to look at,
/// nothing speaks against the text.
pub open spec fn fits_screen(
    ax_text: Seq<char>,
    model: Seq<char>,
    cells: Seq<Seq<CellSnapshot>>,
    cursor_row: int,
    cursor_col: int,
) -> bool {
    if ax_text.len() == 0 || cursor_row >= cells.len() || cells[cursor_row].len() == 0 {
        true
    } else {
        let row = cells[cursor_row];
        let end = if cursor_col < row.len() {
            cursor_col + 1
        } else {
            row.len() as int
        };
        fits_visible_input(
            ax_text,
            model,
            trimmed_end(cells_text(row, 0, row.len() as int)),
            trimmed_end(cells_text(row, 0, end)),
        )
    }
}

fn trimmed_cells_text(cells: &[CellSnapshot], end: usize) -> (text: String)
    requires
        end <= cells@.len(),
    ensures
        text@ == trimmed_end(cells_text(cells@, 0, end as int)),
{
    let mut chars: Vec<char> = Vec::new();
    push_cells_text(cells, 0, end, &mut chars);
    let ghost all = cells_text(cells@, 0, end as int);
    assert(chars@ =~= all);
    assert(all.skip(0) =~= all);
    trim_end_from(&mut chars, 0);
    assert(chars@ =~= trimmed_end(all));
    text_of(chars.as_slice())
}

pub fn ax_text_matches_screen_context(
    ax_text: &str,
    model_text: &str,
    cells: &[Vec<CellSnapshot>],
    cursor_row: usize,
    cursor_col: usize,
) -> (r: bool)
    ensures
        r == fits_screen(
            ax_text@,
            model_text@,
            row_views(cells@),
            cursor_row as int,
            cursor_col as int,
        ),
{
    if ax_text.is_empty() || cursor_row >= cells.len() {
        return true;
    }
    let row: &Vec<CellSnapshot> = &cells[cursor_row];
    assert(row_views(cells@)[cursor_row as int] == row@);
    if row.len() == 0 {
        return true;
    }
    let end: usize = if cursor_col < row.len() {
        cursor_col + 1
    } else {
        row.len()
    };
    let visible = trimmed_cells_text(row.as_slice(), row.len());
    let before = trimmed_cells_text(row.as_slice(), end);
    ax_text_matches_visible_input_context(
        ax_text,
        model_text,
        visible.as_str(),
        before.as_str(),
    )
}

/// Whether tools may replace the line now: not during a composition, nor soon
/// after the focus was gained or a key was pressed.
pub fn allow_ax_override(
    composing: bool,
    ms_since_focus_in: Option<u64>,
    ms_since_local_key: Option<u64>,
) -> (r: bool)
    ensures
        r == (!composing && !(ms_since_focus_in matches Some(ms) && ms
            < AX_OVERRIDE_GUARD_WINDOW_MS) && !(ms_since_local_key matches Some(ms) && ms
            < AX_OVERRIDE_GUARD_WINDOW_MS)),
{
    if composing {
        return false;
    }
    if let Some(ms) = ms_since_focus_in {
        if ms < AX_OVERRIDE_GUARD_WINDOW_MS {
            return false;
        }
    }
    match ms_since_local_key {
        Some(ms) => ms >= AX_OVERRIDE_GUARD_WINDOW_MS,
        None => true,
    }
}

/// What brings the shell's line to the model's: clear it, type the text, and
/// step back over each character behind the cursor.
pub open spec fn rewrite_bytes(line: Line) -> Seq<u8> {
    seq![0x15u8] + encode_utf8(line.text) + repeated(
        seq![0x1bu8, 0x5b, 0x44],
        (line.text.len() - line.at()) as nat,
    )
}

pub fn rewrite_terminal_input_line(line: &InputLineMirror) -> (bytes: Vec<u8>)
    ensures
        bytes@ == rewrite_bytes(line@),
{
    let mut bytes: Vec<u8> = Vec::new();
    bytes.push(0x15);
    bytes.extend_from_slice(line.line().as_bytes());
    let chars = chars_of(line.line());
    let at: usize = count_chars_before(chars.as_slice(), line.cursor_utf16());
    let mut left: Vec<u8> = Vec::new();
    left.push(0x1b);
    left.push(0x5b);
    left.push(0x44);
    assert(left@ =~= seq![0x1bu8, 0x5b, 0x44]);
    push_repeated(&mut bytes, left.as_slice(), chars.len() - at);
    assert(bytes@ =~= rewrite_bytes(line@));
    bytes
}

// ---------------------------------------------------------------------------
// The state of the input
// ---------------------------------------------------------------------------

pub struct InputState {
    pub line: InputLineMirror,
    /// The text that is being composed.
    pub marked_text: Option<String>,
    /// The selection that the input method asked for inside this text, in
    /// UTF-16 code units.
    pub marked_selection: Option<(usize, usize)>,
    /// Whether a question about a paste is open.
    pub paste_prompt_open: bool,
}

pub ghost struct InputView {
    pub line: Line,
    pub marked: Option<Seq<char>>,
    pub marked_selection: Option<(usize, usize)>,
    pub prompt_open: bool,
}

impl View for InputState {
    type V = InputView;

    open spec fn view(&self) -> InputView {
        InputView {
            line: self.line@,
            marked: text_view(self.marked_text),
            marked_selection: self.marked_selection,
            prompt_open: self.paste_prompt_open,
        }
    }
}

/// What a tool's text led to.
#[derive(Clone, Copy, Debug, PartialEq, Eq, Structural)]
pub enum AxDecision {
    /// A full-screen program is on.
    NotAtPrompt,
    Composing,
    /// The line is like that already.
    Unchanged,
    /// The text does not fit the screen; `noise` tells whether it looks like
    /// the model with leaked letters in front.
    Rejected { noise: bool },
    Applied,
}

/// What a key led to.
#[derive(Clone, Copy, Debug, PartialEq, Eq, Structural)]
pub enum KeyAction {
    ZoomIn,
    ZoomOut,
    /// The line is cleared.
    ClearLine,
    /// There is no line to clear in a full-screen program.
    NothingToClear,
    /// The clipboard holds no text.
    NothingToPaste,
    /// A question about another paste is open.
    PasteBusy,
    /// The paste wants a confirmation.
    AskBeforePaste(PasteRisk),
    Paste,
    /// The key is left to the text input.
    Defer,
    /// The key is sent, before the model follows where `first`; `enter` tells
    /// whether it ends the line.
    Send { first: bool, enter: bool },
    Ignore,
}

/// What is around a key.
#[derive(Clone, Copy, Debug, PartialEq, Eq, Structural)]
pub struct KeyContext {
    pub mode: TermMode,
    pub option_as_meta: bool,
    /// Whether the platform has a text input and a command key.
    pub native_text_input: bool,
    pub held: bool,
}

/// Whether bytes are sent before the model follows: control codes and escape
/// sequences.
pub open spec fn goes_first(bytes: Seq<u8>) -> bool {
    exists|i: int| 0 <= i < bytes.len() && ((#[trigger] bytes[i]) < 0x20 || bytes[i] == 0x7f)
}

pub fn is_high_priority_control_bytes(bytes: &[u8]) -> (r: bool)
    ensures
        r == goes_first(bytes@),
{
    let mut i: usize = 0;
    while i < bytes.len()
        invariant
            i <= bytes@.len(),
            forall|k: int| 0 <= k < i ==> !((#[trigger] bytes@[k]) < 0x20 || bytes@[k] == 0x7f),
        decreases bytes@.len() - i,
    {
        if bytes[i] < 0x20 || bytes[i] == 0x7f {
            assert(bytes@[i as int] < 0x20 || bytes@[i as int] == 0x7f);
            return true;
        }
        i += 1;
    }
    false
}

impl InputView {
    /// A composition that ends: its text is typed.
    pub open spec fn committed(self) -> (InputView, Seq<u8>) {
        match self.marked {
            Some(text) => (
                InputView {
                    line: self.line.inserted(text),
                    marked: None,
                    marked_selection: None,
                    ..self
                },
                encode_utf8(text),
            ),
            None => (self, Seq::empty()),
        }
    }

    /// What is selected of the composed text, in UTF-16 code units: what the
    /// input method asked for, as far as the text goes, else nothing at its end.
    /// Without a composition there is no text to select from.
    pub open spec fn selection(self) -> (nat, nat) {
        match (self.marked, self.marked_selection) {
            (None, _) => (0, 0),
            (Some(text), None) => (utf16_len(text), utf16_len(text)),
            (Some(text), Some((start, end))) => {
                let from = if start < utf16_len(text) {
                    start as nat
                } else {
                    utf16_len(text)
                };
                let to = if end < utf16_len(text) {
                    end as nat
                } else {
                    utf16_len(text)
                };
                (
                    from,
                    if from < to {
                        to
                    } else {
                        from
                    },
                )
            },
        }
    }

    /// A text that is pasted, after a composition that it ends.
    pub open spec fn pasted(self, text: Seq<char>, bracketed: bool) -> (InputView, Seq<u8>) {
        let (base, before) = self.committed();
        (
            InputView { line: base.line.inserted(text), ..base },
            before + paste_bytes(text, bracketed),
        )
    }

    pub open spec fn after_key(
        self,
        keystroke: Keystroke,
        context: KeyContext,
        clipboard: Option<Seq<char>>,
    ) -> (InputView, KeyAction, Seq<u8>) {
        let mode = context.mode;
        let event = if context.held {
            KittyKeyEventType::Repeat
        } else {
            KittyKeyEventType::Press
        };
        if zoom_in_shortcut(keystroke) {
            (self, KeyAction::ZoomIn, Seq::empty())
        } else if zoom_out_shortcut(keystroke) {
            (self, KeyAction::ZoomOut, Seq::empty())
        } else if select_all_shortcut(keystroke, context.native_text_input) {
            if mode.alt_screen {
                (self, KeyAction::NothingToClear, Seq::empty())
            } else {
                (
                    InputView { line: Line::cleared(), ..self },
                    KeyAction::ClearLine,
                    seq![0x15u8],
                )
            }
        } else if paste_shortcut(keystroke) {
            match clipboard {
                None => (self, KeyAction::NothingToPaste, Seq::empty()),
                Some(text) => match paste_risk(text) {
                    Some(risk) => if self.prompt_open {
                        (self, KeyAction::PasteBusy, Seq::empty())
                    } else {
                        (
                            InputView { prompt_open: true, ..self },
                            KeyAction::AskBeforePaste(risk),
                            Seq::empty(),
                        )
                    },
                    None => {
                        let (after, bytes) = self.pasted(text, mode.bracketed_paste);
                        (after, KeyAction::Paste, bytes)
                    },
                },
            }
        } else if defers_to_text_input(
            keystroke,
            context.option_as_meta,
            context.native_text_input,
        ) && !mode.report_all_keys_as_esc {
            (self, KeyAction::Defer, Seq::empty())
        } else {
            match encoded_key(keystroke, mode, event) {
                Some(bytes) => (
                    InputView { line: self.line.edited(edit_of(bytes)), ..self },
                    KeyAction::Send {
                        first: goes_first(bytes),
                        enter: ascii_lower_text(keystroke.key@) == ascii_lower_text("enter"@),
                    },
                    bytes,
                ),
                None => (self, KeyAction::Ignore, Seq::empty()),
            }
        }
    }

    /// A text that is typed in place of a composition.
    pub open spec fn typed(self, text: Seq<char>) -> (InputView, Seq<u8>) {
        (
            InputView {
                line: self.line.inserted(text),
                marked: None,
                marked_selection: None,
                ..self
            },
            encode_utf8(text),
        )
    }

    /// A text that is typed in place of a range in UTF-16 code units. Where the
    /// range is a part of the line, this part is replaced, and the shell is given
    /// the line anew. A range that is empty or no part of the line names nothing
    /// to replace, and neither does one that comes with a composition, to which
    /// it then belongs, or while a full-screen program is on.
    pub open spec fn typed_over(
        self,
        range: Option<(usize, usize)>,
        text: Seq<char>,
        alt_screen: bool,
    ) -> (InputView, Seq<u8>) {
        match range {
            Some((start, end)) if start < end && end <= utf16_len(self.line.text)
                && self.marked is None && !alt_screen => {
                let line = self.line.replaced(start as nat, end as nat, text);
                (InputView { line, marked_selection: None, ..self }, rewrite_bytes(line))
            },
            _ => self.typed(text),
        }
    }

    pub open spec fn after_ax(
        self,
        text: Seq<char>,
        cursor: nat,
        cells: Seq<Seq<CellSnapshot>>,
        cursor_row: int,
        cursor_col: int,
        alt_screen: bool,
    ) -> (InputView, AxDecision, Seq<u8>) {
        let line = (Line { text, cursor }).clamped();
        if alt_screen {
            (self, AxDecision::NotAtPrompt, Seq::empty())
        } else if self.marked is Some {
            (self, AxDecision::Composing, Seq::empty())
        } else if self.line == line {
            (self, AxDecision::Unchanged, Seq::empty())
        } else if !fits_screen(text, self.line.text, cells, cursor_row, cursor_col) {
            (
                self,
                AxDecision::Rejected { noise: prefix_noise(text, self.line.text) },
                Seq::empty(),
            )
        } else {
            (InputView { line, ..self }, AxDecision::Applied, rewrite_bytes(line))
        }
    }
}

impl InputState {
    pub fn new() -> (state: Self)
        ensures
            state@ == (InputView {
                line: Line::cleared(),
                marked: None,
                marked_selection: None,
                prompt_open: false,
            }),
            state.line.published() == Line::cleared(),
    {
        InputState {
            line: InputLineMirror::new(),
            marked_text: None,
            marked_selection: None,
            paste_prompt_open: false,
        }
    }

    /// Ends a composition: its text is typed. Returns the bytes to send.
    pub fn commit_marked_text(&mut self) -> (bytes: Vec<u8>)
        ensures
            (final(self)@, bytes@) == old(self)@.committed(),
            final(self).line.published() == old(self).line.published(),
    {
        let mut bytes: Vec<u8> = Vec::new();
        let mut marked: Option<String> = None;
        std::mem::swap(&mut self.marked_text, &mut marked);
        if let Some(text) = marked {
            self.marked_selection = None;
            self.line.insert_at_cursor(text.as_str());
            bytes.extend_from_slice(text.as_str().as_bytes());
            assert(bytes@ =~= encode_utf8(text@));
        }
        bytes
    }

    fn paste(&mut self, text: &str, bracketed: bool) -> (bytes: Vec<u8>)
        ensures
            (final(self)@, bytes@) == old(self)@.pasted(text@, bracketed),
            final(self).line.published() == old(self).line.published(),
    {
        let mut bytes = self.commit_marked_text();
        self.line.insert_at_cursor(text);
        let pasted = paste_input(text, bracketed);
        bytes.extend_from_slice(pasted.as_slice());
        bytes
    }

    /// Goes on after the question about a paste. Returns the bytes to send.
    pub fn answer_paste_prompt(&mut self, allowed: bool, text: &str, bracketed: bool) -> (bytes:
        Vec<u8>)
        ensures
            (final(self)@, bytes@) == if allowed {
                (InputView { prompt_open: false, ..old(self)@ }).pasted(text@, bracketed)
            } else {
                (InputView { prompt_open: false, ..old(self)@ }, Seq::<u8>::empty())
            },
            final(self).line.published() == old(self).line.published(),
    {
        self.paste_prompt_open = false;
        if allowed {
            self.paste(text, bracketed)
        } else {
            let bytes: Vec<u8> = Vec::new();
            assert(bytes@ =~= Seq::<u8>::empty());
            bytes
        }
    }

    /// Types the paths of dropped files, after a composition that they end.
    /// Returns the bytes to send.
    pub fn drop_paths(&mut self, paths: &[String]) -> (bytes: Vec<u8>)
        ensures
            ({
                let text = shell_words(text_views(paths@));
                let (base, before) = old(self)@.committed();
                (final(self)@, bytes@) == if text.len() == 0 {
                    (old(self)@, Seq::<u8>::empty())
                } else {
                    (
                        InputView { line: base.line.inserted(text), ..base },
                        before + encode_utf8(text),
                    )
                }
            }),
            final(self).line.published() == old(self).line.published(),
    {
        let text = dropped_paths_text(paths);
        if text.as_str().is_empty() {
            let bytes: Vec<u8> = Vec::new();
            assert(bytes@ =~= Seq::<u8>::empty());
            return bytes;
        }
        let mut bytes = self.commit_marked_text();
        self.line.insert_at_cursor(text.as_str());
        bytes.extend_from_slice(text.as_str().as_bytes());
        bytes
    }

    /// Takes a pressed key. Returns what it led to, and the bytes to send.
    /// `clipboard` is the text on the clipboard.
    pub fn on_key_down(
        &mut self,
        keystroke: &Keystroke,
        context: KeyContext,
        clipboard: &Option<String>,
    ) -> (r: (KeyAction, Vec<u8>))
        ensures
            (final(self)@, r.0, r.1@) == old(self)@.after_key(
                *keystroke,
                context,
                text_view(*clipboard),
            ),
            final(self).line.published() == old(self).line.published(),
    {
        let mut bytes: Vec<u8> = Vec::new();
        assert(bytes@ =~= Seq::<u8>::empty());
        if is_zoom_in_shortcut(keystroke) {
            return (KeyAction::ZoomIn, bytes);
        }
        if is_zoom_out_shortcut(keystroke) {
            return (KeyAction::ZoomOut, bytes);
        }
        if is_select_all_shortcut(keystroke, context.native_text_input) {
            if context.mode.alt_screen {
                return (KeyAction::NothingToClear, bytes);
            }
            self.line.clear();
            bytes.push(0x15);
            assert(bytes@ =~= seq![0x15u8]);
            return (KeyAction::ClearLine, bytes);
        }
        if is_paste_shortcut(keystroke) {
            return match clipboard {
                None => (KeyAction::NothingToPaste, bytes),
                Some(text) => match evaluate_paste_risk(text.as_str()) {
                    Some(risk) => if self.paste_prompt_open {
                        (KeyAction::PasteBusy, bytes)
                    } else {
                        self.paste_prompt_open = true;
                        (KeyAction::AskBeforePaste(risk), bytes)
                    },
                    None => {
                        let sent = self.paste(text.as_str(), context.mode.bracketed_paste);
                        (KeyAction::Paste, sent)
                    },
                },
            };
        }
        if should_defer_to_text_input(
            keystroke,
            context.option_as_meta,
            context.native_text_input,
        ) && !context.mode.report_all_keys_as_esc {
            return (KeyAction::Defer, bytes);
        }
        let event = if context.held {
            KittyKeyEventType::Repeat
        } else {
            KittyKeyEventType::Press
        };
        match encode_keystroke_with_mode(keystroke, context.mode, event) {
            Some(sent) => {
                let first = is_high_priority_control_bytes(sent.as_slice());
                let enter = same_text_ignoring_case(keystroke.key.as_str(), "enter");
                self.line.apply_terminal_bytes(sent.as_slice());
                (KeyAction::Send { first, enter }, sent)
            },
            None => (KeyAction::Ignore, bytes),
        }
    }

    /// Takes over what a tool put into the line, where it fits. Returns what it
    /// led to, and the bytes to send.
    pub fn apply_external_ax_input_state(
        &mut self,
        text: String,
        cursor_utf16: usize,
        cells: &[Vec<CellSnapshot>],
        cursor_row: usize,
        cursor_col: usize,
        alt_screen: bool,
    ) -> (r: (AxDecision, Vec<u8>))
        ensures
            (final(self)@, r.0, r.1@) == old(self)@.after_ax(
                text@,
                cursor_utf16 as nat,
                row_views(cells@),
                cursor_row as int,
                cursor_col as int,
                alt_screen,
            ),
            final(self).line.published() == old(self).line.published(),
    {
        let bytes: Vec<u8> = Vec::new();
        assert(bytes@ =~= Seq::<u8>::empty());
        if alt_screen {
            return (AxDecision::NotAtPrompt, bytes);
        }
        if self.marked_text.is_some() {
            return (AxDecision::Composing, bytes);
        }
        let len: usize = count_utf16(text.as_str());
        let cursor: usize = if cursor_utf16 < len {
            cursor_utf16
        } else {
            len
        };
        if same_text(self.line.line(), text.as_str()) && self.line.cursor_utf16() == cursor {
            return (AxDecision::Unchanged, bytes);
        }
        if !ax_text_matches_screen_context(
            text.as_str(),
            self.line.line(),
            cells,
            cursor_row,
            cursor_col,
        ) {
            let noise = probable_ascii_prefix_noise(text.as_str(), self.line.line());
            return (AxDecision::Rejected { noise }, bytes);
        }
        self.line.set_state(text, cursor);
        (AxDecision::Applied, rewrite_terminal_input_line(&self.line))
    }

    // The text input of the platform.

    /// The part of the composed text in a range of UTF-16 code units, and the
    /// range that this is. A range without a unit has no text.
    pub fn text_for_range(&self, start: usize, end: usize) -> (r: Option<(String, (usize, usize))>)
        ensures
            match self@.marked {
                None => r is None,
                Some(marked) => {
                    let len = utf16_len(marked);
                    let from = if start < len {
                        start as nat
                    } else {
                        len
                    };
                    let to = if end < len {
                        end as nat
                    } else {
                        len
                    };
                    match r {
                        None => false,
                        Some((part, (first, last))) => if from < to {
                            &&& part@ == marked.subrange(
                                chars_before(marked, from),
                                chars_before(marked, to),
                            )
                            &&& first == from
                            &&& last == to
                        } else {
                            part@.len() == 0 && first == from && last == from
                        },
                    }
                },
            },
    {
        match &self.marked_text {
            None => None,
            Some(marked) => {
                let len: usize = count_utf16(marked.as_str());
                let from: usize = if start < len {
                    start
                } else {
                    len
                };
                let to: usize = if end < len {
                    end
                } else {
                    len
                };
                if from >= to {
                    return Some((String::new(), (from, from)));
                }
                proof {
                    lemma_chars_before_grows(marked@, from as nat, to as nat);
                }
                match utf16_substring(marked.as_str(), from..to) {
                    Some(text) => Some((text, (from, to))),
                    None => Some((String::new(), (from, to))),
                }
            },
        }
    }

    /// The range of the composed text in UTF-16 code units.
    pub fn marked_text_range(&self) -> (r: Option<(usize, usize)>)
        ensures
            match r {
                Some(range) => self@.marked matches Some(text) && range.0 == 0 && range.1
                    == utf16_len(text),
                None => self@.marked is None,
            },
    {
        match &self.marked_text {
            Some(text) => Some((0, count_utf16(text.as_str()))),
            None => None,
        }
    }

    /// What is selected of the composed text, in UTF-16 code units. There is
    /// nothing to select from while a full-screen program is on.
    pub fn selected_text_range(&self, alt_screen: bool) -> (r: Option<(usize, usize)>)
        ensures
            match r {
                Some(range) => !alt_screen && (range.0 as nat, range.1 as nat) == self@.selection(),
                None => alt_screen,
            },
    {
        if alt_screen {
            return None;
        }
        match &self.marked_text {
            None => Some((0, 0)),
            Some(text) => {
                let len: usize = count_utf16(text.as_str());
                match self.marked_selection {
                    None => Some((len, len)),
                    Some((start, end)) => {
                        let from: usize = if start < len {
                            start
                        } else {
                            len
                        };
                        let to: usize = if end < len {
                            end
                        } else {
                            len
                        };
                        Some(
                            (
                                from,
                                if from < to {
                                    to
                                } else {
                                    from
                                },
                            ),
                        )
                    },
                }
            },
        }
    }

    /// The composition goes on with another text and what the input method
    /// selects of it.
    pub fn set_marked_text(&mut self, text: &str, selected: Option<(usize, usize)>)
        ensures
            final(self)@ == (InputView {
                marked: if text@.len() == 0 {
                    None
                } else {
                    Some(text@)
                },
                marked_selection: if text@.len() == 0 {
                    None
                } else {
                    selected
                },
                ..old(self)@
            }),
            final(self).line.published() == old(self).line.published(),
    {
        if text.is_empty() {
            self.marked_text = None;
            self.marked_selection = None;
        } else {
            self.marked_text = Some(text.to_owned());
            self.marked_selection = selected;
        }
    }

    /// A text is typed in place of a composition. Returns the bytes to send.
    pub fn replace_text(&mut self, text: &str) -> (bytes: Vec<u8>)
        ensures
            (final(self)@, bytes@) == old(self)@.typed(text@),
            final(self).line.published() == old(self).line.published(),
    {
        self.marked_text = None;
        self.marked_selection = None;
        self.line.insert_at_cursor(text);
        let mut bytes: Vec<u8> = Vec::new();
        bytes.extend_from_slice(text.as_bytes());
        assert(bytes@ =~= encode_utf8(text@));
        bytes
    }

    /// A text is typed in place of a range of the line, as dictation and
    /// corrections of typed text ask for. Returns the bytes to send.
    pub fn replace_text_in_range(
        &mut self,
        range: Option<(usize, usize)>,
        text: &str,
        alt_screen: bool,
    ) -> (bytes: Vec<u8>)
        requires
            range matches Some((start, _)) ==> start + utf16_len(text@) <= usize::MAX,
        ensures
            (final(self)@, bytes@) == old(self)@.typed_over(range, text@, alt_screen),
            final(self).line.published() == old(self).line.published(),
    {
        if let Some((start, end)) = range {
            if start < end && end <= self.line.len_utf16() && self.marked_text.is_none()
                && !alt_screen {
                self.marked_selection = None;
                self.line.replace_range_utf16(start, end, text);
                return rewrite_terminal_input_line(&self.line);
            }
        }
        self.replace_text(text)
    }
}

/// The bytes that a released key sends, where programs ask for releases.
pub fn on_key_up(keystroke: &Keystroke, mode: TermMode) -> (bytes: Option<Vec<u8>>)
    ensures
        bytes_view(bytes) == if mode.report_event_types {
            encoded_key(*keystroke, mode, KittyKeyEventType::Release)
        } else {
            None
        },
{
    if !mode.report_event_types {
        return None;
    }
    encode_keystroke_with_mode(keystroke, mode, KittyKeyEventType::Release)
}

proof fn lemma_chars_before_grows(text: Seq<char>, from: nat, to: nat)
    requires
        from <= to,
    ensures
        chars_before(text, from) <= chars_before(text, to),
{
    crate::text_utils::lemma_chars_before(text, from);
    crate::text_utils::lemma_chars_before(text, to);
    let a = chars_before(text, from);
    let b = chars_before(text, to);
    if b < a {
        crate::chars::lemma_prefix_lens(text, b + 1, a);
    }
}

// ---------------------------------------------------------------------------
// Laws
// ---------------------------------------------------------------------------

/// Law: what is composed is never lost. Whatever ends a composition, its text
/// is sent, and the model holds it.
pub proof fn law_a_composition_is_typed(view: InputView, text: Seq<char>, bracketed: bool)
    requires
        view.marked is Some,
    ensures
        view.committed().1 == encode_utf8(view.marked->0),
        view.committed().0.line == view.line.inserted(view.marked->0),
        view.pasted(text, bracketed).1 == encode_utf8(view.marked->0) + paste_bytes(
            text,
            bracketed,
        ),
        view.pasted(text, bracketed).0.marked is None,
{
}

/// Law: replacing a part of the line changes nothing around it, and the shell
/// then has the line that the model has.
pub proof fn law_a_replacement_keeps_the_rest(
    view: InputView,
    start: usize,
    end: usize,
    text: Seq<char>,
    shell: Line,
)
    requires
        start < end,
        end <= utf16_len(view.line.text),
        view.marked is None,
    ensures
        ({
            let (after, bytes) = view.typed_over(Some((start, end)), text, false);
            let line = after.line;
            let from = chars_before(view.line.text, start as nat);
            let to = chars_before(view.line.text, end as nat);
            let steps = (line.text.len() - line.at()) as nat;
            &&& 0 <= from <= to <= view.line.text.len()
            &&& line.text == view.line.text.take(from) + text + view.line.text.skip(to)
            &&& bytes == seq![0x15u8] + encode_utf8(line.text) + repeated(
                seq![0x1bu8, 0x5b, 0x44],
                steps,
            )
            &&& shell.edited(LineEdit::Clear).inserted(line.text).stepped_left(steps).text
                == line.text
        }),
{
    let line = view.typed_over(Some((start, end)), text, false).0.line;
    lemma_chars_before_grows(view.line.text, start as nat, end as nat);
    crate::text_utils::lemma_chars_before(view.line.text, start as nat);
    crate::text_utils::lemma_chars_before(view.line.text, end as nat);
    law_a_rewrite_gives_the_shell_the_line(line, shell);
}

/// Law: what is selected of a composition lies within it, and is what the input
/// method asked for wherever that lies within it.
pub proof fn law_the_selection_lies_in_the_composition(view: InputView)
    ensures
        view.selection().0 <= view.selection().1,
        view.marked is None ==> view.selection() == (0nat, 0nat),
        view.marked matches Some(text) ==> view.selection().1 <= utf16_len(text) && match view.marked_selection {
            Some((start, end)) => start <= end <= utf16_len(text) ==> view.selection() == (
                start as nat,
                end as nat,
            ),
            None => view.selection().0 == utf16_len(text),
        },
{
}

/// Law: many lines are enough for a question, and so is a large part beyond
/// ASCII; a short paste is never asked about.
pub proof fn law_risky_pastes_are_asked_about(text: Seq<char>)
    ensures
        text.len() >= PASTE_GUARD_MIN_CHARS && line_count(text) >= PASTE_GUARD_MIN_LINES
            ==> paste_risk(text) is Some,
        text.len() >= PASTE_GUARD_MIN_CHARS && is_mostly_beyond_ascii(text) ==> paste_risk(
            text,
        ) is Some,
        text.len() < PASTE_GUARD_MIN_CHARS ==> paste_risk(text) is None,
{
}

/// Law: tools change nothing while a full-screen program is on or a text is
/// composed, and what they change the shell is told: the line is cleared first.
pub proof fn law_tools_only_replace_the_line_at_a_prompt(
    view: InputView,
    text: Seq<char>,
    cursor: nat,
    cells: Seq<Seq<CellSnapshot>>,
    cursor_row: int,
    cursor_col: int,
    alt_screen: bool,
)
    ensures
        ({
            let (after, decision, bytes) = view.after_ax(
                text,
                cursor,
                cells,
                cursor_row,
                cursor_col,
                alt_screen,
            );
            &&& decision != AxDecision::Applied ==> after == view && bytes.len() == 0
            &&& decision == AxDecision::Applied ==> !alt_screen && view.marked is None
                && bytes.len() > 0 && bytes[0] == 0x15 && after.line.text == text
        }),
{
}

/// Law: a key that the window or the text input keeps sends nothing, and a key
/// that is sent is what the model follows.
pub proof fn law_the_model_follows_what_is_sent(
    view: InputView,
    keystroke: Keystroke,
    context: KeyContext,
    clipboard: Option<Seq<char>>,
)
    ensures
        ({
            let (after, action, bytes) = view.after_key(keystroke, context, clipboard);
            &&& action is Send ==> after.line == view.line.edited(edit_of(bytes))
            &&& action == KeyAction::ClearLine ==> after.line == view.line.edited(edit_of(bytes))
            &&& (action == KeyAction::ZoomIn || action == KeyAction::ZoomOut || action
                == KeyAction::Defer || action == KeyAction::Ignore || action
                == KeyAction::NothingToClear || action == KeyAction::NothingToPaste || action
                == KeyAction::PasteBusy) ==> bytes.len() == 0 && after == view
        }),
{
    let (after, action, bytes) = view.after_key(keystroke, context, clipboard);
    if action == KeyAction::ClearLine {
        assert(bytes == seq![0x15u8]);
    }
}

/// Law: whatever the shell's line is, a rewrite makes it the model's. It is the
/// code that clears a line, the text, and the code for a step to the left so many
/// times; a shell that takes them in turn then has the text of the model and its
/// cursor before the same character.
pub proof fn law_a_rewrite_gives_the_shell_the_line(line: Line, shell: Line)
    ensures
        ({
            let clear = seq![0x15u8];
            let left = seq![0x1bu8, 0x5b, 0x44];
            let steps = (line.text.len() - line.at()) as nat;
            &&& rewrite_bytes(line) == clear + encode_utf8(line.text) + repeated(left, steps)
            &&& edit_of(clear) == LineEdit::Clear
            &&& edit_of(left) == LineEdit::Left
            &&& shell.edited(LineEdit::Clear).inserted(line.text).stepped_left(steps) == (Line {
                text: line.text,
                cursor: utf16_len(line.text.take(line.at())),
            })
            &&& line.wf() ==> shell.edited(LineEdit::Clear).inserted(line.text).stepped_left(steps)
                == line
        }),
{
    let text = line.text;
    let typed = Line::cleared().inserted(text);
    crate::text_utils::lemma_chars_before(text, line.cursor);
    lemma_single_byte_edits(0x15);
    lemma_escape_edits(seq![0x1bu8, 0x5b, 0x44]);
    assert(Seq::<char>::empty().take(0) =~= Seq::<char>::empty());
    law_typing_at_the_end_extends_the_line(Line::cleared(), text);
    assert(Seq::<char>::empty() + text =~= text);
    assert(typed == (Line { text, cursor: utf16_len(text) }));
    law_steps_to_the_left_count_characters(text, (text.len() - line.at()) as nat);
}

proof fn lemma_returns_of_parts(a: Seq<char>, b: Seq<char>)
    requires
        !(a.len() > 0 && b.len() > 0 && a.last() == '\r' && b[0] == '\n'),
    ensures
        with_returns(a + b) == with_returns(a) + with_returns(b),
    decreases a.len(),
{
    let all = a + b;
    if a.len() == 0 {
        assert(all =~= b);
        assert(with_returns(a) + with_returns(b) =~= with_returns(b));
    } else {
        let step: int = if a.len() >= 2 && a[0] == '\r' && a[1] == '\n' {
            2
        } else {
            1
        };
        assert(all[0] == a[0]);
        if all.len() >= 2 && a.len() == 1 {
            assert(all[1] == b[0]);
        }
        let rest = a.skip(step);
        assert(all.skip(step) =~= rest + b);
        if rest.len() > 0 {
            assert(rest.last() == a.last());
        }
        lemma_returns_of_parts(rest, b);
        assert(with_returns(all) =~= with_returns(a) + with_returns(b));
    }
}

proof fn lemma_escapes_of_parts(a: Seq<char>, b: Seq<char>)
    ensures
        without_escapes(a + b) == without_escapes(a) + without_escapes(b),
    decreases b.len(),
{
    if b.len() == 0 {
        assert(a + b =~= a);
        assert(without_escapes(a) + without_escapes(b) =~= without_escapes(a));
    } else {
        lemma_escapes_of_parts(a, b.drop_last());
        assert((a + b).drop_last() =~= a + b.drop_last());
        assert((a + b).last() == b.last());
        assert(without_escapes(a + b) =~= without_escapes(a) + without_escapes(b));
    }
}

/// Law: a text is pasted part by part: what comes of two texts, one behind the
/// other, is what comes of each. Only a line break is not taken apart.
pub proof fn law_pasting_part_by_part(a: Seq<char>, b: Seq<char>)
    requires
        !(a.len() > 0 && b.len() > 0 && a.last() == '\r' && b[0] == '\n'),
    ensures
        pasted_text(a + b) == pasted_text(a) + pasted_text(b),
{
    lemma_returns_of_parts(a, b);
    lemma_escapes_of_parts(with_returns(a), with_returns(b));
}

/// Law: each of the two line breaks is pasted as one carriage return, the escape
/// is not pasted at all, and every other character as it is.
pub proof fn law_pasting_a_character(c: char)
    ensures
        pasted_text(Seq::empty()) == Seq::<char>::empty(),
        pasted_text(seq!['\r', '\n']) == seq!['\r'],
        c == '\n' ==> pasted_text(seq![c]) == seq!['\r'],
        c == '\u{1b}' ==> pasted_text(seq![c]) == Seq::<char>::empty(),
        c != '\n' && c != '\u{1b}' ==> pasted_text(seq![c]) == seq![c],
{
    let none = Seq::<char>::empty();
    assert(with_returns(none) =~= none);
    assert(without_escapes(none) =~= none);
    assert(seq!['\r', '\n'].skip(2) =~= none);
    assert(with_returns(seq!['\r', '\n']) =~= seq!['\r']);
    lemma_without_escapes_one('\r');
    let sent = if c == '\n' {
        '\r'
    } else {
        c
    };
    assert(seq![c].skip(1) =~= none);
    assert(with_returns(seq![c]) =~= seq![sent]);
    lemma_without_escapes_one(sent);
}

proof fn lemma_without_escapes_one(c: char)
    ensures
        without_escapes(seq![c]) == if c == ESCAPE {
            Seq::<char>::empty()
        } else {
            seq![c]
        },
{
    let none = Seq::<char>::empty();
    assert(without_escapes(none) =~= none);
    assert(seq![c].drop_last() =~= none);
    assert(none.push(c) =~= seq![c]);
}

/// Law: a text without line feeds and escapes is pasted unchanged.
pub proof fn law_ordinary_text_is_pasted_unchanged(text: Seq<char>)
    requires
        !text.contains('\n'),
        !text.contains('\u{1b}'),
    ensures
        pasted_text(text) == text,
    decreases text.len(),
{
    if text.len() == 0 {
        law_pasting_a_character(' ');
        assert(text =~= Seq::<char>::empty());
    } else {
        let front = text.drop_last();
        assert forall|i: int| 0 <= i < front.len() implies front[i] != '\n' && front[i]
            != '\u{1b}' by {
            assert(text.contains(text[i]));
        }
        assert(text.contains(text.last()));
        law_ordinary_text_is_pasted_unchanged(front);
        law_pasting_part_by_part(front, seq![text.last()]);
        law_pasting_a_character(text.last());
        assert(front + seq![text.last()] =~= text);
    }
}

/// The characters of a text that are neither part of a line break nor escapes.
pub open spec fn plain_chars(text: Seq<char>) -> Seq<char> {
    text.filter(|c: char| c != '\n' && c != '\r' && c != '\u{1b}')
}

/// Law: every character that is neither part of a line break nor an escape is
/// pasted as often as it occurs, and in the same order.
pub proof fn law_pasting_keeps_the_other_characters(text: Seq<char>)
    ensures
        plain_chars(pasted_text(text)) == plain_chars(text),
    decreases text.len(),
{
    reveal(Seq::filter);
    if text.len() == 0 {
        law_pasting_a_character(' ');
        assert(text =~= Seq::<char>::empty());
    } else {
        let split: int = if text.len() >= 2 && text.last() == '\n' && text[text.len() - 2] == '\r' {
            2
        } else {
            1
        };
        let front = text.take(text.len() - split);
        let back = text.skip(text.len() - split);
        assert(front + back =~= text);
        law_pasting_keeps_the_other_characters(front);
        law_pasting_part_by_part(front, back);
        law_pasting_a_character(text.last());
        let keep = |c: char| c != '\n' && c != '\r' && c != '\u{1b}';
        Seq::filter_distributes_over_add(pasted_text(front), pasted_text(back), keep);
        Seq::filter_distributes_over_add(front, back, keep);
        if split == 2 {
            assert(back =~= seq!['\r', '\n']);
            assert(back.drop_last() =~= seq!['\r']);
            assert(back.drop_last().drop_last() =~= Seq::<char>::empty());
            assert(seq!['\r'].drop_last() =~= Seq::<char>::empty());
            assert(back.filter(keep) =~= pasted_text(back).filter(keep));
        } else {
            assert(back =~= seq![text.last()]);
            assert(back.drop_last() =~= Seq::<char>::empty());
            if text.last() == '\n' {
                assert(seq!['\r'].drop_last() =~= Seq::<char>::empty());
            }
            assert(back.filter(keep) =~= pasted_text(back).filter(keep));
        }
    }
}

/// Law: a paste sends its text in UTF-8; between the two marks where the program
/// asks for them; and nothing where there is no text.
pub proof fn law_pastes_are_marked(text: Seq<char>)
    ensures
        paste_bytes(Seq::empty(), true).len() == 0,
        paste_bytes(Seq::empty(), false).len() == 0,
        text.len() > 0 ==> paste_bytes(text, false) == encode_utf8(pasted_text(text)),
        text.len() > 0 ==> paste_bytes(text, true) == seq![0x1bu8, 0x5b, 0x32, 0x30, 0x30, 0x7e]
            + paste_bytes(text, false) + seq![0x1bu8, 0x5b, 0x32, 0x30, 0x31, 0x7e],
{
}

proof fn lemma_beyond_ascii(c: char)
    ensures
        c as u32 >= 128 <==> c > '\u{7f}',
{
}

proof fn lemma_counts_as_filters(text: Seq<char>)
    ensures
        newline_count(text) == text.filter(|c: char| c == '\n').len(),
        visible_count(text) == text.filter(|c: char| !control_char(c) && !whitespace_char(c)).len(),
        non_ascii_count(text) == text.filter(
            |c: char| !control_char(c) && !whitespace_char(c) && c > '\u{7f}',
        ).len(),
    decreases text.len(),
{
    reveal(Seq::filter);
    if text.len() > 0 {
        lemma_counts_as_filters(text.drop_last());
        lemma_beyond_ascii(text.last());
    }
}

/// Law: a paste is asked about where it has 120 characters or more, and either four
/// lines or more, or at least 35 in a hundred of its visible characters beyond
/// ASCII; and what is told of it are its lines, its characters, how many are
/// visible, and how many of these are beyond ASCII.
pub proof fn law_what_is_asked_about(text: Seq<char>)
    ensures
        ({
            let newlines = text.filter(|c: char| c == '\n').len();
            let visible = text.filter(|c: char| !control_char(c) && !whitespace_char(c)).len();
            let beyond = text.filter(
                |c: char| !control_char(c) && !whitespace_char(c) && c > '\u{7f}',
            ).len();
            let lines = newlines + if text.len() > 0 && text.last() != '\n' {
                1int
            } else {
                0
            };
            &&& paste_risk(text) is Some <==> text.len() >= 120 && (lines >= 4 || (visible > 0
                && 100 * beyond >= 35 * visible))
            &&& paste_risk(text) is Some ==> {
                &&& (paste_risk(text)->0).line_count == lines as usize
                &&& (paste_risk(text)->0).char_count == text.len() as usize
                &&& (paste_risk(text)->0).visible_chars == visible as usize
                &&& (paste_risk(text)->0).non_ascii_chars == beyond as usize
            }
        }),
{
    lemma_counts_as_filters(text);
}

/// Law: bytes are sent before the model follows where a control code or the delete
/// code is among them; printable text is not.
pub proof fn law_control_bytes_go_first(bytes: Seq<u8>, i: int)
    ensures
        0 <= i < bytes.len() && (bytes[i] < 0x20 || bytes[i] == 0x7f) ==> goes_first(bytes),
        (forall|k: int| 0 <= k < bytes.len() ==> (#[trigger] bytes[k]) >= 0x20 && bytes[k] != 0x7f)
            ==> !goes_first(bytes),
{
}

/// Law: a tool's text may stand on the screen where the row of the cursor, or the
/// part of it before the cursor, ends with it; not where it ends with what the
/// model holds instead.
pub proof fn law_tools_and_the_screen(
    front: Seq<char>,
    text: Seq<char>,
    model: Seq<char>,
    other: Seq<char>,
)
    requires
        text.len() > 0,
    ensures
        model.len() == 0 ==> fits_visible_input(text, model, other, front + text),
        model.len() == 0 ==> fits_visible_input(text, model, front + text, other),
        text == model ==> fits_visible_input(text, model, other, front + text),
        model.len() > 0 && text != model ==> !fits_visible_input(text, model, other, front + model)
            && !fits_visible_input(text, model, front + model, other),
        fits_visible_input(Seq::empty(), model, front, other),
        fits_visible_input(text, model, other, front) ==> ends_with(front, text) || ends_with(
            other,
            text,
        ),
{
    lemma_ends_with(front, text);
    lemma_ends_with(front, model);
}

proof fn lemma_ends_with(front: Seq<char>, end: Seq<char>)
    ensures
        ends_with(front + end, end),
{
    let all = front + end;
    assert(all.skip(all.len() - end.len()) =~= end);
}

/// Law: where a text ends with another.
pub proof fn law_ends_of_texts(text: Seq<char>, end: Seq<char>)
    ensures
        ends_with(text, end) <==> exists|front: Seq<char>| text == #[trigger] (front + end),
{
    if ends_with(text, end) {
        let front = text.take(text.len() - end.len());
        assert(text =~= front + end);
    }
    if exists|front: Seq<char>| text == #[trigger] (front + end) {
        let front = choose|front: Seq<char>| text == #[trigger] (front + end);
        lemma_ends_with(front, end);
    }
}

/// Law: a text of letters and digits of ASCII, one to four, before the model's text
/// is noise; anything else before it is none.
pub proof fn law_leaked_letters(front: Seq<char>, model: Seq<char>)
    requires
        model.len() > 0,
    ensures
        prefix_noise(front + model, model) <==> 1 <= front.len() <= 4 && (forall|i: int|
            0 <= i < front.len() ==> '0' <= (#[trigger] front[i]) <= '9' || 'a' <= front[i] <= 'z'
                || 'A' <= front[i] <= 'Z'),
{
    let all = front + model;
    assert(all.skip(front.len() as int) =~= model);
    assert forall|i: int| 0 <= i < front.len() implies #[trigger] all[i] == front[i] by {}
    if prefix_noise(all, model) {
        assert forall|i: int| 0 <= i < front.len() implies '0' <= (#[trigger] front[i]) <= '9'
            || 'a' <= front[i] <= 'z' || 'A' <= front[i] <= 'Z' by {
            assert(is_alphanumeric_ascii(all[i]));
        }
    }
}

/// Law: pasting with the keys sends the text of the clipboard as a paste, behind a
/// composition, and the model has it at its cursor; a paste that is asked about
/// sends nothing yet.
pub proof fn law_pasting_with_the_keys(
    view: InputView,
    keystroke: Keystroke,
    context: KeyContext,
    text: Seq<char>,
)
    requires
        paste_shortcut(keystroke),
        !zoom_in_shortcut(keystroke),
        !zoom_out_shortcut(keystroke),
    ensures
        ({
            let (after, action, bytes) = view.after_key(keystroke, context, Some(text));
            &&& !select_all_shortcut(keystroke, context.native_text_input)
            &&& paste_risk(text) is None ==> {
                &&& action == KeyAction::Paste
                &&& view.marked is None ==> bytes == paste_bytes(text, context.mode.bracketed_paste)
                    && after.line == view.line.inserted(text)
                &&& view.marked matches Some(marked) ==> bytes == encode_utf8(marked) + paste_bytes(
                    text,
                    context.mode.bracketed_paste,
                ) && after.line == view.line.inserted(marked).inserted(text) && after.marked is None
            }
            &&& paste_risk(text) is Some ==> bytes.len() == 0 && after.line == view.line
                && after.prompt_open
        }),
{
    crate::keyboard::law_shortcuts_of_editing(keystroke, context.native_text_input);
    let key = keystroke.key@;
    assert(seq!['v'][0] == 'v' && seq!['V'][0] == 'V' && seq!['a'][0] == 'a' && seq!['A'][0]
        == 'A');
    assert(Seq::<u8>::empty() + paste_bytes(text, context.mode.bracketed_paste) =~= paste_bytes(
        text,
        context.mode.bracketed_paste,
    ));
}

/// Law: a key that is neither a shortcut nor left to the text input sends what it
/// is encoded as, and nothing where it has no encoding; command and A clears the
/// line, but not while a full-screen program is on.
pub proof fn law_keys_send_their_encoding(
    view: InputView,
    keystroke: Keystroke,
    context: KeyContext,
    clipboard: Option<Seq<char>>,
)
    requires
        !zoom_in_shortcut(keystroke),
        !zoom_out_shortcut(keystroke),
    ensures
        ({
            let (after, action, bytes) = view.after_key(keystroke, context, clipboard);
            let event = if context.held {
                KittyKeyEventType::Repeat
            } else {
                KittyKeyEventType::Press
            };
            let all = select_all_shortcut(keystroke, context.native_text_input);
            &&& all && !context.mode.alt_screen ==> bytes == seq![0x15u8]
                && after.line.text.len() == 0 && after.line.cursor == 0
            &&& all && context.mode.alt_screen ==> bytes.len() == 0 && after == view
            &&& !all && !paste_shortcut(keystroke) && !context.native_text_input
                ==> match encoded_key(keystroke, context.mode, event) {
                Some(sent) => bytes == sent && action is Send,
                None => bytes.len() == 0 && action == KeyAction::Ignore,
            }
            &&& !all && !paste_shortcut(keystroke) && defers_to_text_input(
                keystroke,
                context.option_as_meta,
                context.native_text_input,
            ) && !context.mode.report_all_keys_as_esc ==> action == KeyAction::Defer && bytes.len()
                == 0
        }),
{
}

} // verus!
