//! Positions in a text, counted in UTF-16 code units as the accessibility
//! interface does, and edits at such positions.
use std::ops::Range;
use vstd::prelude::*;

use crate::chars::{
    char_len_utf16, char_len_utf8, chars_of, count_utf16, is_whitespace, lemma_encode_push,
    lemma_prefix_lens, push_chars, same_text, text_of, utf16_len, utf8_len, whitespace_char,
};

verus! {

/// How many of the first `limit` characters lie before a position in UTF-16
/// code units: the most that fit. A position inside a surrogate pair counts as
/// the start of its character.
pub open spec fn chars_before_in(text: Seq<char>, utf16_index: nat, limit: int) -> int
    decreases limit,
{
    if limit <= 0 || utf16_len(text.take(limit)) <= utf16_index {
        limit
    } else {
        chars_before_in(text, utf16_index, limit - 1)
    }
}

/// How many characters of a text lie before a position in UTF-16 code units.
pub open spec fn chars_before(text: Seq<char>, utf16_index: nat) -> int {
    chars_before_in(text, utf16_index, text.len() as int)
}

/// The number of characters before a position is the one whose code units fit
/// before it while those of one more character do not.
pub proof fn lemma_chars_before_unique(text: Seq<char>, utf16_index: nat, k: int)
    requires
        0 <= k <= text.len(),
        utf16_len(text.take(k)) <= utf16_index,
        k == text.len() || utf16_index < utf16_len(text.take(k + 1)),
    ensures
        chars_before(text, utf16_index) == k,
{
    lemma_chars_before_in_unique(text, utf16_index, k, text.len() as int);
}

proof fn lemma_chars_before_in_unique(text: Seq<char>, utf16_index: nat, k: int, limit: int)
    requires
        0 <= k <= limit <= text.len(),
        utf16_len(text.take(k)) <= utf16_index,
        k == text.len() || utf16_index < utf16_len(text.take(k + 1)),
    ensures
        chars_before_in(text, utf16_index, limit) == k,
    decreases limit,
{
    if limit > k {
        lemma_prefix_lens(text, k + 1, limit);
        lemma_chars_before_in_unique(text, utf16_index, k, limit - 1);
    }
}

pub proof fn lemma_chars_before(text: Seq<char>, utf16_index: nat)
    ensures
        0 <= chars_before(text, utf16_index) <= text.len(),
        utf16_len(text.take(chars_before(text, utf16_index))) <= utf16_index,
        chars_before(text, utf16_index) < text.len() ==> utf16_index < utf16_len(
            text.take(chars_before(text, utf16_index) + 1),
        ),
{
    lemma_chars_before_in(text, utf16_index, text.len() as int);
}

proof fn lemma_chars_before_in(text: Seq<char>, utf16_index: nat, limit: int)
    requires
        0 <= limit <= text.len(),
        limit == text.len() || utf16_index < utf16_len(text.take(limit + 1)),
    ensures
        ({
            let k = chars_before_in(text, utf16_index, limit);
            &&& 0 <= k <= limit
            &&& utf16_len(text.take(k)) <= utf16_index
            &&& k < text.len() ==> utf16_index < utf16_len(text.take(k + 1))
        }),
    decreases limit,
{
    if limit == 0 {
        assert(text.take(0) =~= Seq::<char>::empty());
    } else if utf16_len(text.take(limit as int)) > utf16_index {
        lemma_chars_before_in(text, utf16_index, limit - 1);
    }
}

/// How many characters lie before a position in UTF-16 code units.
pub fn count_chars_before(chars: &[char], utf16_index: usize) -> (k: usize)
    ensures
        k == chars_before(chars@, utf16_index as nat),
        k <= chars@.len(),
{
    let mut offset: usize = 0;
    let mut k: usize = 0;
    assert(chars@.take(0) =~= Seq::<char>::empty());
    while k < chars.len()
        invariant
            k <= chars@.len(),
            offset == utf16_len(chars@.take(k as int)),
            offset <= utf16_index,
        decreases chars@.len() - k,
    {
        let width: usize = char_len_utf16(chars[k]);
        assert(chars@.take(k + 1).drop_last() =~= chars@.take(k as int));
        if utf16_index - offset < width {
            proof {
                lemma_chars_before_unique(chars@, utf16_index as nat, k as int);
            }
            return k;
        }
        offset += width;
        k += 1;
    }
    proof {
        lemma_chars_before_unique(chars@, utf16_index as nat, k as int);
    }
    k
}

/// The byte at which the character of a position in UTF-16 code units starts;
/// the end of the text for a position beyond it.
pub fn utf16_to_byte_index(text: &str, utf16_index: usize) -> (r: usize)
    ensures
        r == utf8_len(text@.take(chars_before(text@, utf16_index as nat))),
{
    let chars = chars_of(text);
    let bound: usize = text.as_bytes().len();
    let target: usize = count_chars_before(chars.as_slice(), utf16_index);
    let mut bytes: usize = 0;
    let mut k: usize = 0;
    assert(text@.take(0) =~= Seq::<char>::empty());
    while k < target
        invariant
            k <= target <= chars@.len(),
            chars@ == text@,
            bound == utf8_len(text@),
            bytes == utf8_len(text@.take(k as int)),
        decreases target - k,
    {
        proof {
            assert(text@.take(k + 1) =~= text@.take(k as int).push(text@[k as int]));
            lemma_encode_push(text@.take(k as int), text@[k as int]);
            lemma_prefix_lens(text@, k + 1, text@.len() as int);
            assert(text@.take(text@.len() as int) =~= text@);
        }
        bytes += char_len_utf8(chars[k]);
        k += 1;
    }
    bytes
}

/// The part of a text between two positions in UTF-16 code units; none where
/// the first lies behind the second.
pub fn utf16_substring(text: &str, range: Range<usize>) -> (r: Option<String>)
    ensures
        ({
            let start = chars_before(text@, range.start as nat);
            let end = chars_before(text@, range.end as nat);
            match r {
                Some(part) => start <= end && part@ == text@.subrange(start, end),
                None => start > end,
            }
        }),
{
    let chars = chars_of(text);
    let start: usize = count_chars_before(chars.as_slice(), range.start);
    let end: usize = count_chars_before(chars.as_slice(), range.end);
    if start <= end {
        Some(text_of(vstd::slice::slice_subrange(chars.as_slice(), start, end)))
    } else {
        None
    }
}

/// Whether the state that the accessibility interface shows is to replace the
/// model's.
///
/// A fresh terminal can inherit a stale value from a tab or window that had
/// the focus before. So nothing is taken over while neither the model nor what
/// was published last holds anything; nor an empty text over one that is not;
/// nor what was published last.
pub open spec fn accepts_ax_override(
    ax: (Seq<char>, nat),
    model: (Seq<char>, nat),
    published: (Seq<char>, nat),
) -> bool {
    &&& !(published.0.len() == 0 && published.1 == 0 && model.0.len() == 0 && model.1 == 0)
    &&& !(ax.0.len() == 0 && model.0.len() > 0)
    &&& ax != model
    &&& ax != published
}

pub fn should_accept_ax_override(
    ax_text: &str,
    ax_cursor_utf16: usize,
    model_text: &str,
    model_cursor_utf16: usize,
    last_published_text: &str,
    last_published_cursor_utf16: usize,
) -> (r: bool)
    ensures
        r == accepts_ax_override(
            (ax_text@, ax_cursor_utf16 as nat),
            (model_text@, model_cursor_utf16 as nat),
            (last_published_text@, last_published_cursor_utf16 as nat),
        ),
{
    let has_local_publish_baseline = !last_published_text.is_empty()
        || last_published_cursor_utf16 > 0;
    if !has_local_publish_baseline && model_text.is_empty() && model_cursor_utf16 == 0 {
        return false;
    }
    if ax_text.is_empty() && !model_text.is_empty() {
        return false;
    }
    let differs_from_model = !same_text(ax_text, model_text) || ax_cursor_utf16
        != model_cursor_utf16;
    let is_stale_last_publish = same_text(ax_text, last_published_text) && ax_cursor_utf16
        == last_published_cursor_utf16;
    differs_from_model && !is_stale_last_publish
}

/// Whether the model's state is to be shown on the accessibility interface.
pub open spec fn publishes_model(
    ax: (Seq<char>, nat),
    model: (Seq<char>, nat),
    accepting_ax_override: bool,
) -> bool {
    !accepting_ax_override && ax != model
}

pub fn should_publish_model_to_ax(
    ax_text: &str,
    ax_cursor_utf16: usize,
    model_text: &str,
    model_cursor_utf16: usize,
    accepting_ax_override: bool,
) -> (r: bool)
    ensures
        r == publishes_model(
            (ax_text@, ax_cursor_utf16 as nat),
            (model_text@, model_cursor_utf16 as nat),
            accepting_ax_override,
        ),
{
    !accepting_ax_override && (!same_text(ax_text, model_text) || ax_cursor_utf16
        != model_cursor_utf16)
}

/// Law: where the two states differ, either the model takes over what the
/// interface shows or the interface is given the model's, and never both; where
/// they agree, neither happens. What was published last is not taken back.
pub proof fn law_one_side_gives_way(
    ax: (Seq<char>, nat),
    model: (Seq<char>, nat),
    published: (Seq<char>, nat),
)
    ensures
        ({
            let accepts = accepts_ax_override(ax, model, published);
            let publishes = publishes_model(ax, model, accepts);
            &&& ax != model <==> accepts || publishes
            &&& !(accepts && publishes)
        }),
        !accepts_ax_override(published, model, published),
{
}

/// How many characters of a text a trace shows.
pub const MAX_PREVIEW_CHARS: usize = 24;

/// The start of a text, with an ellipsis where something was left out.
pub open spec fn preview(text: Seq<char>) -> Seq<char> {
    if text.len() <= MAX_PREVIEW_CHARS {
        text
    } else {
        text.take(MAX_PREVIEW_CHARS as int).push('\u{2026}')
    }
}

/// Law: a trace shows no more than the first characters of a text.
pub proof fn law_traces_are_short(text: Seq<char>)
    ensures
        preview(text).len() <= MAX_PREVIEW_CHARS + 1,
        forall|i: int|
            0 <= i < preview(text).len() && i < MAX_PREVIEW_CHARS ==> #[trigger] preview(text)[i]
                == text[i],
        preview(text).len() > MAX_PREVIEW_CHARS ==> preview(text).last() == '\u{2026}',
{
}

/// What the `Debug` format of a text is: the text in double quotes, with
/// escapes.
pub uninterp spec fn debug_text(text: Seq<char>) -> Seq<char>;

/// The `Debug` format of `str`, through `format!`. It depends on the text
/// alone.
#[verifier::external_body]
fn debug_format(text: &str) -> (r: String)
    ensures
        r@ == debug_text(text@),
{
    format!("{:?}", text)
}

pub fn preview_text(text: &str) -> (r: String)
    ensures
        r@ == preview(text@),
{
    let chars = chars_of(text);
    let mut out: Vec<char> = Vec::new();
    let shown: usize = if chars.len() <= MAX_PREVIEW_CHARS {
        chars.len()
    } else {
        MAX_PREVIEW_CHARS
    };
    push_chars(&mut out, vstd::slice::slice_subrange(chars.as_slice(), 0, shown));
    if chars.len() > MAX_PREVIEW_CHARS {
        out.push('\u{2026}');
    }
    assert(out@ =~= preview(text@));
    text_of(out.as_slice())
}

/// A text as a trace shows it: its start, quoted.
pub fn summarize_text_for_trace(text: &str) -> (r: String)
    ensures
        r@ == debug_text(preview(text@)),
{
    let start = preview_text(text);
    debug_format(start.as_str())
}

/// How many of the first `limit` characters of a text start before a byte.
pub open spec fn chars_starting_before(text: Seq<char>, byte_index: nat, limit: int) -> int
    decreases limit,
{
    if limit <= 0 || utf8_len(text.take(limit - 1)) < byte_index {
        limit
    } else {
        chars_starting_before(text, byte_index, limit - 1)
    }
}

proof fn lemma_chars_starting_before(text: Seq<char>, byte_index: nat, k: int, limit: int)
    requires
        0 <= k <= limit <= text.len(),
        k == 0 || utf8_len(text.take(k - 1)) < byte_index,
        k == text.len() || utf8_len(text.take(k)) >= byte_index,
    ensures
        chars_starting_before(text, byte_index, limit) == k,
    decreases limit,
{
    if limit > k {
        lemma_prefix_lens(text, k, limit - 1);
        lemma_chars_starting_before(text, byte_index, k, limit - 1);
    }
}

/// The code units of the characters that start before a byte.
pub fn byte_index_to_utf16(text: &str, byte_index: usize) -> (r: usize)
    ensures
        r == utf16_len(
            text@.take(chars_starting_before(text@, byte_index as nat, text@.len() as int)),
        ),
{
    let chars = chars_of(text);
    let bound: usize = text.as_bytes().len();
    let mut bytes: usize = 0;
    let mut units: usize = 0;
    let mut k: usize = 0;
    assert(text@.take(0) =~= Seq::<char>::empty());
    while k < chars.len() && bytes < byte_index
        invariant
            k <= chars@.len(),
            chars@ == text@,
            bound == utf8_len(text@),
            bytes == utf8_len(text@.take(k as int)),
            units == utf16_len(text@.take(k as int)),
            k == 0 || utf8_len(text@.take(k - 1)) < byte_index,
        decreases chars@.len() - k,
    {
        proof {
            assert(text@.take(k + 1) =~= text@.take(k as int).push(text@[k as int]));
            assert(text@.take(k + 1).drop_last() =~= text@.take(k as int));
            lemma_encode_push(text@.take(k as int), text@[k as int]);
            lemma_prefix_lens(text@, k + 1, text@.len() as int);
            assert(text@.take(text@.len() as int) =~= text@);
        }
        bytes += char_len_utf8(chars[k]);
        units += char_len_utf16(chars[k]);
        k += 1;
    }
    proof {
        lemma_chars_starting_before(text@, byte_index as nat, k as int, text@.len() as int);
    }
    units
}

/// Law: between two characters, positions in bytes and in UTF-16 code units map
/// to each other and back.
pub proof fn law_positions_map_back(text: Seq<char>, k: int)
    requires
        0 <= k <= text.len(),
    ensures
        ({
            let units = utf16_len(text.take(k));
            let bytes = utf8_len(text.take(k));
            &&& utf8_len(text.take(chars_before(text, units))) == bytes
            &&& utf16_len(text.take(chars_starting_before(text, bytes, text.len() as int)))
                == units
        }),
{
    if k < text.len() {
        lemma_prefix_lens(text, k, k + 1);
    }
    if k > 0 {
        lemma_prefix_lens(text, k - 1, k);
    }
    lemma_chars_before_unique(text, utf16_len(text.take(k)), k);
    lemma_chars_starting_before(text, utf8_len(text.take(k)), k, text.len() as int);
}

/// Where the run of blanks before a place starts.
pub open spec fn blanks_start(text: Seq<char>, end: int) -> int
    decreases end,
{
    if 0 < end <= text.len() && whitespace_char(text[end - 1]) {
        blanks_start(text, end - 1)
    } else {
        end
    }
}

/// Where the run of other characters before a place starts.
pub open spec fn word_start(text: Seq<char>, end: int) -> int
    decreases end,
{
    if 0 < end <= text.len() && !whitespace_char(text[end - 1]) {
        word_start(text, end - 1)
    } else {
        end
    }
}

/// Where the run of blanks from a place on ends.
pub open spec fn blanks_end(text: Seq<char>, start: int) -> int
    decreases text.len() - start,
{
    if 0 <= start < text.len() && whitespace_char(text[start]) {
        blanks_end(text, start + 1)
    } else {
        start
    }
}

/// Where the run of other characters from a place on ends.
pub open spec fn word_end(text: Seq<char>, start: int) -> int
    decreases text.len() - start,
{
    if 0 <= start < text.len() && !whitespace_char(text[start]) {
        word_end(text, start + 1)
    } else {
        start
    }
}

/// A text without the characters from `start` to `end`.
pub open spec fn without(text: Seq<char>, start: int, end: int) -> Seq<char> {
    text.take(start) + text.skip(end)
}

/// A text and the cursor in it, in UTF-16 code units.
pub ghost struct Line {
    pub text: Seq<char>,
    pub cursor: nat,
}

impl Line {
    /// How many characters lie before the cursor.
    pub open spec fn at(self) -> int {
        chars_before(self.text, self.cursor)
    }

    /// The word before the cursor goes, with the blanks between them.
    pub open spec fn without_previous_word(self) -> Line {
        let start = word_start(self.text, blanks_start(self.text, self.at()));
        if self.cursor == 0 || self.text.len() == 0 {
            self
        } else if self.at() == 0 {
            Line { cursor: 0, ..self }
        } else {
            Line {
                text: without(self.text, start, self.at()),
                cursor: utf16_len(self.text.take(start)),
            }
        }
    }

    /// The word after the cursor goes, with the blanks between them.
    pub open spec fn without_next_word(self) -> Line {
        let end = word_end(self.text, blanks_end(self.text, self.at()));
        if self.at() >= self.text.len() {
            Line { cursor: utf16_len(self.text), ..self }
        } else {
            let text = without(self.text, self.at(), end);
            Line {
                text,
                cursor: if self.cursor < utf16_len(text) {
                    self.cursor
                } else {
                    utf16_len(text)
                },
            }
        }
    }
}

proof fn lemma_backward_bounds(text: Seq<char>, end: int)
    requires
        0 <= end <= text.len(),
    ensures
        0 <= blanks_start(text, end) <= end,
        0 <= word_start(text, end) <= end,
    decreases end,
{
    if end > 0 {
        lemma_backward_bounds(text, end - 1);
    }
}

proof fn lemma_forward_bounds(text: Seq<char>, start: int)
    requires
        0 <= start <= text.len(),
    ensures
        start <= blanks_end(text, start) <= text.len(),
        start <= word_end(text, start) <= text.len(),
    decreases text.len() - start,
{
    if start < text.len() {
        lemma_forward_bounds(text, start + 1);
    }
}

/// The bounds of the words around a place.
pub proof fn lemma_word_bounds(text: Seq<char>, at: int)
    requires
        0 <= at <= text.len(),
    ensures
        0 <= word_start(text, blanks_start(text, at)) <= at,
        at <= word_end(text, blanks_end(text, at)) <= text.len(),
{
    lemma_backward_bounds(text, at);
    lemma_backward_bounds(text, blanks_start(text, at));
    lemma_forward_bounds(text, at);
    lemma_forward_bounds(text, blanks_end(text, at));
}

/// A text without the characters from `start` to `end`.
pub fn remove_chars(chars: &[char], start: usize, end: usize) -> (text: String)
    requires
        start <= end <= chars@.len(),
    ensures
        text@ == without(chars@, start as int, end as int),
{
    let mut out: Vec<char> = Vec::new();
    push_chars(&mut out, vstd::slice::slice_subrange(chars, 0, start));
    push_chars(&mut out, vstd::slice::slice_subrange(chars, end, chars.len()));
    assert(out@ =~= without(chars@, start as int, end as int));
    text_of(out.as_slice())
}

/// The code units of the first `end` characters.
fn utf16_len_of_prefix(chars: &[char], end: usize) -> (units: usize)
    requires
        end <= chars@.len(),
        utf8_len(chars@) <= usize::MAX,
    ensures
        units == utf16_len(chars@.take(end as int)),
{
    let mut units: usize = 0;
    let mut k: usize = 0;
    assert(chars@.take(0) =~= Seq::<char>::empty());
    while k < end
        invariant
            k <= end <= chars@.len(),
            utf8_len(chars@) <= usize::MAX,
            units == utf16_len(chars@.take(k as int)),
        decreases end - k,
    {
        proof {
            assert(chars@.take(k + 1).drop_last() =~= chars@.take(k as int));
            lemma_prefix_lens(chars@, k + 1, chars@.len() as int);
            assert(chars@.take(chars@.len() as int) =~= chars@);
        }
        units += char_len_utf16(chars[k]);
        k += 1;
    }
    units
}

pub fn delete_previous_word_utf16(text: &mut String, cursor_utf16: &mut usize)
    ensures
        (Line { text: final(text)@, cursor: *final(cursor_utf16) as nat }) == (Line {
            text: old(text)@,
            cursor: *old(cursor_utf16) as nat,
        }).without_previous_word(),
{
    if *cursor_utf16 == 0 || text.as_str().is_empty() {
        return;
    }
    let chars = chars_of(text.as_str());
    let bound: usize = text.as_str().as_bytes().len();
    let at: usize = count_chars_before(chars.as_slice(), *cursor_utf16);
    if at == 0 {
        *cursor_utf16 = 0;
        return;
    }
    let ghost blanks = blanks_start(text@, at as int);
    proof {
        lemma_word_bounds(text@, at as int);
    }
    let mut start: usize = at;
    while start > 0 && is_whitespace(chars[start - 1])
        invariant
            start <= at <= chars@.len(),
            chars@ == text@,
            blanks == blanks_start(text@, start as int),
        decreases start,
    {
        start -= 1;
    }
    let ghost word = word_start(text@, start as int);
    while start > 0 && !is_whitespace(chars[start - 1])
        invariant
            start <= at <= chars@.len(),
            chars@ == text@,
            word == word_start(text@, start as int),
        decreases start,
    {
        start -= 1;
    }
    *cursor_utf16 = utf16_len_of_prefix(chars.as_slice(), start);
    *text = remove_chars(chars.as_slice(), start, at);
}

pub fn delete_next_word_utf16(text: &mut String, cursor_utf16: &mut usize)
    ensures
        (Line { text: final(text)@, cursor: *final(cursor_utf16) as nat }) == (Line {
            text: old(text)@,
            cursor: *old(cursor_utf16) as nat,
        }).without_next_word(),
{
    let chars = chars_of(text.as_str());
    let at: usize = count_chars_before(chars.as_slice(), *cursor_utf16);
    if at >= chars.len() {
        *cursor_utf16 = count_utf16(text.as_str());
        return;
    }
    let ghost blanks = blanks_end(text@, at as int);
    let mut end: usize = at;
    while end < chars.len() && is_whitespace(chars[end])
        invariant
            at <= end <= chars@.len(),
            chars@ == text@,
            blanks == blanks_end(text@, end as int),
        decreases chars@.len() - end,
    {
        end += 1;
    }
    let ghost word = word_end(text@, end as int);
    while end < chars.len() && !is_whitespace(chars[end])
        invariant
            at <= end <= chars@.len(),
            chars@ == text@,
            word == word_end(text@, end as int),
        decreases chars@.len() - end,
    {
        end += 1;
    }
    *text = remove_chars(chars.as_slice(), at, end);
    let len: usize = count_utf16(text.as_str());
    if *cursor_utf16 >= len {
        *cursor_utf16 = len;
    }
}

pub fn delete_to_end_utf16(text: &mut String, cursor_utf16: usize)
    ensures
        final(text)@ == old(text)@.take(chars_before(old(text)@, cursor_utf16 as nat)),
{
    let chars = chars_of(text.as_str());
    let at: usize = count_chars_before(chars.as_slice(), cursor_utf16);
    *text = text_of(vstd::slice::slice_subrange(chars.as_slice(), 0, at));
    assert(text@ =~= chars@.take(at as int));
}

/// Law: a trace shows a text of up to 24 characters as it is, and of a longer one
/// the first 24 and an ellipsis.
pub proof fn law_previews(text: Seq<char>)
    ensures
        text.len() <= 24 ==> preview(text) == text,
        text.len() > 24 ==> preview(text) == text.take(24).push('\u{2026}'),
{
}

/// Law: what a tool shows is taken over where it is neither what the model has nor
/// what was shown last, and is not an empty text in place of one that is not;
/// unless nothing was ever typed or shown.
pub proof fn law_tools_are_listened_to(
    ax: (Seq<char>, nat),
    model: (Seq<char>, nat),
    published: (Seq<char>, nat),
)
    ensures
        ax.0.len() > 0 && ax != model && ax != published && (model.0.len() > 0
            || published.0.len() > 0) ==> accepts_ax_override(ax, model, published),
        ax == model || ax == published ==> !accepts_ax_override(ax, model, published),
        ax.0.len() == 0 && model.0.len() > 0 ==> !accepts_ax_override(ax, model, published),
        model == (Seq::<char>::empty(), 0nat) && published == (Seq::<char>::empty(), 0nat)
            ==> !accepts_ax_override(ax, model, published),
{
}

/// Law: a place in UTF-16 code units is that of the character which starts there;
/// in the middle of a character it is that of this character, and behind the text
/// its end.
pub proof fn law_places_in_utf16(before: Seq<char>, c: char, after: Seq<char>, index: nat)
    ensures
        chars_before(before + seq![c] + after, utf16_len(before)) == before.len(),
        c > '\u{ffff}' ==> chars_before(before + seq![c] + after, utf16_len(before) + 1)
            == before.len(),
        index >= utf16_len(before) ==> chars_before(before, index) == before.len(),
{
    let text = before + seq![c] + after;
    let n = before.len() as int;
    assert(text.take(n) =~= before);
    assert(text.take(n + 1) =~= before + seq![c]);
    crate::chars::law_utf16_lengths(before, c, Seq::empty());
    assert(before + seq![c] + Seq::<char>::empty() =~= before + seq![c]);
    lemma_chars_before_unique(text, utf16_len(before), n);
    if c > '\u{ffff}' {
        lemma_chars_before_unique(text, utf16_len(before) + 1, n);
    }
    assert(before.take(n) =~= before);
    if index >= utf16_len(before) {
        lemma_chars_before_unique(before, index, n);
    }
}

} // verus!
