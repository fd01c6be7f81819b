//! Characters, their UTF-8 and UTF-16 lengths, and numbers in decimal.
use vstd::prelude::*;
use vstd::string::StringSliceAdditionalSpecFns;
use vstd::utf8::{encode_scalar, encode_utf8, valid_utf8};

verus! {

/// `String::push` appends a character.
pub assume_specification[ String::push ](text: &mut String, c: char)
    ensures
        final(text)@ == old(text)@.push(c),
;

/// `std::str::from_utf8` gives the text that the bytes encode, and fails if
/// and only if they are not valid UTF-8.
#[verifier::external_body]
pub(crate) fn text_from_utf8(bytes: &[u8]) -> (text: Option<&str>)
    ensures
        match text {
            Some(t) => valid_utf8(bytes@) && t.spec_bytes() == bytes@,
            None => !valid_utf8(bytes@),
        },
{
    std::str::from_utf8(bytes).ok()
}

/// How many UTF-16 code units a character takes.
pub open spec fn utf16_width(c: char) -> nat {
    if c as u32 >= 0x10000 {
        2
    } else {
        1
    }
}

/// How many bytes a character takes in UTF-8.
pub open spec fn utf8_width(c: char) -> nat {
    encode_scalar(c as u32).len()
}

/// How many UTF-16 code units a text takes.
pub open spec fn utf16_len(text: Seq<char>) -> nat
    decreases text.len(),
{
    if text.len() == 0 {
        0
    } else {
        utf16_len(text.drop_last()) + utf16_width(text.last())
    }
}

/// How many bytes a text takes in UTF-8.
pub open spec fn utf8_len(text: Seq<char>) -> nat {
    encode_utf8(text).len()
}

/// The characters of the Unicode category `Cc`.
pub open spec fn control_char(c: char) -> bool {
    (c as u32) < 0x20 || 0x7f <= c as u32 <= 0x9f
}

/// The characters with the Unicode property `White_Space`.
pub open spec fn whitespace_char(c: char) -> bool {
    let u = c as u32;
    ||| 0x9 <= u <= 0xd
    ||| u == 0x20
    ||| u == 0x85
    ||| u == 0xa0
    ||| u == 0x1680
    ||| 0x2000 <= u <= 0x200a
    ||| u == 0x2028
    ||| u == 0x2029
    ||| u == 0x202f
    ||| u == 0x205f
    ||| u == 0x3000
}

pub open spec fn ascii_lower(c: char) -> char {
    if 'A' <= c <= 'Z' {
        (c as u32 + 32) as char
    } else {
        c
    }
}

pub open spec fn ascii_lower_text(text: Seq<char>) -> Seq<char> {
    text.map_values(|c: char| ascii_lower(c))
}

pub fn is_control(c: char) -> (r: bool)
    ensures
        r == control_char(c),
{
    let u: u32 = c as u32;
    u < 0x20 || (0x7f <= u && u <= 0x9f)
}

pub fn is_whitespace(c: char) -> (r: bool)
    ensures
        r == whitespace_char(c),
{
    let u: u32 = c as u32;
    (0x9 <= u && u <= 0xd) || u == 0x20 || u == 0x85 || u == 0xa0 || u == 0x1680 || (0x2000 <= u
        && u <= 0x200a) || u == 0x2028 || u == 0x2029 || u == 0x202f || u == 0x205f || u == 0x3000
}

/// The ASCII character with a code below 128.
pub fn ascii_char(code: u8) -> (c: char)
    requires
        code < 128,
    ensures
        c as u32 == code as u32,
{
    code as char
}

pub fn to_ascii_lowercase(c: char) -> (r: char)
    ensures
        r == ascii_lower(c),
{
    if 'A' <= c && c <= 'Z' {
        ascii_char((c as u32 + 32) as u8)
    } else {
        c
    }
}

pub fn char_len_utf16(c: char) -> (r: usize)
    ensures
        r == utf16_width(c),
{
    if c as u32 >= 0x10000 {
        2
    } else {
        1
    }
}

pub fn char_len_utf8(c: char) -> (r: usize)
    ensures
        r == utf8_width(c),
        1 <= r <= 4,
{
    broadcast use vstd::utf8::char_is_scalar;

    let u: u32 = c as u32;
    if u <= 0x7f {
        1
    } else if u <= 0x7ff {
        2
    } else if u <= 0xffff {
        3
    } else {
        4
    }
}

/// The characters of a text.
pub fn chars_of(text: &str) -> (chars: Vec<char>)
    ensures
        chars@ == text@,
{
    let mut chars: Vec<char> = Vec::new();
    for c in iter: text.chars()
        invariant
            iter.seq() == text@,
            chars@ == iter.seq().take(iter.index() as int),
    {
        chars.push(c);
    }
    assert(text@.take(text@.len() as int) =~= text@);
    chars
}

/// The text of a run of characters.
pub fn text_of(chars: &[char]) -> (text: String)
    ensures
        text@ == chars@,
{
    let mut text: String = String::new();
    let mut i: usize = 0;
    while i < chars.len()
        invariant
            i <= chars@.len(),
            text@ =~= chars@.take(i as int),
        decreases chars@.len() - i,
    {
        text.push(chars[i]);
        i += 1;
    }
    assert(chars@.take(chars@.len() as int) =~= chars@);
    text
}

/// Appends a run of characters to another.
pub fn push_chars(out: &mut Vec<char>, chars: &[char])
    ensures
        final(out)@ == old(out)@ + chars@,
{
    let mut i: usize = 0;
    while i < chars.len()
        invariant
            i <= chars@.len(),
            out@ =~= old(out)@ + chars@.take(i as int),
        decreases chars@.len() - i,
    {
        out.push(chars[i]);
        i += 1;
    }
    assert(chars@.take(chars@.len() as int) =~= chars@);
}

/// Whether two texts are the same.
pub fn same_text(a: &str, b: &str) -> (r: bool)
    ensures
        r == (a@ == b@),
{
    a.to_owned() == b.to_owned()
}

/// Whether two texts are the same but for the case of ASCII letters.
pub fn same_text_ignoring_case(a: &str, b: &str) -> (r: bool)
    ensures
        r == (ascii_lower_text(a@) == ascii_lower_text(b@)),
{
    let left = chars_of(a);
    let right = chars_of(b);
    if left.len() != right.len() {
        assert(ascii_lower_text(a@).len() == a@.len());
        assert(ascii_lower_text(b@).len() == b@.len());
        return false;
    }
    let mut i: usize = 0;
    while i < left.len()
        invariant
            i <= left@.len(),
            left@ == a@,
            right@ == b@,
            left@.len() == right@.len(),
            forall|k: int| 0 <= k < i ==> ascii_lower(left@[k]) == ascii_lower(right@[k]),
        decreases left@.len() - i,
    {
        if to_ascii_lowercase(left[i]) != to_ascii_lowercase(right[i]) {
            assert(ascii_lower_text(a@)[i as int] != ascii_lower_text(b@)[i as int]);
            return false;
        }
        i += 1;
    }
    assert(ascii_lower_text(a@) =~= ascii_lower_text(b@));
    true
}

/// Whether a text holds a control character.
pub open spec fn has_control_char(text: Seq<char>) -> bool {
    exists|i: int| 0 <= i < text.len() && control_char(#[trigger] text[i])
}

pub fn holds_control_char(text: &str) -> (r: bool)
    ensures
        r == has_control_char(text@),
{
    let chars = chars_of(text);
    let mut i: usize = 0;
    while i < chars.len()
        invariant
            i <= chars@.len(),
            chars@ == text@,
            forall|k: int| 0 <= k < i ==> !control_char(#[trigger] text@[k]),
        decreases chars@.len() - i,
    {
        if is_control(chars[i]) {
            assert(control_char(text@[i as int]));
            return true;
        }
        i += 1;
    }
    false
}

/// Whether two runs of bytes are the same.
pub fn same_bytes(a: &[u8], b: &[u8]) -> (r: bool)
    ensures
        r == (a@ == b@),
{
    if a.len() != b.len() {
        return false;
    }
    let mut i: usize = 0;
    while i < a.len()
        invariant
            i <= a@.len(),
            a@.len() == b@.len(),
            forall|k: int| 0 <= k < i ==> a@[k] == b@[k],
        decreases a@.len() - i,
    {
        if a[i] != b[i] {
            return false;
        }
        i += 1;
    }
    assert(a@ =~= b@);
    true
}

/// A text without the blanks at its end.
pub open spec fn trimmed_end(text: Seq<char>) -> Seq<char>
    decreases text.len(),
{
    if text.len() > 0 && whitespace_char(text.last()) {
        trimmed_end(text.drop_last())
    } else {
        text
    }
}

/// Drops the blanks at the end, down to a given length.
pub fn trim_end_from(text: &mut Vec<char>, keep: usize)
    requires
        keep <= old(text)@.len(),
    ensures
        final(text)@ == old(text)@.take(keep as int) + trimmed_end(old(text)@.skip(keep as int)),
{
    let ghost head = text@.take(keep as int);
    let ghost tail = text@.skip(keep as int);
    while text.len() > keep && is_whitespace(text[text.len() - 1])
        invariant
            keep <= text@.len(),
            text@.take(keep as int) == head,
            trimmed_end(text@.skip(keep as int)) == trimmed_end(tail),
        decreases text@.len(),
    {
        let ghost before = text@;
        let _blank = text.pop();
        assert(before.skip(keep as int).drop_last() =~= text@.skip(keep as int));
        assert(before.skip(keep as int).last() == before.last());
        assert(text@.take(keep as int) =~= before.take(keep as int));
    }
    proof {
        if text@.len() > keep {
            assert(text@.skip(keep as int).last() == text@.last());
        }
    }
    assert(text@ =~= text@.take(keep as int) + text@.skip(keep as int));
}

/// A text without the blanks at its start.
pub open spec fn trimmed_start(text: Seq<char>) -> Seq<char>
    decreases text.len(),
{
    if text.len() > 0 && whitespace_char(text[0]) {
        trimmed_start(text.skip(1))
    } else {
        text
    }
}

/// A text without the blanks around it.
pub open spec fn trimmed(text: Seq<char>) -> Seq<char> {
    trimmed_end(trimmed_start(text))
}

/// The text without the blanks around it.
pub fn trim_text(text: &str) -> (r: String)
    ensures
        r@ == trimmed(text@),
{
    let chars = chars_of(text);
    let mut start: usize = 0;
    assert(text@.skip(0) =~= text@);
    while start < chars.len() && is_whitespace(chars[start])
        invariant
            start <= chars@.len(),
            chars@ == text@,
            trimmed_start(text@.skip(start as int)) == trimmed_start(text@),
        decreases chars@.len() - start,
    {
        assert(text@.skip(start as int).skip(1) =~= text@.skip(start + 1));
        start += 1;
    }
    let mut rest: Vec<char> = Vec::new();
    push_chars(&mut rest, vstd::slice::slice_subrange(chars.as_slice(), start, chars.len()));
    assert(rest@ =~= text@.skip(start as int));
    trim_end_from(&mut rest, 0);
    assert(rest@ =~= trimmed(text@)) by {
        let all = text@.skip(start as int);
        assert(all.skip(0) =~= all);
        assert(all.take(0) =~= Seq::<char>::empty());
        assert(all == trimmed_start(text@));
    }
    text_of(rest.as_slice())
}

/// Appends a text.
pub fn push_text(out: &mut Vec<char>, text: &str)
    ensures
        final(out)@ == old(out)@ + text@,
{
    let chars = chars_of(text);
    push_chars(out, chars.as_slice());
}

/// Whether a text holds another at a place.
pub open spec fn holds_at(text: Seq<char>, part: Seq<char>, at: int) -> bool {
    0 <= at && at + part.len() <= text.len() && text.subrange(at, at + part.len()) == part
}

/// Whether a text holds another.
pub open spec fn holds_text(text: Seq<char>, part: Seq<char>) -> bool {
    exists|at: int| holds_at(text, part, at)
}

pub fn has_text_at(text: &[char], part: &[char], at: usize) -> (r: bool)
    ensures
        r == holds_at(text@, part@, at as int),
{
    if at > text.len() || part.len() > text.len() - at {
        return false;
    }
    let mut i: usize = 0;
    while i < part.len()
        invariant
            i <= part@.len(),
            at + part@.len() <= text@.len(),
            text@.len() <= usize::MAX,
            forall|k: int| 0 <= k < i ==> text@[at + k] == part@[k],
        decreases part@.len() - i,
    {
        if text[at + i] != part[i] {
            assert(text@.subrange(at as int, at + part@.len())[i as int] != part@[i as int]);
            return false;
        }
        i += 1;
    }
    assert(text@.subrange(at as int, at + part@.len()) =~= part@);
    true
}

/// Whether a text starts with another.
pub fn starts_with_text(text: &[char], part: &str) -> (r: bool)
    ensures
        r == part@.is_prefix_of(text@),
{
    let wanted = chars_of(part);
    has_text_at(text, wanted.as_slice(), 0)
}

/// Whether a text holds another.
pub fn contains_text(text: &[char], part: &str) -> (r: bool)
    ensures
        r == holds_text(text@, part@),
{
    let wanted = chars_of(part);
    if wanted.len() > text.len() {
        return false;
    }
    let last: usize = text.len() - wanted.len();
    let mut at: usize = 0;
    loop
        invariant
            at <= last,
            last + part@.len() == text@.len(),
            wanted@ == part@,
            forall|k: int| 0 <= k < at ==> !holds_at(text@, part@, k),
        decreases last - at,
    {
        if has_text_at(text, wanted.as_slice(), at) {
            assert(holds_at(text@, part@, at as int));
            return true;
        }
        if at == last {
            return false;
        }
        at += 1;
    }
}

/// The characters of a text with ASCII letters in lower case.
pub fn lowercase_chars(text: &str) -> (chars: Vec<char>)
    ensures
        chars@ == ascii_lower_text(text@),
{
    let source = chars_of(text);
    let mut chars: Vec<char> = Vec::new();
    let mut i: usize = 0;
    while i < source.len()
        invariant
            i <= source@.len(),
            source@ == text@,
            chars@.len() == i,
            forall|k: int| 0 <= k < i ==> chars@[k] == ascii_lower(text@[k]),
        decreases source@.len() - i,
    {
        chars.push(to_ascii_lowercase(source[i]));
        i += 1;
    }
    assert(chars@ =~= ascii_lower_text(text@));
    chars
}

/// A text that may be there, by its characters.
pub open spec fn text_view(text: Option<String>) -> Option<Seq<char>> {
    match text {
        Some(t) => Some(t@),
        None => None,
    }
}

/// Bytes that may be there.
pub open spec fn bytes_view(bytes: Option<Vec<u8>>) -> Option<Seq<u8>> {
    match bytes {
        Some(b) => Some(b@),
        None => None,
    }
}

/// Texts by their characters.
pub open spec fn text_views(texts: Seq<String>) -> Seq<Seq<char>> {
    texts.map_values(|text: String| text@)
}

/// The code of the last decimal digit of a number.
pub open spec fn last_digit(n: nat) -> u8 {
    (0x30 + n % 10) as u8
}

/// A number in decimal, as ASCII codes.
pub open spec fn decimal(n: nat) -> Seq<u8>
    decreases n,
{
    if n < 10 {
        seq![last_digit(n)]
    } else {
        decimal(n / 10).push(last_digit(n))
    }
}

/// Appends a number in decimal.
pub fn push_decimal(out: &mut Vec<u8>, n: u64)
    ensures
        final(out)@ == old(out)@ + decimal(n as nat),
    decreases n,
{
    if n >= 10 {
        push_decimal(out, n / 10);
    }
    out.push(0x30 + (n % 10) as u8);
    assert(out@ =~= old(out)@ + decimal(n as nat));
}

/// Bytes so many times over.
pub open spec fn repeated(bytes: Seq<u8>, count: nat) -> Seq<u8>
    decreases count,
{
    if count == 0 {
        Seq::empty()
    } else {
        repeated(bytes, (count - 1) as nat) + bytes
    }
}

/// Appends bytes so many times over.
pub fn push_repeated(out: &mut Vec<u8>, bytes: &[u8], count: usize)
    ensures
        final(out)@ == old(out)@ + repeated(bytes@, count as nat),
{
    let mut i: usize = 0;
    assert(out@ + repeated(bytes@, 0) =~= out@);
    while i < count
        invariant
            i <= count,
            out@ == old(out)@ + repeated(bytes@, i as nat),
        decreases count - i,
    {
        let ghost before = out@;
        out.extend_from_slice(bytes);
        assert(out@ =~= before + bytes@);
        assert(before + bytes@ =~= old(out)@ + (repeated(bytes@, i as nat) + bytes@));
        i += 1;
    }
}

/// ASCII codes as characters.
pub open spec fn ascii_text(codes: Seq<u8>) -> Seq<char> {
    codes.map_values(|code: u8| code as char)
}

/// Appends a number in decimal to a run of characters.
pub fn push_decimal_chars(out: &mut Vec<char>, n: u64)
    ensures
        final(out)@ == old(out)@ + ascii_text(decimal(n as nat)),
    decreases n,
{
    if n >= 10 {
        push_decimal_chars(out, n / 10);
    }
    let digit: u8 = 0x30 + (n % 10) as u8;
    out.push(ascii_char(digit));
    assert(out@ =~= old(out)@ + ascii_text(decimal(n as nat)));
}

/// A hexadecimal digit, in lower case.
pub open spec fn hex_digit(value: int) -> char {
    if value < 10 {
        (0x30 + value) as u32 as char
    } else {
        (0x57 + value) as u32 as char
    }
}

/// Bytes as pairs of hexadecimal digits.
pub open spec fn hex_text(bytes: Seq<u8>) -> Seq<char>
    decreases bytes.len(),
{
    if bytes.len() == 0 {
        Seq::empty()
    } else {
        hex_text(bytes.drop_last()).push(hex_digit(bytes.last() as int / 16)).push(
            hex_digit(bytes.last() as int % 16),
        )
    }
}

fn hex_char(value: u8) -> (c: char)
    requires
        value < 16,
    ensures
        c == hex_digit(value as int),
{
    if value < 10 {
        ascii_char(0x30 + value)
    } else {
        ascii_char(0x57 + value)
    }
}

/// Bytes as pairs of hexadecimal digits.
pub fn bytes_to_hex(bytes: &[u8]) -> (text: String)
    ensures
        text@ == hex_text(bytes@),
{
    let mut chars: Vec<char> = Vec::new();
    let mut i: usize = 0;
    assert(bytes@.take(0) =~= Seq::<u8>::empty());
    while i < bytes.len()
        invariant
            i <= bytes@.len(),
            chars@ == hex_text(bytes@.take(i as int)),
        decreases bytes@.len() - i,
    {
        assert(bytes@.take(i + 1).drop_last() =~= bytes@.take(i as int));
        chars.push(hex_char(bytes[i] / 16));
        chars.push(hex_char(bytes[i] % 16));
        i += 1;
    }
    assert(bytes@.take(bytes@.len() as int) =~= bytes@);
    text_of(chars.as_slice())
}

// ---------------------------------------------------------------------------
// Lengths
// ---------------------------------------------------------------------------

pub proof fn lemma_encode_concat(a: Seq<char>, b: Seq<char>)
    ensures
        encode_utf8(a + b) == encode_utf8(a) + encode_utf8(b),
    decreases a.len(),
{
    if a.len() == 0 {
        assert(a + b =~= b);
        assert(encode_utf8(a) + encode_utf8(b) =~= encode_utf8(b));
    } else {
        lemma_encode_concat(a.drop_first(), b);
        assert((a + b).drop_first() =~= a.drop_first() + b);
        assert((a + b)[0] == a[0]);
        assert(encode_scalar(a[0] as u32) + (encode_utf8(a.drop_first()) + encode_utf8(b)) =~= (
        encode_scalar(a[0] as u32) + encode_utf8(a.drop_first())) + encode_utf8(b));
    }
}

pub proof fn lemma_encode_push(text: Seq<char>, c: char)
    ensures
        encode_utf8(text.push(c)) == encode_utf8(text) + encode_scalar(c as u32),
{
    lemma_encode_concat(text, seq![c]);
    assert(text.push(c) =~= text + seq![c]);
    assert(seq![c].drop_first() =~= Seq::<char>::empty());
    assert(encode_utf8(seq![c]) =~= encode_scalar(c as u32)) by {
        assert(encode_utf8(Seq::<char>::empty()) =~= Seq::<u8>::empty());
    }
}

pub proof fn lemma_utf8_width(c: char)
    ensures
        1 <= utf8_width(c) <= 4,
        utf16_width(c) <= utf8_width(c),
{
    broadcast use vstd::utf8::char_is_scalar;

}

/// A longer prefix takes more bytes and more code units; a text takes no more
/// code units than bytes.
pub proof fn lemma_prefix_lens(text: Seq<char>, i: int, j: int)
    requires
        0 <= i <= j <= text.len(),
    ensures
        j - i <= utf16_len(text.take(j)) - utf16_len(text.take(i)),
        j - i <= utf8_len(text.take(j)) - utf8_len(text.take(i)),
        utf16_len(text.take(j)) - utf16_len(text.take(i)) <= utf8_len(text.take(j)) - utf8_len(
            text.take(i),
        ),
        utf16_len(text.take(j)) <= utf8_len(text.take(j)),
    decreases j,
{
    if j > 0 {
        assert(text.take(j).drop_last() =~= text.take(j - 1));
        assert(text.take(j) =~= text.take(j - 1).push(text[j - 1]));
        lemma_encode_push(text.take(j - 1), text[j - 1]);
        lemma_utf8_width(text[j - 1]);
        lemma_prefix_lens(
            text,
            if i < j {
                i
            } else {
                j - 1
            },
            j - 1,
        );
    } else {
        assert(text.take(0) =~= Seq::<char>::empty());
    }
}

pub proof fn lemma_utf16_len_concat(a: Seq<char>, b: Seq<char>)
    ensures
        utf16_len(a + b) == utf16_len(a) + utf16_len(b),
    decreases b.len(),
{
    if b.len() == 0 {
        assert(a + b =~= a);
    } else {
        lemma_utf16_len_concat(a, b.drop_last());
        assert((a + b).drop_last() =~= a + b.drop_last());
    }
}

/// A text takes no more code units than bytes.
pub proof fn lemma_utf16_le_utf8(text: Seq<char>)
    ensures
        text.len() <= utf16_len(text) <= utf8_len(text),
{
    lemma_prefix_lens(text, 0, text.len() as int);
    assert(text.take(0) =~= Seq::<char>::empty());
    assert(text.take(text.len() as int) =~= text);
}

/// How many UTF-16 code units a text takes.
pub fn count_utf16(text: &str) -> (r: usize)
    ensures
        r == utf16_len(text@),
        utf8_len(text@) <= usize::MAX,
{
    let chars = chars_of(text);
    let bound: usize = text.as_bytes().len();
    let mut count: usize = 0;
    let mut i: usize = 0;
    while i < chars.len()
        invariant
            i <= chars@.len(),
            chars@ == text@,
            bound == utf8_len(text@),
            count == utf16_len(text@.take(i as int)),
        decreases chars@.len() - i,
    {
        proof {
            lemma_prefix_lens(text@, i + 1, text@.len() as int);
            assert(text@.take(text@.len() as int) =~= text@);
            assert(text@.take(i + 1).drop_last() =~= text@.take(i as int));
        }
        count += char_len_utf16(chars[i]);
        i += 1;
    }
    assert(text@.take(text@.len() as int) =~= text@);
    count
}

// ---------------------------------------------------------------------------
// Laws
// ---------------------------------------------------------------------------

/// Law: the control characters are those before the space, the delete character
/// and the 32 behind it; letters, digits and the signs of ASCII are none.
pub proof fn law_control_characters(c: char)
    ensures
        control_char(c) <==> ('\u{0}' <= c <= '\u{1f}' || c == '\u{7f}' || '\u{80}' <= c
            <= '\u{9f}'),
        ' ' <= c <= '~' ==> !control_char(c),
{
}

/// Law: white space is the space, the tabs and line breaks of ASCII, and the
/// blanks and separators of Unicode; no other sign of ASCII is.
pub proof fn law_white_space(c: char)
    ensures
        c == ' ' || c == '\t' || c == '\n' || c == '\u{b}' || c == '\u{c}' || c == '\r'
            ==> whitespace_char(c),
        c == '\u{85}' || c == '\u{a0}' || c == '\u{1680}' || '\u{2000}' <= c <= '\u{200a}' || c
            == '\u{2028}' || c == '\u{2029}' || c == '\u{202f}' || c == '\u{205f}' || c
            == '\u{3000}' ==> whitespace_char(c),
        '!' <= c <= '~' ==> !whitespace_char(c),
        whitespace_char(c) ==> c <= ' ' || c == '\u{85}' || c == '\u{a0}' || c == '\u{1680}' || (
        '\u{2000}' <= c <= '\u{205f}') || c == '\u{3000}',
        whitespace_char(c) && '\u{2000}' <= c <= '\u{205f}' ==> c <= '\u{200a}' || c == '\u{2028}'
            || c == '\u{2029}' || c == '\u{202f}' || c == '\u{205f}',
        whitespace_char(c) && c < ' ' ==> '\t' <= c <= '\r',
{
}

/// Law: the letters from A to Z get the code 32 higher, every other character
/// stays, and what is in lower case stays so.
pub proof fn law_lower_case(text: Seq<char>, i: int)
    requires
        0 <= i < text.len(),
    ensures
        ascii_lower_text(text).len() == text.len(),
        0x41 <= text[i] as u32 <= 0x5a ==> ascii_lower_text(text)[i] as u32 == text[i] as u32 + 32,
        !(0x41 <= text[i] as u32 <= 0x5a) ==> ascii_lower_text(text)[i] == text[i],
        ascii_lower(text[i]) == ascii_lower_text(text)[i],
        ascii_lower_text(ascii_lower_text(text)) == ascii_lower_text(text),
{
    assert(ascii_lower_text(ascii_lower_text(text)) =~= ascii_lower_text(text));
}

/// Law: what is trimmed at the end is a front part of the text; all that is left
/// out is white space, and what is kept does not end with any.
pub proof fn law_trimming_the_end(text: Seq<char>)
    ensures
        ({
            let kept = trimmed_end(text);
            &&& kept.len() <= text.len()
            &&& kept == text.take(kept.len() as int)
            &&& forall|i: int|
                kept.len() <= i < text.len() ==> whitespace_char(#[trigger] text[i])
            &&& kept.len() > 0 ==> !whitespace_char(kept.last())
        }),
    decreases text.len(),
{
    if text.len() > 0 && whitespace_char(text.last()) {
        let front = text.drop_last();
        law_trimming_the_end(front);
        let kept = trimmed_end(text);
        assert(front.take(kept.len() as int) =~= text.take(kept.len() as int));
        assert forall|i: int| kept.len() <= i < text.len() implies whitespace_char(
            #[trigger] text[i],
        ) by {
            if i < front.len() {
                assert(front[i] == text[i]);
            }
        }
    } else {
        assert(text.take(text.len() as int) =~= text);
    }
}

proof fn lemma_trimming_the_start(text: Seq<char>)
    ensures
        ({
            let kept = trimmed_start(text);
            let from = text.len() - kept.len();
            &&& 0 <= from
            &&& kept == text.skip(from)
            &&& forall|i: int| 0 <= i < from ==> whitespace_char(#[trigger] text[i])
            &&& kept.len() > 0 ==> !whitespace_char(kept[0])
        }),
    decreases text.len(),
{
    if text.len() > 0 && whitespace_char(text[0]) {
        let rest = text.skip(1);
        lemma_trimming_the_start(rest);
        let kept = trimmed_start(text);
        let from = text.len() - kept.len();
        assert(rest.skip(from - 1) =~= text.skip(from));
        assert forall|i: int| 0 <= i < from implies whitespace_char(#[trigger] text[i]) by {
            if i > 0 {
                assert(rest[i - 1] == text[i]);
            }
        }
    } else {
        assert(text.skip(0) =~= text);
    }
}

/// Law: a text is what is left of it when it is trimmed, between white space; and
/// what is left neither starts nor ends with any.
pub proof fn law_trimming(text: Seq<char>)
    ensures
        exists|from: int|
            {
                &&& 0 <= from
                &&& from + trimmed(text).len() <= text.len()
                &&& #[trigger] text.subrange(from, from + trimmed(text).len()) == trimmed(text)
                &&& forall|i: int|
                    0 <= i < from || from + trimmed(text).len() <= i < text.len()
                        ==> whitespace_char(#[trigger] text[i])
            },
        trimmed(text).len() > 0 ==> !whitespace_char(trimmed(text)[0]) && !whitespace_char(
            trimmed(text).last(),
        ),
{
    lemma_trimming_the_start(text);
    let rest = trimmed_start(text);
    law_trimming_the_end(rest);
    let from = text.len() - rest.len();
    let kept = trimmed(text);
    assert(text.subrange(from, from + kept.len()) =~= kept);
    assert forall|i: int|
        0 <= i < from || from + kept.len() <= i < text.len() implies whitespace_char(
        #[trigger] text[i],
    ) by {
        if i >= from {
            assert(rest[i - from] == text[i]);
        }
    }
}

/// The number that digits write, the most significant one first.
pub open spec fn digits_read(codes: Seq<u8>) -> int
    decreases codes.len(),
{
    if codes.len() == 0 {
        0
    } else {
        10 * digits_read(codes.drop_last()) + (codes.last() - 0x30)
    }
}

/// Law: a number in decimal consists of digits, has no zero in front, and reads
/// back as the number.
pub proof fn law_decimals_read_back(n: nat)
    ensures
        digits_read(decimal(n)) == n,
        decimal(n).len() > 0,
        n > 0 ==> decimal(n)[0] != 0x30,
        n < 10 ==> decimal(n).len() == 1,
        forall|i: int| 0 <= i < decimal(n).len() ==> 0x30 <= #[trigger] decimal(n)[i] <= 0x39,
    decreases n,
{
    if n < 10 {
        assert(decimal(n).drop_last() =~= Seq::<u8>::empty());
        assert(digits_read(decimal(n).drop_last()) == 0);
    } else {
        law_decimals_read_back(n / 10);
        assert(decimal(n).drop_last() =~= decimal(n / 10));
        assert(decimal(n)[0] == decimal(n / 10)[0]);
        assert forall|i: int| 0 <= i < decimal(n).len() implies 0x30 <= #[trigger] decimal(n)[i]
            <= 0x39 by {
            if i < decimal(n / 10).len() {
                assert(decimal(n)[i] == decimal(n / 10)[i]);
            }
        }
    }
}

/// The value of a hexadecimal digit in lower case.
pub open spec fn hex_value(c: char) -> int {
    if '0' <= c <= '9' {
        c as u32 - 0x30
    } else if 'a' <= c <= 'f' {
        c as u32 - 0x61 + 10
    } else {
        -1
    }
}

/// Law: bytes in hexadecimal are two digits each, the higher one first, that read
/// back as the byte.
pub proof fn law_hexadecimals_read_back(bytes: Seq<u8>, i: int)
    requires
        0 <= i < bytes.len(),
    ensures
        hex_text(bytes).len() == 2 * bytes.len(),
        0 <= hex_value(hex_text(bytes)[2 * i]) < 16,
        0 <= hex_value(hex_text(bytes)[2 * i + 1]) < 16,
        16 * hex_value(hex_text(bytes)[2 * i]) + hex_value(hex_text(bytes)[2 * i + 1]) == bytes[i],
    decreases bytes.len(),
{
    let front = bytes.drop_last();
    if i < front.len() {
        law_hexadecimals_read_back(front, i);
        assert(hex_text(bytes)[2 * i] == hex_text(front)[2 * i]);
        assert(hex_text(bytes)[2 * i + 1] == hex_text(front)[2 * i + 1]);
    } else if front.len() > 0 {
        law_hexadecimals_read_back(front, 0);
    } else {
        assert(hex_text(front) =~= Seq::<char>::empty());
    }
}

/// Law: bytes that are repeated fill so many times their length, one run after
/// the other.
pub proof fn law_repeating(bytes: Seq<u8>, count: nat, k: int, i: int)
    requires
        0 <= k < count,
        0 <= i < bytes.len(),
    ensures
        repeated(bytes, count).len() == count * bytes.len(),
        0 <= k * bytes.len() + i < repeated(bytes, count).len(),
        repeated(bytes, count)[k * bytes.len() + i] == bytes[i],
    decreases count,
{
    let n = bytes.len() as int;
    let front = repeated(bytes, (count - 1) as nat);
    if count > 1 {
        law_repeating(bytes, (count - 1) as nat, if k < count - 1 {
            k
        } else {
            0
        }, i);
    } else {
        assert(0 * n == 0) by (nonlinear_arith);
    }
    assert(front.len() == (count - 1) * n);
    assert((count - 1) * n + n == count * n) by (nonlinear_arith);
    if k == count - 1 {
        assert(k * n == (count - 1) * n) by (nonlinear_arith)
            requires
                k == count - 1,
        ;
    } else {
        assert(0 <= k * n && k * n + n <= (count - 1) * n) by (nonlinear_arith)
            requires
                0 <= k <= count - 2,
                0 <= n,
        ;
    }
}

/// Law: characters of the basic plane take one UTF-16 code unit, the others two,
/// and texts what their parts take.
pub proof fn law_utf16_lengths(a: Seq<char>, c: char, b: Seq<char>)
    ensures
        utf16_len(Seq::empty()) == 0,
        utf16_len(a + seq![c] + b) == utf16_len(a) + utf16_len(b) + if c <= '\u{ffff}' {
            1int
        } else {
            2
        },
{
    lemma_utf16_len_concat(a + seq![c], b);
    lemma_utf16_len_concat(a, seq![c]);
    assert(seq![c].drop_last() =~= Seq::<char>::empty());
    assert(utf16_len(seq![c]) == utf16_len(seq![c].drop_last()) + utf16_width(c));
    assert(c as u32 >= 0x10000 <==> c > '\u{ffff}');
}

/// A text is trimmed to nothing where all of it is white space, and only there.
pub proof fn lemma_trims_to_nothing(text: Seq<char>)
    ensures
        trimmed(text).len() == 0 <==> (forall|i: int|
            0 <= i < text.len() ==> whitespace_char(#[trigger] text[i])),
{
    law_trimming(text);
    let kept = trimmed(text);
    let from = choose|from: int|
        {
            &&& 0 <= from
            &&& from + kept.len() <= text.len()
            &&& #[trigger] text.subrange(from, from + kept.len()) == kept
            &&& forall|i: int|
                0 <= i < from || from + kept.len() <= i < text.len() ==> whitespace_char(
                    #[trigger] text[i],
                )
        };
    if kept.len() > 0 {
        assert(text.subrange(from, from + kept.len())[0] == text[from]);
    }
}

} // verus!
