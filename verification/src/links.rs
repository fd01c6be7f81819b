//! Links in plain text: where they are, and the cells that show them.
use vstd::prelude::*;

use crate::chars::{
    chars_of, control_char, has_text_at, holds_at, is_control, is_whitespace, text_of,
    whitespace_char,
};
use crate::grid_cells::{
    advance, cell_advance_cols, cells_text, distance, link_text, CellSnapshot,
};

verus! {

/// A character that a link may hold behind its scheme.
pub open spec fn body_char(c: char) -> bool {
    !whitespace_char(c) && !control_char(c) && c != '<' && c != '>' && c != '"' && c != '\''
}

pub fn is_url_body_char(ch: char) -> (r: bool)
    ensures
        r == body_char(ch),
{
    !is_whitespace(ch) && !is_control(ch) && ch != '<' && ch != '>' && ch != '"' && ch != '\''
}

/// A sign that belongs to the sentence and not to the link at whose end it is.
pub open spec fn trailing_sign(c: char) -> bool {
    c == '.' || c == ',' || c == ';' || c == ':' || c == '!' || c == '?' || c == ')' || c == ']'
        || c == '}'
}

pub fn is_url_trailing_punctuation(ch: char) -> (r: bool)
    ensures
        r == trailing_sign(ch),
{
    ch == '.' || ch == ',' || ch == ';' || ch == ':' || ch == '!' || ch == '?' || ch == ')' || ch
        == ']' || ch == '}'
}

/// The scheme that starts at a place.
pub open spec fn scheme_at(text: Seq<char>, at: int) -> Option<Seq<char>> {
    if holds_at(text, "https://"@, at) {
        Some("https://"@)
    } else if holds_at(text, "http://"@, at) {
        Some("http://"@)
    } else if holds_at(text, "file://"@, at) {
        Some("file://"@)
    } else {
        None
    }
}

/// A scheme has at least seven characters, and lies within the text.
pub proof fn lemma_scheme(text: Seq<char>, at: int)
    ensures
        scheme_at(text, at) matches Some(scheme) ==> 7 <= scheme.len() && 0 <= at && at
            + scheme.len() <= text.len(),
{
    reveal_strlit("https://");
    reveal_strlit("http://");
    reveal_strlit("file://");
}

/// The first scheme from a place on: where it starts, and which it is.
pub open spec fn next_scheme(text: Seq<char>, from: int) -> Option<(int, Seq<char>)>
    decreases text.len() - from,
{
    if from >= text.len() {
        None
    } else {
        match scheme_at(text, from) {
            Some(scheme) => Some((from, scheme)),
            None => next_scheme(text, from + 1),
        }
    }
}

pub fn find_next_url_scheme(text: &[char], from: usize) -> (r: Option<(usize, &'static str)>)
    requires
        from <= text@.len(),
    ensures
        match r {
            Some((at, scheme)) => next_scheme(text@, from as int) == Some((at as int, scheme@))
                && from <= at && at + scheme@.len() <= text@.len() && scheme@.len() >= 7,
            None => next_scheme(text@, from as int) is None,
        },
{
    let https = chars_of("https://");
    let http = chars_of("http://");
    let file = chars_of("file://");
    let mut at: usize = from;
    while at < text.len()
        invariant
            from <= at <= text@.len(),
            https@ == "https://"@,
            http@ == "http://"@,
            file@ == "file://"@,
            next_scheme(text@, at as int) == next_scheme(text@, from as int),
        decreases text@.len() - at,
    {
        proof {
            lemma_scheme(text@, at as int);
        }
        if has_text_at(text, https.as_slice(), at) {
            return Some((at, "https://"));
        }
        if has_text_at(text, http.as_slice(), at) {
            return Some((at, "http://"));
        }
        if has_text_at(text, file.as_slice(), at) {
            return Some((at, "file://"));
        }
        at += 1;
    }
    None
}

/// Where the characters of a link end.
pub open spec fn body_end(text: Seq<char>, from: int) -> int
    decreases text.len() - from,
{
    if 0 <= from < text.len() && body_char(text[from]) {
        body_end(text, from + 1)
    } else {
        from
    }
}

/// The end without the signs that belong to the sentence.
pub open spec fn without_signs(text: Seq<char>, start: int, end: int) -> int
    decreases end - start,
{
    if start < end && 0 < end <= text.len() && trailing_sign(text[end - 1]) {
        without_signs(text, start, end - 1)
    } else {
        end
    }
}

pub open spec fn larger(a: int, b: int) -> int {
    if a < b {
        b
    } else {
        a
    }
}

/// The links of a text from a place on: where each starts and ends.
pub open spec fn links_from(text: Seq<char>, from: int) -> Seq<(int, int)>
    decreases text.len() - from,
{
    match next_scheme(text, from) {
        None => Seq::empty(),
        Some((start, scheme)) => {
            proof {
                lemma_next_scheme(text, from);
                lemma_body_end(text, start + scheme.len());
                lemma_without_signs(text, start, body_end(text, start + scheme.len()));
            }
            let body = start + scheme.len();
            let end = without_signs(text, start, body_end(text, body));
            let rest = links_from(text, larger(end, body));
            if end > body {
                seq![(start, end)] + rest
            } else {
                rest
            }
        },
    }
}

/// A scheme that is found lies behind the place from which it was looked for.
pub proof fn lemma_next_scheme(text: Seq<char>, from: int)
    ensures
        next_scheme(text, from) matches Some((start, scheme)) ==> from <= start && 7 <= scheme.len()
            && start + scheme.len() <= text.len() && 0 <= start,
    decreases text.len() - from,
{
    if from < text.len() {
        lemma_scheme(text, from);
        lemma_next_scheme(text, from + 1);
    }
}

/// The characters of a link end within the text, and all of them are such.
pub proof fn lemma_body_end(text: Seq<char>, from: int)
    requires
        0 <= from <= text.len(),
    ensures
        from <= body_end(text, from) <= text.len(),
        forall|i: int| from <= i < body_end(text, from) ==> body_char(#[trigger] text[i]),
    decreases text.len() - from,
{
    if from < text.len() {
        lemma_body_end(text, from + 1);
    }
}

/// Signs are dropped at most up to the start of a link.
pub proof fn lemma_without_signs(text: Seq<char>, start: int, end: int)
    requires
        0 <= start <= end <= text.len(),
    ensures
        start <= without_signs(text, start, end) <= end,
    decreases end - start,
{
    if start < end {
        lemma_without_signs(text, start, end - 1);
    }
}

pub open spec fn span_views(spans: Seq<(usize, usize)>) -> Seq<(int, int)> {
    spans.map_values(|span: (usize, usize)| (span.0 as int, span.1 as int))
}

/// Where the links of a text are.
pub fn link_spans(text: &[char]) -> (spans: Vec<(usize, usize)>)
    ensures
        span_views(spans@) == links_from(text@, 0),
        forall|k: int|
            0 <= k < spans@.len() ==> (#[trigger] spans@[k]).0 <= spans@[k].1 <= text@.len(),
{
    let mut spans: Vec<(usize, usize)> = Vec::new();
    let len: usize = text.len();
    let mut from: usize = 0;
    assert(span_views(spans@) + links_from(text@, 0) =~= links_from(text@, 0));
    loop
        invariant
            from <= text@.len(),
            len == text@.len(),
            span_views(spans@) + links_from(text@, from as int) == links_from(text@, 0),
            forall|k: int|
                0 <= k < spans@.len() ==> (#[trigger] spans@[k]).0 <= spans@[k].1 <= text@.len(),
        decreases text@.len() - from,
    {
        let (start, scheme) = match find_next_url_scheme(text, from) {
            Some(found) => found,
            None => {
                assert(span_views(spans@) + Seq::<(int, int)>::empty() =~= span_views(spans@));
                return spans;
            },
        };
        let scheme_len: usize = chars_of(scheme).len();
        let body: usize = start + scheme_len;
        let mut end: usize = body;
        while end < text.len() && is_url_body_char(text[end])
            invariant
                body <= end <= text@.len(),
                body_end(text@, end as int) == body_end(text@, body as int),
            decreases text@.len() - end,
        {
            end += 1;
        }
        let ghost whole = end;
        while end > start && is_url_trailing_punctuation(text[end - 1])
            invariant
                start <= end <= whole <= text@.len(),
                without_signs(text@, start as int, end as int) == without_signs(
                    text@,
                    start as int,
                    whole as int,
                ),
            decreases end,
        {
            end -= 1;
        }
        let next: usize = if end < body {
            body
        } else {
            end
        };
        let ghost before = span_views(spans@);
        let ghost rest = links_from(text@, next as int);
        if end > body {
            spans.push((start, end));
            assert(span_views(spans@) =~= before.push((start as int, end as int)));
            assert(before.push((start as int, end as int)) + rest =~= before + (seq![
                (start as int, end as int),
            ] + rest));
        }
        from = next;
    }
}

/// A link: where it starts and ends, and its text.
pub open spec fn link_views(links: Seq<(usize, usize, String)>) -> Seq<(int, int, Seq<char>)> {
    links.map_values(|link: (usize, usize, String)| (link.0 as int, link.1 as int, link.2@))
}

/// The links of a text with their own texts.
pub open spec fn links_of(text: Seq<char>) -> Seq<(int, int, Seq<char>)> {
    links_from(text, 0).map_values(|span: (int, int)| (span.0, span.1, text.subrange(span.0, span.1)))
}

/// The links of a text: between which characters each stands, and what it is.
pub fn find_plain_text_links(text: &str) -> (links: Vec<(usize, usize, String)>)
    ensures
        link_views(links@) == links_of(text@),
{
    let chars = chars_of(text);
    let spans = link_spans(chars.as_slice());
    let mut links: Vec<(usize, usize, String)> = Vec::new();
    let mut i: usize = 0;
    while i < spans.len()
        invariant
            i <= spans@.len(),
            chars@ == text@,
            forall|k: int|
                0 <= k < spans@.len() ==> (#[trigger] spans@[k]).0 <= spans@[k].1 <= chars@.len(),
            links@.len() == i,
            forall|k: int|
                0 <= k < i ==> (#[trigger] links@[k]).0 == spans@[k].0 && links@[k].1 == spans@[k].1
                    && links@[k].2@ == text@.subrange(spans@[k].0 as int, spans@[k].1 as int),
        decreases spans@.len() - i,
    {
        let (start, end) = spans[i];
        assert(spans@[i as int].0 <= spans@[i as int].1);
        let uri = text_of(vstd::slice::slice_subrange(chars.as_slice(), start, end));
        links.push((start, end, uri));
        i += 1;
    }
    assert(link_views(links@) =~= links_of(text@)) by {
        assert(links_from(text@, 0).len() == spans@.len());
        assert forall|k: int| 0 <= k < spans@.len() implies link_views(links@)[k] == links_of(
            text@,
        )[k] by {
            assert(span_views(spans@)[k] == links_from(text@, 0)[k]);
            assert(links@[k].0 == spans@[k].0);
        }
    }
    links
}

/// Law: a link is never empty behind its scheme, holds only characters of a link
/// there, does not end with a sign of the sentence, and lies in the text; links do
/// not overlap.
pub proof fn law_links_are_separate_and_clean(text: Seq<char>, from: int, k: int)
    requires
        0 <= from <= text.len(),
        0 <= k < links_from(text, from).len(),
    ensures
        ({
            let links = links_from(text, from);
            let (start, end) = links[k];
            &&& from <= start < end <= text.len()
            &&& scheme_at(text, start) matches Some(scheme) && start + scheme.len() < end && (
            forall|i: int| start + scheme.len() <= i < end ==> body_char(#[trigger] text[i]))
            &&& !trailing_sign(text[end - 1])
            &&& k + 1 < links.len() ==> end <= links[k + 1].0
        }),
    decreases text.len() - from,
{
    lemma_next_scheme(text, from);
    let (start, scheme) = next_scheme(text, from)->0;
    let body = start + scheme.len();
    let whole = body_end(text, body);
    lemma_body_end(text, body);
    lemma_without_signs(text, start, whole);
    let end = without_signs(text, start, whole);
    let next = larger(end, body);
    let rest = links_from(text, next);
    lemma_scheme_found(text, from);
    lemma_clean_end(text, start, whole);
    if end > body {
        if k == 0 {
            if rest.len() > 0 {
                law_links_are_separate_and_clean(text, next, 0);
            }
        } else {
            law_links_are_separate_and_clean(text, next, k - 1);
            assert(links_from(text, from)[k] == rest[k - 1]);
            if k + 1 < links_from(text, from).len() {
                assert(links_from(text, from)[k + 1] == rest[k]);
            }
        }
    } else {
        law_links_are_separate_and_clean(text, next, k);
    }
}

proof fn lemma_scheme_found(text: Seq<char>, from: int)
    ensures
        next_scheme(text, from) matches Some((start, scheme)) ==> scheme_at(text, start) == Some(
            scheme,
        ),
    decreases text.len() - from,
{
    if from < text.len() {
        lemma_scheme_found(text, from + 1);
    }
}

proof fn lemma_clean_end(text: Seq<char>, start: int, end: int)
    requires
        0 <= start <= end <= text.len(),
    ensures
        without_signs(text, start, end) > start ==> !trailing_sign(
            text[without_signs(text, start, end) - 1],
        ),
    decreases end - start,
{
    if start < end && trailing_sign(text[end - 1]) {
        lemma_clean_end(text, start, end - 1);
    }
}

// ---------------------------------------------------------------------------
// Links on cells
// ---------------------------------------------------------------------------

/// The column of each character of a row's text, from a column on.
pub open spec fn char_cols(row: Seq<CellSnapshot>, col: int) -> Seq<int>
    decreases distance(col, row.len() as int),
{
    if 0 <= col < row.len() {
        Seq::new(row[col].chars().len(), |i: int| col) + char_cols(row, col + advance(row[col]))
    } else {
        Seq::empty()
    }
}

/// Whether a cell shows one of some characters.
pub open spec fn shows_char(cols: Seq<int>, start: int, end: int, col: int) -> bool {
    exists|i: int| start <= i < end && i < cols.len() && #[trigger] cols[i] == col
}

/// The first of the first `count` links that a cell shows a character of.
pub open spec fn link_of_cell(
    links: Seq<(int, int)>,
    cols: Seq<int>,
    col: int,
    count: nat,
) -> Option<int>
    decreases count,
{
    if count == 0 {
        None
    } else {
        match link_of_cell(links, cols, col, (count - 1) as nat) {
            Some(k) => Some(k),
            None => if shows_char(cols, links[count - 1].0, links[count - 1].1, col) {
                Some(count - 1)
            } else {
                None
            },
        }
    }
}

/// The link of a cell: its own, or else that of the text it is part of.
pub open spec fn annotated_link(row: Seq<CellSnapshot>, col: int) -> Option<Seq<char>> {
    let text = cells_text(row, 0, row.len() as int);
    let links = links_from(text, 0);
    match link_text(row[col].link) {
        Some(own) => Some(own),
        None => match link_of_cell(links, char_cols(row, 0), col, links.len()) {
            Some(k) => Some(text.subrange(links[k].0, links[k].1)),
            None => None,
        },
    }
}

/// Whether a row is another with the links of its text put on its cells.
pub open spec fn is_annotated(row: Seq<CellSnapshot>, before: Seq<CellSnapshot>) -> bool {
    &&& row.len() == before.len()
    &&& forall|c: int|
        0 <= c < row.len() ==> {
            &&& #[trigger] row[c] == (CellSnapshot { link: row[c].link, ..before[c] })
            &&& link_text(row[c].link) == annotated_link(before, c)
        }
}

pub open spec fn col_views(cols: Seq<usize>) -> Seq<int> {
    cols.map_values(|col: usize| col as int)
}

/// The text of a row, and the column of each of its characters.
fn row_text_with_cols(row: &Vec<CellSnapshot>) -> (r: (Vec<char>, Vec<usize>))
    ensures
        r.0@ == cells_text(row@, 0, row@.len() as int),
        col_views(r.1@) == char_cols(row@, 0),
        forall|i: int| 0 <= i < r.1@.len() ==> (#[trigger] r.1@[i]) < row@.len(),
{
    let mut text: Vec<char> = Vec::new();
    let mut cols: Vec<usize> = Vec::new();
    let mut col: usize = 0;
    let ghost len = row@.len() as int;
    assert(text@ + cells_text(row@, 0, len) =~= cells_text(row@, 0, len));
    assert(col_views(cols@) + char_cols(row@, 0) =~= char_cols(row@, 0));
    while col < row.len()
        invariant
            col <= row@.len(),
            len == row@.len(),
            text@ + cells_text(row@, col as int, len) == cells_text(row@, 0, len),
            col_views(cols@) + char_cols(row@, col as int) == char_cols(row@, 0),
            forall|i: int| 0 <= i < cols@.len() ==> (#[trigger] cols@[i]) < row@.len(),
        decreases row@.len() - col,
    {
        let ghost text_before = text@;
        let ghost cols_before = col_views(cols@);
        let cell: &CellSnapshot = &row[col];
        let chars_before: usize = text.len();
        cell.push_text_to(&mut text);
        let ghost here = Seq::new(cell.chars().len(), |i: int| col as int);
        let count: usize = text.len() - chars_before;
        let mut n: usize = 0;
        assert(cols_before + here.take(0) =~= cols_before);
        while n < count
            invariant
                n <= count,
                count == here.len(),
                col < row@.len(),
                here == Seq::new(count as nat, |i: int| col as int),
                col_views(cols@) == cols_before + here.take(n as int),
                forall|i: int| 0 <= i < cols@.len() ==> (#[trigger] cols@[i]) < row@.len(),
            decreases count - n,
        {
            let ghost before = cols@;
            cols.push(col);
            assert(col_views(cols@) =~= col_views(before).push(col as int));
            assert(cols_before + here.take(n + 1) =~= (cols_before + here.take(n as int)).push(
                col as int,
            ));
            n += 1;
        }
        assert(here.take(count as int) =~= here);
        let step: usize = cell_advance_cols(cell);
        let ghost after_text = cells_text(row@, col + step, len);
        let ghost after_cols = char_cols(row@, col + step);
        assert(text_before + (cell.chars() + after_text) =~= text@ + after_text);
        assert(cols_before + (here + after_cols) =~= col_views(cols@) + after_cols);
        if step < row.len() - col {
            col += step;
        } else {
            assert(after_text =~= cells_text(row@, len, len));
            assert(after_cols =~= char_cols(row@, len));
            col = row.len();
        }
    }
    assert(text@ + cells_text(row@, col as int, len) =~= text@);
    assert(col_views(cols@) + char_cols(row@, col as int) =~= col_views(cols@));
    (text, cols)
}

/// What the link of a cell is when the first `count` links and the characters
/// of one more, up to a place, are put on the cells.
pub open spec fn partial_link(
    own: Option<Seq<char>>,
    text: Seq<char>,
    links: Seq<(int, int)>,
    cols: Seq<int>,
    col: int,
    count: nat,
    upto: int,
) -> Option<Seq<char>> {
    match own {
        Some(link) => Some(link),
        None => match link_of_cell(links, cols, col, count) {
            Some(k) => Some(text.subrange(links[k].0, links[k].1)),
            None => if count < links.len() && shows_char(cols, links[count as int].0, upto, col) {
                Some(text.subrange(links[count as int].0, links[count as int].1))
            } else {
                None
            },
        },
    }
}

/// Puts the links of a row's text on its cells; links that cells have already
/// stay.
pub fn annotate_plain_text_links_for_row(row: &mut Vec<CellSnapshot>)
    ensures
        is_annotated(final(row)@, old(row)@),
{
    let ghost before = row@;
    let (text, cols) = row_text_with_cols(row);
    let spans = link_spans(text.as_slice());
    let ghost links = span_views(spans@);
    let ghost places = col_views(cols@);
    let mut k: usize = 0;
    assert forall|c: int| 0 <= c < before.len() implies link_text((#[trigger] row@[c]).link)
        == partial_link(
        link_text(before[c].link),
        text@,
        links,
        places,
        c,
        0,
        if links.len() > 0 {
            links[0].0
        } else {
            0
        },
    ) by {
        assert(!(links.len() > 0 && shows_char(places, links[0].0, links[0].0, c)));
    }
    while k < spans.len()
        invariant
            k <= spans@.len(),
            links == span_views(spans@),
            places == col_views(cols@),
            forall|i: int|
                0 <= i < spans@.len() ==> (#[trigger] spans@[i]).0 <= spans@[i].1 <= text@.len(),
            forall|i: int| 0 <= i < cols@.len() ==> (#[trigger] cols@[i]) < before.len(),
            row@.len() == before.len(),
            forall|c: int|
                0 <= c < before.len() ==> {
                    &&& #[trigger] row@[c] == (CellSnapshot { link: row@[c].link, ..before[c] })
                    &&& link_text(row@[c].link) == partial_link(
                        link_text(before[c].link),
                        text@,
                        links,
                        places,
                        c,
                        k as nat,
                        if k < links.len() {
                            links[k as int].0
                        } else {
                            0
                        },
                    )
                },
        decreases spans@.len() - k,
    {
        let (start, end) = spans[k];
        assert(links[k as int] == (start as int, end as int));
        assert(spans@[k as int].0 <= spans@[k as int].1 <= text@.len());
        let stop: usize = if end < cols.len() {
            end
        } else {
            cols.len()
        };
        let mut i: usize = start;
        while i < stop
            invariant
                start <= i,
                i <= stop || i == start,
                stop <= cols@.len(),
                stop <= end <= text@.len(),
                k < spans@.len(),
                links == span_views(spans@),
                links[k as int] == (start as int, end as int),
                places == col_views(cols@),
                forall|i: int| 0 <= i < cols@.len() ==> (#[trigger] cols@[i]) < before.len(),
                row@.len() == before.len(),
                forall|c: int|
                    0 <= c < before.len() ==> {
                        &&& #[trigger] row@[c] == (CellSnapshot {
                            link: row@[c].link,
                            ..before[c]
                        })
                        &&& link_text(row@[c].link) == partial_link(
                            link_text(before[c].link),
                            text@,
                            links,
                            places,
                            c,
                            k as nat,
                            i as int,
                        )
                    },
            decreases stop - i,
        {
            let col: usize = cols[i];
            assert(places[i as int] == col);
            let ghost held = row@;
            if row[col].link.is_none() {
                let uri = text_of(vstd::slice::slice_subrange(text.as_slice(), start, end));
                let cell: &mut CellSnapshot = &mut row[col];
                cell.link = Some(uri);
            }
            assert forall|c: int| 0 <= c < before.len() implies {
                &&& #[trigger] row@[c] == (CellSnapshot { link: row@[c].link, ..before[c] })
                &&& link_text(row@[c].link) == partial_link(
                    link_text(before[c].link),
                    text@,
                    links,
                    places,
                    c,
                    k as nat,
                    i + 1,
                )
            } by {
                assert(held[c] == (CellSnapshot { link: held[c].link, ..before[c] }));
                if c == col {
                    assert(shows_char(places, start as int, i + 1, c)) by {
                        assert(places[i as int] == c);
                    }
                } else {
                    assert(row@[c] == held[c]);
                    lemma_shows_one_more(places, start as int, i as int, c);
                }
                if shows_char(places, start as int, i as int, c) {
                    lemma_shows_more(places, start as int, i as int, i + 1, c);
                }
            }
            i += 1;
        }
        assert forall|c: int| 0 <= c < before.len() implies {
            &&& #[trigger] row@[c] == (CellSnapshot { link: row@[c].link, ..before[c] })
            &&& link_text(row@[c].link) == partial_link(
                link_text(before[c].link),
                text@,
                links,
                places,
                c,
                (k + 1) as nat,
                if k + 1 < links.len() {
                    links[k + 1].0
                } else {
                    0
                },
            )
        } by {
            lemma_shows_within(places, start as int, i as int, end as int, c);
            if k + 1 < links.len() {
                assert(!shows_char(places, links[k + 1].0, links[k + 1].0, c));
            }
        }
        k += 1;
    }
    proof {
        assert(text@ == cells_text(before, 0, before.len() as int));
        assert forall|c: int| 0 <= c < row@.len() implies {
            &&& #[trigger] row@[c] == (CellSnapshot { link: row@[c].link, ..before[c] })
            &&& link_text(row@[c].link) == annotated_link(before, c)
        } by {}
    }
}

proof fn lemma_shows_one_more(cols: Seq<int>, start: int, i: int, col: int)
    requires
        0 <= i < cols.len(),
        cols[i] != col,
    ensures
        shows_char(cols, start, i + 1, col) == shows_char(cols, start, i, col),
{
    if shows_char(cols, start, i, col) {
        lemma_shows_more(cols, start, i, i + 1, col);
    }
}

proof fn lemma_shows_more(cols: Seq<int>, start: int, i: int, j: int, col: int)
    requires
        i <= j,
        shows_char(cols, start, i, col),
    ensures
        shows_char(cols, start, j, col),
{
    let n = choose|n: int| start <= n < i && n < cols.len() && #[trigger] cols[n] == col;
    assert(cols[n] == col);
}

/// Beyond the last character there is nothing to show.
proof fn lemma_shows_within(cols: Seq<int>, start: int, i: int, end: int, col: int)
    requires
        i >= end || i >= cols.len(),
        start <= i,
        i <= end || i == start,
    ensures
        shows_char(cols, start, i, col) == shows_char(cols, start, end, col),
{
    if shows_char(cols, start, end, col) {
        let n = choose|n: int| start <= n < end && n < cols.len() && #[trigger] cols[n] == col;
        assert(cols[n] == col);
        assert(n < i);
    }
    if shows_char(cols, start, i, col) {
        let n = choose|n: int| start <= n < i && n < cols.len() && #[trigger] cols[n] == col;
        assert(cols[n] == col);
    }
}

/// Law: links that a program gave to cells stay, and nothing but links is put on
/// cells.
pub proof fn law_given_links_stay(row: Seq<CellSnapshot>, before: Seq<CellSnapshot>, c: int)
    requires
        is_annotated(row, before),
        0 <= c < before.len(),
    ensures
        before[c].link is Some ==> link_text(row[c].link) == link_text(before[c].link),
        row[c].chars() == before[c].chars(),
        cells_text(row, 0, row.len() as int) == cells_text(before, 0, before.len() as int),
{
    assert(row[c] == (CellSnapshot { link: row[c].link, ..before[c] }));
    lemma_same_cells_text(row, before, 0);
}

proof fn lemma_same_cells_text(row: Seq<CellSnapshot>, before: Seq<CellSnapshot>, col: int)
    requires
        is_annotated(row, before),
        0 <= col,
    ensures
        cells_text(row, col, row.len() as int) == cells_text(before, col, before.len() as int),
    decreases distance(col, row.len() as int),
{
    if col < row.len() {
        assert(row[col] == (CellSnapshot { link: row[col].link, ..before[col] }));
        assert(row[col].chars() == before[col].chars());
        assert(advance(row[col]) == advance(before[col]));
        lemma_same_cells_text(row, before, col + advance(row[col]));
    }
}

/// Law: behind its scheme a link may hold every character but white space,
/// control characters, angle brackets and quotes; so letters, digits and all the
/// signs of a path, a query and a port are accepted.
pub proof fn law_characters_of_a_link(c: char)
    ensures
        body_char(c) <==> !(whitespace_char(c) || '\u{0}' <= c <= '\u{1f}' || '\u{7f}' <= c
            <= '\u{9f}' || c == '<' || c == '>' || c == '"' || c == '\''),
        '0' <= c <= '9' || 'a' <= c <= 'z' || 'A' <= c <= 'Z' ==> body_char(c),
        c == '-' || c == '.' || c == '_' || c == '~' || c == '/' || c == ':' || c == '?' || c == '#'
            || c == '[' || c == ']' || c == '@' || c == '!' || c == '$' || c == '&' || c == '('
            || c == ')' || c == '*' || c == '+' || c == ',' || c == ';' || c == '=' || c == '%'
            ==> body_char(c),
        c >= '\u{a1}' && !whitespace_char(c) ==> body_char(c),
        c == ' ' || c == '\t' || c == '\n' || c == '\r' ==> !body_char(c),
{
}

/// Law: the signs that are left out at the end of a link are those that end a
/// sentence or a bracket; letters, digits, and the slash never are.
pub proof fn law_signs_of_a_sentence(c: char)
    ensures
        trailing_sign(c) <==> seq!['.', ',', ';', ':', '!', '?', ')', ']', '}'].contains(c),
        trailing_sign(c) ==> body_char(c),
        '0' <= c <= '9' || 'a' <= c <= 'z' || 'A' <= c <= 'Z' || c == '/' || c == '-' || c == '_'
            || c == '#' || c == '=' ==> !trailing_sign(c),
{
    let signs = seq!['.', ',', ';', ':', '!', '?', ')', ']', '}'];
    if c == '.' {
        assert(signs[0] == c);
    } else if c == ',' {
        assert(signs[1] == c);
    } else if c == ';' {
        assert(signs[2] == c);
    } else if c == ':' {
        assert(signs[3] == c);
    } else if c == '!' {
        assert(signs[4] == c);
    } else if c == '?' {
        assert(signs[5] == c);
    } else if c == ')' {
        assert(signs[6] == c);
    } else if c == ']' {
        assert(signs[7] == c);
    } else if c == '}' {
        assert(signs[8] == c);
    }
}

proof fn lemma_body_end_stops(text: Seq<char>, from: int)
    requires
        0 <= from <= text.len(),
    ensures
        body_end(text, from) < text.len() ==> !body_char(text[body_end(text, from)]),
    decreases text.len() - from,
{
    if from < text.len() && body_char(text[from]) {
        lemma_body_end_stops(text, from + 1);
    }
}

proof fn lemma_dropped_signs(text: Seq<char>, start: int, end: int, i: int)
    requires
        0 <= start <= end <= text.len(),
        without_signs(text, start, end) <= i < end,
    ensures
        trailing_sign(text[i]),
    decreases end - start,
{
    if start < end && trailing_sign(text[end - 1]) && i < end - 1 {
        lemma_dropped_signs(text, start, end - 1, i);
    }
}

/// Whether a link that ends at a place could not have gone on: behind it stand
/// signs of the sentence up to a stop, and there the text ends, or a character
/// that no link may hold.
pub open spec fn goes_no_further(text: Seq<char>, end: int, stop: int) -> bool {
    &&& end <= stop <= text.len()
    &&& forall|i: int| end <= i < stop ==> trailing_sign(#[trigger] text[i])
    &&& stop == text.len() || whitespace_char(text[stop]) || control_char(text[stop])
        || text[stop] == '<' || text[stop] == '>' || text[stop] == '"' || text[stop] == '\''
}

/// Law: a link reaches as far as it can. Behind it stand at most signs of the
/// sentence, and behind these the text ends, or a character that no link may
/// hold: white space, a control character, an angle bracket or a quote.
pub proof fn law_links_reach_as_far_as_they_can(text: Seq<char>, from: int, k: int)
    requires
        0 <= from <= text.len(),
        0 <= k < links_from(text, from).len(),
    ensures
        exists|stop: int| goes_no_further(text, links_from(text, from)[k].1, stop),
    decreases text.len() - from,
{
    lemma_next_scheme(text, from);
    let (start, scheme) = next_scheme(text, from)->0;
    let body = start + scheme.len();
    let whole = body_end(text, body);
    lemma_body_end(text, body);
    lemma_body_end_stops(text, body);
    lemma_without_signs(text, start, whole);
    let end = without_signs(text, start, whole);
    let next = larger(end, body);
    let rest = links_from(text, next);
    if end > body && k == 0 {
        assert(links_from(text, from)[0] == (start, end));
        assert forall|i: int| end <= i < whole implies trailing_sign(#[trigger] text[i]) by {
            lemma_dropped_signs(text, start, whole, i);
        }
        assert(goes_no_further(text, links_from(text, from)[k].1, whole));
    } else if end > body {
        law_links_reach_as_far_as_they_can(text, next, k - 1);
        let earlier = k - 1;
        let stop = choose|stop: int|
            goes_no_further(text, links_from(text, next)[earlier].1, stop);
        assert(links_from(text, from)[k] == rest[k - 1]);
        assert(goes_no_further(text, links_from(text, from)[k].1, stop));
    } else {
        law_links_reach_as_far_as_they_can(text, next, k);
        let stop = choose|stop: int| goes_no_further(text, links_from(text, next)[k].1, stop);
        assert(links_from(text, from) == rest);
        assert(goes_no_further(text, links_from(text, from)[k].1, stop));
    }
}

/// Law: a link starts with one of the three schemes, and each of these is one.
pub proof fn law_schemes_of_links(text: Seq<char>, at: int)
    ensures
        scheme_at(text, at) is Some <==> holds_at(text, "https://"@, at) || holds_at(
            text,
            "http://"@,
            at,
        ) || holds_at(text, "file://"@, at),
        scheme_at(text, at) matches Some(scheme) ==> holds_at(text, scheme, at),
        holds_at(text, "https://"@, at) ==> scheme_at(text, at) == Some("https://"@),
        holds_at(text, "file://"@, at) ==> scheme_at(text, at) == Some("file://"@),
        holds_at(text, "http://"@, at) ==> scheme_at(text, at) == Some("http://"@),
{
    reveal_strlit("https://");
    reveal_strlit("http://");
    reveal_strlit("file://");
    if holds_at(text, "https://"@, at) {
        let found = text.subrange(at, at + 8);
        assert(found[4] == 's');
        assert(found[0] == 'h');
        if holds_at(text, "http://"@, at) {
            assert(text.subrange(at, at + 7)[4] == text[at + 4]);
            assert(found[4] == text[at + 4]);
        }
        if holds_at(text, "file://"@, at) {
            assert(text.subrange(at, at + 7)[0] == text[at]);
            assert(found[0] == text[at]);
        }
    } else if holds_at(text, "http://"@, at) && holds_at(text, "file://"@, at) {
        assert(text.subrange(at, at + 7)[0] == 'h');
        assert(text.subrange(at, at + 7)[0] == 'f');
    }
}

proof fn lemma_first_scheme(text: Seq<char>, from: int, at: int)
    requires
        from <= at,
        scheme_at(text, at) is Some,
    ensures
        next_scheme(text, from) matches Some((start, _)) && start <= at,
    decreases at - from,
{
    lemma_scheme(text, at);
    if from < at && scheme_at(text, from) is None {
        lemma_first_scheme(text, from + 1, at);
    }
}

/// Law: no link is missed. Where a scheme is followed by a character of a link
/// that is no sign of the sentence, this character is part of a link.
pub proof fn law_no_link_is_missed(text: Seq<char>, from: int, at: int)
    requires
        0 <= from <= at,
        scheme_at(text, at) is Some,
        at + (scheme_at(text, at)->0).len() < text.len(),
        body_char(text[at + (scheme_at(text, at)->0).len()]),
        !trailing_sign(text[at + (scheme_at(text, at)->0).len()]),
    ensures
        exists|k: int|
            0 <= k < links_from(text, from).len() && (#[trigger] links_from(text, from)[k]).0 <= at
                + (scheme_at(text, at)->0).len() < links_from(text, from)[k].1,
    decreases text.len() - from,
{
    lemma_scheme(text, at);
    let place = at + (scheme_at(text, at)->0).len();
    lemma_first_scheme(text, from, at);
    lemma_next_scheme(text, from);
    let (start, scheme) = next_scheme(text, from)->0;
    lemma_scheme_found(text, from);
    let body = start + scheme.len();
    let whole = body_end(text, body);
    lemma_body_end(text, body);
    lemma_body_end_stops(text, body);
    lemma_without_signs(text, start, whole);
    let end = without_signs(text, start, whole);
    let next = larger(end, body);
    let rest = links_from(text, next);
    let links = links_from(text, from);
    if start == at {
        lemma_body_goes_on(text, body);
        if end <= place {
            lemma_dropped_signs(text, start, whole, place);
        }
        assert(links[0] == (start, end));
    } else if next <= at {
        law_no_link_is_missed(text, next, at);
        let k = choose|k: int|
            0 <= k < rest.len() && (#[trigger] rest[k]).0 <= place < rest[k].1;
        if end > body {
            assert(links[k + 1] == rest[k]);
        } else {
            assert(links[k] == rest[k]);
        }
    } else {
        // The scheme stands inside the link that starts before it.
        lemma_scheme_chars(text, at, at);
        if at < body {
            lemma_scheme_chars(text, start, at);
        }
        if whole <= place {
            if whole < place {
                lemma_scheme_chars(text, at, whole);
            }
        }
        if end <= place {
            lemma_dropped_signs(text, start, whole, place);
        }
        assert(links[0] == (start, end));
    }
}

proof fn lemma_body_goes_on(text: Seq<char>, from: int)
    requires
        0 <= from < text.len(),
        body_char(text[from]),
    ensures
        from < body_end(text, from),
{
    lemma_body_end(text, from + 1);
}

/// The characters of a scheme, and that none of them but the first can start one.
proof fn lemma_scheme_chars(text: Seq<char>, start: int, i: int)
    requires
        scheme_at(text, start) is Some,
        start <= i < start + (scheme_at(text, start)->0).len(),
    ensures
        body_char(text[i]),
        i > start ==> text[i] != 'h' && text[i] != 'f',
        text[start] == 'h' || text[start] == 'f',
{
    reveal_strlit("https://");
    reveal_strlit("http://");
    reveal_strlit("file://");
    lemma_scheme(text, start);
    let scheme = scheme_at(text, start)->0;
    let found = text.subrange(start, start + scheme.len());
    assert(found == scheme);
    assert(found[i - start] == text[i]);
    assert(found[0] == text[start]);
}

/// Law: a link that is found is the part of the text between its two places.
pub proof fn law_links_are_parts_of_the_text(text: Seq<char>, k: int, i: int)
    requires
        0 <= k < links_of(text).len(),
        0 <= i < links_of(text)[k].1 - links_of(text)[k].0,
    ensures
        links_of(text).len() == links_from(text, 0).len(),
        (links_of(text)[k].0, links_of(text)[k].1) == links_from(text, 0)[k],
        links_of(text)[k].2.len() == links_of(text)[k].1 - links_of(text)[k].0,
        links_of(text)[k].2[i] == text[links_of(text)[k].0 + i],
{
    law_links_are_separate_and_clean(text, 0, k);
}

proof fn lemma_narrow_cols(row: Seq<CellSnapshot>, col: int)
    requires
        crate::grid_cells::is_narrow(row),
        0 <= col <= row.len(),
    ensures
        char_cols(row, col) == Seq::new((row.len() - col) as nat, |i: int| col + i),
    decreases row.len() - col,
{
    let all = Seq::new((row.len() - col) as nat, |i: int| col + i);
    if col < row.len() {
        lemma_narrow_cols(row, col + 1);
        assert(!row[col].spans_next_col && row[col].zerowidth@.len() == 0);
        assert(row[col].chars().len() == 1);
        assert(char_cols(row, col) =~= all);
    } else {
        assert(char_cols(row, col) =~= all);
    }
}

proof fn lemma_link_of_cell(links: Seq<(int, int)>, cols: Seq<int>, col: int, count: nat)
    requires
        count <= links.len(),
    ensures
        match link_of_cell(links, cols, col, count) {
            Some(k) => 0 <= k < count && shows_char(cols, links[k].0, links[k].1, col),
            None => forall|k: int|
                0 <= k < count ==> !shows_char(
                    cols,
                    (#[trigger] links[k]).0,
                    links[k].1,
                    col,
                ),
        },
    decreases count,
{
    if count > 0 {
        lemma_link_of_cell(links, cols, col, (count - 1) as nat);
    }
}

/// Law: in a row of narrow cells a cell leads to the link whose text it is part
/// of, and to none where it is part of none; its own link comes first.
pub proof fn law_cells_lead_to_their_link(row: Seq<CellSnapshot>, c: int)
    requires
        crate::grid_cells::is_narrow(row),
        0 <= c < row.len(),
    ensures
        ({
            let text = Seq::new(row.len(), |i: int| row[i].ch);
            let links = links_from(text, 0);
            &&& row[c].link matches Some(own) ==> annotated_link(row, c) == Some(own@)
            &&& row[c].link is None ==> match annotated_link(row, c) {
                Some(uri) => exists|k: int|
                    0 <= k < links.len() && (#[trigger] links[k]).0 <= c < links[k].1 && uri
                        == text.subrange(links[k].0, links[k].1),
                None => forall|k: int|
                    0 <= k < links.len() ==> !((#[trigger] links[k]).0 <= c < links[k].1),
            }
        }),
{
    let text = Seq::new(row.len(), |i: int| row[i].ch);
    crate::grid_cells::lemma_narrow_text(row, 0, row.len() as int);
    assert(cells_text(row, 0, row.len() as int) =~= text);
    lemma_narrow_cols(row, 0);
    let cols = char_cols(row, 0);
    let links = links_from(text, 0);
    lemma_link_of_cell(links, cols, c, links.len());
    assert(cols[c] == c);
    match link_of_cell(links, cols, c, links.len()) {
        Some(k) => {
            let i = choose|i: int|
                links[k].0 <= i < links[k].1 && i < cols.len() && #[trigger] cols[i] == c;
            law_links_are_separate_and_clean(text, 0, k);
            assert(i == c);
            assert(links[k].0 <= c < links[k].1);
        },
        None => {
            assert forall|k: int| 0 <= k < links.len() implies !((#[trigger] links[k]).0 <= c
                < links[k].1) by {
                assert(!shows_char(cols, links[k].0, links[k].1, c));
            }
        },
    }
}

} // verus!
