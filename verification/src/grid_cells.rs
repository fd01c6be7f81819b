//! The meaning of the cells of a grid: how a cell is shown, how many columns it
//! takes, and what a selection of cells holds.
//!
//! Wide characters take two columns of the grid; the second one is a spacer
//! without content. A character may also be forced to be drawn two columns wide
//! while it takes one column of the grid; the cells behind it are then drawn
//! further to the right.
use vstd::prelude::*;

use crate::chars::{push_chars, text_of, trim_end_from, trimmed_end, whitespace_char};
use crate::color::{
    ansi_bg_to_rgb, ansi_to_rgb, resolved_bg, resolved_rgb, AnsiColor, Colors, Flags,
};

verus! {

/// A cell of the grid as the terminal keeps it.
pub struct Cell {
    pub c: char,
    /// What is drawn on top of `c`.
    pub zerowidth: Vec<char>,
    pub fg: AnsiColor,
    pub bg: AnsiColor,
    pub flags: Flags,
    pub link: Option<String>,
}

/// A cell as it is shown.
pub struct CellSnapshot {
    pub ch: char,
    pub zerowidth: Vec<char>,
    pub fg: (u8, u8, u8),
    pub bg: Option<(u8, u8, u8)>,
    pub link: Option<String>,
    pub bold: bool,
    pub italic: bool,
    pub underline: bool,
    pub undercurl: bool,
    pub strikethrough: bool,
    pub width_cols: u8,
    pub spans_next_col: bool,
    pub expands_layout: bool,
}

/// The shown cells of a screen.
pub struct ScreenSnapshot {
    pub cells: Vec<Vec<CellSnapshot>>,
    pub cursor_row: usize,
    pub cursor_col: usize,
    pub cursor_visible: bool,
    pub alt_screen: bool,
}

#[derive(Clone, Copy, Debug, PartialEq, Eq, Structural)]
pub struct SelectionPoint {
    pub row: usize,
    pub col: usize,
}

/// Whether a cell is an empty one with a given foreground.
pub open spec fn is_blank_cell(cell: CellSnapshot, fg: (u8, u8, u8)) -> bool {
    &&& cell.ch == ' '
    &&& cell.zerowidth@.len() == 0
    &&& cell.fg == fg
    &&& cell.bg is None
    &&& cell.link is None
    &&& !cell.bold && !cell.italic && !cell.underline && !cell.undercurl && !cell.strikethrough
    &&& cell.width_cols == 1
    &&& !cell.spans_next_col && !cell.expands_layout
}

impl CellSnapshot {
    /// The text of the cell.
    pub open spec fn chars(self) -> Seq<char> {
        seq![self.ch] + self.zerowidth@
    }

    /// The widths fit each other, as they do in every cell made from the grid.
    pub open spec fn wf(self) -> bool {
        &&& self.width_cols == if self.spans_next_col || self.expands_layout {
            2u8
        } else {
            1u8
        }
        &&& !(self.spans_next_col && self.expands_layout)
    }

    pub fn push_text_to(&self, text: &mut Vec<char>)
        ensures
            final(text)@ == old(text)@ + self.chars(),
    {
        text.push(self.ch);
        push_chars(text, self.zerowidth.as_slice());
        assert(text@ =~= old(text)@ + self.chars());
    }

    pub fn text(&self) -> (text: String)
        ensures
            text@ == self.chars(),
    {
        let mut chars: Vec<char> = Vec::new();
        self.push_text_to(&mut chars);
        assert(chars@ =~= self.chars());
        text_of(chars.as_slice())
    }

    pub fn is_blank(&self) -> (r: bool)
        ensures
            r == (self.chars() == seq![' ']),
    {
        let r = self.ch == ' ' && self.zerowidth.len() == 0;
        proof {
            if r {
                assert(self.chars() =~= seq![' ']);
            } else {
                assert(seq![' '].len() == 1);
                assert(seq![' '][0] == ' ');
                assert(self.chars().len() == 1 + self.zerowidth@.len());
                assert(self.chars()[0] == self.ch);
            }
        }
        r
    }
}

impl Default for CellSnapshot {
    fn default() -> (cell: CellSnapshot)
        ensures
            is_blank_cell(cell, (0, 0, 0)),
            cell.wf(),
    {
        blank_cell((0, 0, 0))
    }
}

/// An empty cell.
pub fn blank_cell(default_fg: (u8, u8, u8)) -> (cell: CellSnapshot)
    ensures
        is_blank_cell(cell, default_fg),
        cell.wf(),
{
    CellSnapshot {
        ch: ' ',
        zerowidth: Vec::new(),
        fg: default_fg,
        bg: None,
        link: None,
        bold: false,
        italic: false,
        underline: false,
        undercurl: false,
        strikethrough: false,
        width_cols: 1,
        spans_next_col: false,
        expands_layout: false,
    }
}

/// Bold, italic, underlined in any way, with a wavy line, and struck out.
pub open spec fn style_flags(flags: Flags) -> (bool, bool, bool, bool, bool) {
    (
        flags.bold,
        flags.italic,
        flags.underline || flags.double_underline || flags.undercurl || flags.dotted_underline
            || flags.dashed_underline,
        flags.undercurl,
        flags.strikeout,
    )
}

pub fn cell_style_flags(flags: Flags) -> (r: (bool, bool, bool, bool, bool))
    ensures
        r == style_flags(flags),
{
    (
        flags.bold,
        flags.italic,
        flags.underline || flags.double_underline || flags.undercurl || flags.dotted_underline
            || flags.dashed_underline,
        flags.undercurl,
        flags.strikeout,
    )
}

/// The text of an optional link.
pub open spec fn link_text(link: Option<String>) -> Option<Seq<char>> {
    match link {
        Some(text) => Some(text@),
        None => None,
    }
}

/// The foreground and the background of a cell. An inverse cell exchanges them
/// after they were resolved, so that the bold or dim variant of its text colour
/// is what is seen behind the text.
pub open spec fn cell_colors(cell: Cell, colors: Colors) -> ((u8, u8, u8), Option<(u8, u8, u8)>) {
    let text_color = resolved_rgb(cell.fg, colors, cell.flags, true);
    if cell.flags.inverse {
        (resolved_rgb(cell.bg, colors, Flags::none(), false), Some(text_color))
    } else {
        (text_color, resolved_bg(cell.bg, colors))
    }
}

/// The character shown for a cell: a blank for a hidden one.
pub open spec fn shown_char(cell: Cell) -> char {
    if cell.flags.hidden {
        ' '
    } else {
        cell.c
    }
}

/// Whether a snapshot shows a cell.
pub open spec fn shows(
    snapshot: CellSnapshot,
    cell: Cell,
    colors: Colors,
    forced_double_width: Seq<char>,
) -> bool {
    &&& snapshot.ch == shown_char(cell)
    &&& snapshot.zerowidth@ == if cell.flags.hidden {
        Seq::empty()
    } else {
        cell.zerowidth@
    }
    &&& (snapshot.fg, snapshot.bg) == cell_colors(cell, colors)
    &&& link_text(snapshot.link) == link_text(cell.link)
    &&& (
        snapshot.bold,
        snapshot.italic,
        snapshot.underline,
        snapshot.undercurl,
        snapshot.strikethrough,
    ) == style_flags(cell.flags)
    &&& snapshot.spans_next_col == cell.flags.wide_char
    &&& snapshot.expands_layout == (!cell.flags.wide_char && forced_double_width.contains(
        shown_char(cell),
    ))
    &&& snapshot.wf()
}

fn holds_char(chars: &[char], c: char) -> (r: bool)
    ensures
        r == chars@.contains(c),
{
    let mut i: usize = 0;
    while i < chars.len()
        invariant
            i <= chars@.len(),
            forall|k: int| 0 <= k < i ==> chars@[k] != c,
        decreases chars@.len() - i,
    {
        if chars[i] == c {
            assert(chars@[i as int] == c);
            return true;
        }
        i += 1;
    }
    false
}

/// How a cell of the grid is shown; none for the spacer behind a wide
/// character, whose column stays as it is.
pub fn snapshot_cell(cell: &Cell, colors: &Colors, forced_double_width_chars: &[char]) -> (r:
    Option<CellSnapshot>)
    ensures
        match r {
            None => cell.flags.wide_char_spacer,
            Some(snapshot) => !cell.flags.wide_char_spacer && shows(
                snapshot,
                *cell,
                *colors,
                forced_double_width_chars@,
            ),
        },
{
    if cell.flags.wide_char_spacer {
        return None;
    }
    let resolved_fg = ansi_to_rgb(cell.fg, colors, cell.flags, true);
    let (fg, bg) = if cell.flags.inverse {
        (ansi_to_rgb(cell.bg, colors, Flags::empty(), false), Some(resolved_fg))
    } else {
        (resolved_fg, ansi_bg_to_rgb(cell.bg, colors))
    };
    let ch: char = if cell.flags.hidden {
        ' '
    } else {
        cell.c
    };
    let mut zerowidth: Vec<char> = Vec::new();
    if !cell.flags.hidden {
        push_chars(&mut zerowidth, cell.zerowidth.as_slice());
    }
    assert(zerowidth@ =~= if cell.flags.hidden {
        Seq::empty()
    } else {
        cell.zerowidth@
    });
    let spans_next_col = cell.flags.wide_char;
    let expands_layout = !spans_next_col && holds_char(forced_double_width_chars, ch);
    let width_cols: u8 = if spans_next_col || expands_layout {
        2
    } else {
        1
    };
    let (bold, italic, underline, undercurl, strikethrough) = cell_style_flags(cell.flags);
    let link = match &cell.link {
        Some(uri) => Some(uri.clone()),
        None => None,
    };
    Some(
        CellSnapshot {
            ch,
            zerowidth,
            fg,
            bg,
            link,
            bold,
            italic,
            underline,
            undercurl,
            strikethrough,
            width_cols,
            spans_next_col,
            expands_layout,
        },
    )
}

// ---------------------------------------------------------------------------
// Columns
// ---------------------------------------------------------------------------

/// How many columns of the grid a cell takes.
pub open spec fn advance(cell: CellSnapshot) -> int {
    if cell.spans_next_col && cell.width_cols > 1 {
        cell.width_cols as int
    } else {
        1
    }
}

pub fn cell_advance_cols(cell: &CellSnapshot) -> (r: usize)
    ensures
        r == advance(*cell),
        1 <= r <= 255,
{
    if cell.spans_next_col && cell.width_cols > 1 {
        cell.width_cols as usize
    } else {
        1
    }
}

/// How many columns lie between two; none where the second is not behind the
/// first.
pub open spec fn distance(from: int, to: int) -> int {
    if from < to {
        to - from
    } else {
        0
    }
}

/// The text of the cells from a column to the one before `end`, without the
/// spacers behind wide characters.
pub open spec fn cells_text(cells: Seq<CellSnapshot>, col: int, end: int) -> Seq<char>
    decreases distance(col, end),
{
    if 0 <= col < end && col < cells.len() {
        cells[col].chars() + cells_text(cells, col + advance(cells[col]), end)
    } else {
        Seq::empty()
    }
}

/// Appends the text of the cells from `from` to the one before `end`.
pub fn push_cells_text(cells: &[CellSnapshot], from: usize, end: usize, out: &mut Vec<char>)
    requires
        end <= cells@.len(),
    ensures
        final(out)@ == old(out)@ + cells_text(cells@, from as int, end as int),
{
    let mut col: usize = from;
    assert(out@ + cells_text(cells@, from as int, end as int) =~= old(out)@ + cells_text(
        cells@,
        from as int,
        end as int,
    ));
    while col < end
        invariant
            end <= cells@.len(),
            out@ + cells_text(cells@, col as int, end as int) == old(out)@ + cells_text(
                cells@,
                from as int,
                end as int,
            ),
        decreases end - col,
    {
        let ghost before = out@;
        let cell: &CellSnapshot = &cells[col];
        cell.push_text_to(out);
        let step: usize = cell_advance_cols(cell);
        assert(before + (cell.chars() + cells_text(cells@, col + step, end as int)) =~= out@
            + cells_text(cells@, col + step, end as int));
        if step < end - col {
            col += step;
        } else {
            assert(cells_text(cells@, col + step, end as int) =~= Seq::<char>::empty());
            assert(cells_text(cells@, end as int, end as int) =~= Seq::<char>::empty());
            col = end;
        }
    }
    assert(out@ + cells_text(cells@, col as int, end as int) =~= out@);
}

pub fn row_text_without_wide_spacers(cells: &[CellSnapshot]) -> (text: String)
    ensures
        text@ == cells_text(cells@, 0, cells@.len() as int),
{
    let mut chars: Vec<char> = Vec::new();
    push_cells_text(cells, 0, cells.len(), &mut chars);
    assert(chars@ =~= cells_text(cells@, 0, cells@.len() as int));
    text_of(chars.as_slice())
}

/// How many columns a cell moves the cells behind it to the right.
pub open spec fn widening(cell: CellSnapshot) -> int {
    if cell.expands_layout && cell.width_cols > 1 {
        cell.width_cols - 1
    } else {
        0
    }
}

/// How many columns the cells from `col` to the one before `end` move what is
/// behind them to the right.
pub open spec fn extra_cols(row: Seq<CellSnapshot>, col: int, end: int) -> int
    decreases distance(col, end),
{
    if 0 <= col < end && col < row.len() {
        widening(row[col]) + extra_cols(row, col + advance(row[col]), end)
    } else {
        0
    }
}

proof fn lemma_extra_cols(row: Seq<CellSnapshot>, col: int, end: int)
    requires
        0 <= col,
    ensures
        0 <= extra_cols(row, col, end),
        col <= row.len() ==> extra_cols(row, col, end) <= 255 * (row.len() - col),
        col > row.len() ==> extra_cols(row, col, end) == 0,
    decreases distance(col, end),
{
    if col < end && col < row.len() {
        lemma_extra_cols(row, col + advance(row[col]), end);
    }
}

/// How many columns further to the right than its column in the grid a cell is
/// drawn.
pub fn visual_extra_cols_before(row: &[CellSnapshot], logical_col: usize) -> (extra: usize)
    requires
        255 * row@.len() <= usize::MAX,
    ensures
        extra == extra_cols(row@, 0, logical_col as int),
{
    let mut extra: usize = 0;
    let mut col: usize = 0;
    while col < row.len() && col < logical_col
        invariant
            255 * row@.len() <= usize::MAX,
            0 <= extra,
            extra + extra_cols(row@, col as int, logical_col as int) == extra_cols(
                row@,
                0,
                logical_col as int,
            ),
        decreases row@.len() - col,
    {
        let cell: &CellSnapshot = &row[col];
        let step: usize = cell_advance_cols(cell);
        proof {
            lemma_extra_cols(row@, 0, logical_col as int);
            lemma_extra_cols(row@, col + step, logical_col as int);
        }
        if cell.expands_layout && cell.width_cols > 1 {
            extra += (cell.width_cols - 1) as usize;
        }
        if step < row.len() - col {
            col += step;
        } else {
            assert(extra_cols(row@, col + step, logical_col as int) == 0);
            assert(extra_cols(row@, row@.len() as int, logical_col as int) == 0);
            col = row.len();
        }
    }
    extra
}

/// How many columns a cell is drawn wide.
pub open spec fn drawn_width(cell: CellSnapshot) -> int {
    if cell.width_cols > 1 {
        cell.width_cols as int
    } else {
        1
    }
}

/// The first cell, from `col` on, that is drawn beyond a place; the last one of
/// the row where none is. `extra` is how far to the right the cell at `col` is
/// moved, and `last` the cell before it.
pub open spec fn cell_at_visual_col(
    row: Seq<CellSnapshot>,
    visual_col: int,
    col: int,
    extra: int,
    last: int,
) -> int
    decreases distance(col, row.len() as int),
{
    if 0 <= col < row.len() {
        if visual_col < col + extra + drawn_width(row[col]) {
            col
        } else {
            cell_at_visual_col(
                row,
                visual_col,
                col + advance(row[col]),
                extra + widening(row[col]),
                col,
            )
        }
    } else {
        last
    }
}

/// The column of the grid that is drawn at a column of the screen.
pub fn logical_col_for_visual_col(row: &[CellSnapshot], visual_col: usize) -> (r: usize)
    ensures
        r == cell_at_visual_col(row@, visual_col as int, 0, 0, 0),
        r < row@.len() || (r == 0 && row@.len() == 0),
{
    let mut extra: u128 = 0;
    let mut last: usize = 0;
    let mut col: usize = 0;
    while col < row.len()
        invariant
            extra <= 255 * col,
            col <= row@.len(),
            last < row@.len() || (last == 0 && col == 0),
            cell_at_visual_col(
                row@,
                visual_col as int,
                col as int,
                extra as int,
                last as int,
            ) == cell_at_visual_col(row@, visual_col as int, 0, 0, 0),
        decreases row@.len() - col,
    {
        let cell: &CellSnapshot = &row[col];
        let width: u128 = if cell.width_cols > 1 {
            cell.width_cols as u128
        } else {
            1
        };
        if (visual_col as u128) < col as u128 + extra + width {
            return col;
        }
        last = col;
        if cell.expands_layout && cell.width_cols > 1 {
            extra += (cell.width_cols - 1) as u128;
        }
        let step: usize = cell_advance_cols(cell);
        if step < row.len() - col {
            col += step;
        } else {
            assert(cell_at_visual_col(
                row@,
                visual_col as int,
                col + step,
                extra as int,
                last as int,
            ) == last);
            col = row.len();
        }
    }
    last
}

// ---------------------------------------------------------------------------
// Selections
// ---------------------------------------------------------------------------

/// Whether one place comes before another in reading order, or is the same.
pub open spec fn reads_before(a: SelectionPoint, b: SelectionPoint) -> bool {
    a.row < b.row || (a.row == b.row && a.col <= b.col)
}

pub open spec fn ordered_bounds(start: SelectionPoint, end: SelectionPoint) -> (
    SelectionPoint,
    SelectionPoint,
) {
    if reads_before(start, end) {
        (start, end)
    } else {
        (end, start)
    }
}

pub fn normalize_selection_bounds(start: SelectionPoint, end: SelectionPoint) -> (r: (
    SelectionPoint,
    SelectionPoint,
))
    ensures
        r == ordered_bounds(start, end),
{
    if start.row < end.row || (start.row == end.row && start.col <= end.col) {
        (start, end)
    } else {
        (end, start)
    }
}

/// The column at which the wide character starts whose spacer a column may be.
pub open spec fn char_start(cells: Seq<CellSnapshot>, col: int) -> int
    decreases col,
{
    if 0 < col <= cells.len() && advance(cells[col - 1]) > 1 && col - 1 + advance(cells[col - 1])
        > col {
        char_start(cells, col - 1)
    } else {
        col
    }
}

/// A column brought into the row, and from a spacer to its character.
pub open spec fn snapped_col(cells: Seq<CellSnapshot>, col: int) -> int {
    if cells.len() == 0 {
        0
    } else if col < cells.len() {
        char_start(cells, col)
    } else {
        char_start(cells, cells.len() - 1)
    }
}

pub fn normalize_selection_col(cells: &[CellSnapshot], col: usize) -> (r: usize)
    ensures
        r == snapped_col(cells@, col as int),
        r < cells@.len() || (r == 0 && cells@.len() == 0),
{
    if cells.len() == 0 {
        return 0;
    }
    let first: usize = if col < cells.len() {
        col
    } else {
        cells.len() - 1
    };
    let mut normalized: usize = first;
    while normalized > 0 && cell_advance_cols(&cells[normalized - 1]) > 1
        invariant
            normalized < cells@.len(),
            char_start(cells@, normalized as int) == char_start(cells@, first as int),
        decreases normalized,
    {
        normalized -= 1;
    }
    normalized
}

/// Whether a cell lies between two places in reading order.
pub open spec fn in_selection(
    start: SelectionPoint,
    end: SelectionPoint,
    row: usize,
    col: usize,
) -> bool {
    reads_before(start, SelectionPoint { row, col }) && reads_before(
        SelectionPoint { row, col },
        end,
    )
}

pub fn selection_contains_cell(start: SelectionPoint, end: SelectionPoint, row: usize, col: usize)
    -> (r: bool)
    ensures
        r == in_selection(start, end, row, col),
{
    if row < start.row || row > end.row {
        return false;
    }
    if start.row == end.row {
        return row == start.row && col >= start.col && col <= end.col;
    }
    if row == start.row {
        return col >= start.col;
    }
    if row == end.row {
        return col <= end.col;
    }
    true
}

/// What a selection takes from one of its rows.
pub open spec fn selected_line(
    cells: Seq<CellSnapshot>,
    row: int,
    start: SelectionPoint,
    end: SelectionPoint,
) -> Seq<char> {
    if cells.len() == 0 {
        Seq::empty()
    } else {
        let first = if row == start.row {
            snapped_col(cells, start.col as int)
        } else {
            0
        };
        let last = if row == end.row {
            snapped_col(cells, end.col as int)
        } else {
            cells.len() - 1
        };
        trimmed_end(cells_text(cells, first, last + 1))
    }
}

/// How many rows of the screen a selection touches.
pub open spec fn selected_row_count(
    line_count: nat,
    start: SelectionPoint,
    end: SelectionPoint,
) -> nat {
    if start.row > end.row || start.row >= line_count {
        0
    } else if end.row < line_count {
        (end.row - start.row + 1) as nat
    } else {
        (line_count - start.row) as nat
    }
}

pub open spec fn row_views(lines: Seq<Vec<CellSnapshot>>) -> Seq<Seq<CellSnapshot>> {
    lines.map_values(|row: Vec<CellSnapshot>| row@)
}

/// The first `count` rows of a selection, joined by line feeds.
pub open spec fn joined_selection(
    lines: Seq<Seq<CellSnapshot>>,
    start: SelectionPoint,
    end: SelectionPoint,
    count: nat,
) -> Seq<char>
    decreases count,
{
    if count == 0 {
        Seq::empty()
    } else {
        let row = start.row + count - 1;
        let line = selected_line(lines[row], row, start, end);
        if count == 1 {
            line
        } else {
            joined_selection(lines, start, end, (count - 1) as nat) + seq!['\n'] + line
        }
    }
}

pub open spec fn selection_text(
    lines: Seq<Seq<CellSnapshot>>,
    start: SelectionPoint,
    end: SelectionPoint,
) -> Seq<char> {
    joined_selection(lines, start, end, selected_row_count(lines.len(), start, end))
}

/// The text of a selection: spacers left out, blanks at the end of each row
/// dropped, rows joined by line feeds.
pub fn extract_selection_text(
    lines: &[Vec<CellSnapshot>],
    start: SelectionPoint,
    end: SelectionPoint,
) -> (text: String)
    ensures
        text@ == selection_text(row_views(lines@), start, end),
{
    let ghost views = row_views(lines@);
    let mut out: Vec<char> = Vec::new();
    if start.row > end.row || start.row >= lines.len() {
        assert(out@ =~= selection_text(views, start, end));
        return text_of(out.as_slice());
    }
    let stop: usize = if end.row < lines.len() {
        end.row + 1
    } else {
        lines.len()
    };
    let mut row: usize = start.row;
    assert(out@ =~= joined_selection(views, start, end, 0));
    while row < stop
        invariant
            start.row <= row <= stop <= lines@.len(),
            views == row_views(lines@),
            out@ == joined_selection(views, start, end, (row - start.row) as nat),
        decreases stop - row,
    {
        let ghost before = out@;
        let ghost count = (row - start.row) as nat;
        if row > start.row {
            out.push('\n');
        }
        let ghost head = out@;
        let cells: &Vec<CellSnapshot> = &lines[row];
        assert(views[row as int] == cells@);
        let keep: usize = out.len();
        if cells.len() > 0 {
            let first: usize = if row == start.row {
                normalize_selection_col(cells.as_slice(), start.col)
            } else {
                0
            };
            let last: usize = if row == end.row {
                normalize_selection_col(cells.as_slice(), end.col)
            } else {
                cells.len() - 1
            };
            push_cells_text(cells.as_slice(), first, last + 1, &mut out);
            assert(out@.take(keep as int) =~= head);
            assert(out@.skip(keep as int) =~= cells_text(cells@, first as int, last + 1));
            trim_end_from(&mut out, keep);
        }
        let ghost line = selected_line(cells@, row as int, start, end);
        assert(out@ =~= head + line);
        proof {
            assert(joined_selection(views, start, end, count + 1) =~= if count == 0 {
                line
            } else {
                before + seq!['\n'] + line
            });
            if count == 0 {
                assert(head =~= Seq::<char>::empty());
                assert(head + line =~= line);
            } else {
                assert(head =~= before + seq!['\n']);
            }
        }
        row += 1;
    }
    text_of(out.as_slice())
}

// ---------------------------------------------------------------------------
// Laws
// ---------------------------------------------------------------------------

/// Law: the bounds of a selection do not depend on the direction in which it
/// was made, and normalizing them again changes nothing.
pub proof fn law_selection_bounds_are_normal(a: SelectionPoint, b: SelectionPoint)
    ensures
        ordered_bounds(a, b) == ordered_bounds(b, a),
        reads_before(ordered_bounds(a, b).0, ordered_bounds(a, b).1),
        ordered_bounds(ordered_bounds(a, b).0, ordered_bounds(a, b).1) == ordered_bounds(a, b),
{
}

/// Law: both ends of a selection belong to it.
pub proof fn law_selection_holds_its_ends(a: SelectionPoint, b: SelectionPoint)
    ensures
        in_selection(ordered_bounds(a, b).0, ordered_bounds(a, b).1, a.row, a.col),
        in_selection(ordered_bounds(a, b).0, ordered_bounds(a, b).1, b.row, b.col),
{
}

/// Whether a column of a row holds a cell of its own, and no spacer, when the
/// row is walked from `from` on.
pub open spec fn is_content_col(row: Seq<CellSnapshot>, from: int, col: int) -> bool
    decreases distance(from, row.len() as int),
{
    0 <= from < row.len() && (from == col || is_content_col(row, from + advance(row[from]), col))
}

/// A column that is found lies behind the one from which the row is walked.
pub proof fn lemma_content_col_is_behind(row: Seq<CellSnapshot>, from: int, col: int)
    requires
        is_content_col(row, from, col),
    ensures
        0 <= from <= col < row.len(),
        from != col ==> from + advance(row[from]) <= col,
    decreases distance(from, row.len() as int),
{
    if from != col {
        lemma_content_col_is_behind(row, from + advance(row[from]), col);
    }
}

proof fn lemma_visual_hit(
    row: Seq<CellSnapshot>,
    col: int,
    offset: int,
    from: int,
    extra: int,
    last: int,
)
    requires
        forall|k: int| 0 <= k < row.len() ==> (#[trigger] row[k]).wf(),
        is_content_col(row, from, col),
        0 <= offset < drawn_width(row[col]),
    ensures
        cell_at_visual_col(
            row,
            col + extra + extra_cols(row, from, col) + offset,
            from,
            extra,
            last,
        ) == col,
    decreases distance(from, row.len() as int),
{
    lemma_content_col_is_behind(row, from, col);
    assert(row[from].wf());
    if from != col {
        let next = from + advance(row[from]);
        lemma_extra_cols(row, next, col);
        lemma_visual_hit(row, col, offset, next, extra + widening(row[from]), from);
    } else {
        assert(extra_cols(row, from, col) == 0);
    }
}

/// Law: a click on any column at which a cell is drawn finds that cell.
pub proof fn law_visual_columns_map_back(row: Seq<CellSnapshot>, col: int, offset: int)
    requires
        forall|k: int| 0 <= k < row.len() ==> (#[trigger] row[k]).wf(),
        is_content_col(row, 0, col),
        0 <= offset < drawn_width(row[col]),
    ensures
        cell_at_visual_col(row, col + extra_cols(row, 0, col) + offset, 0, 0, 0) == col,
{
    lemma_visual_hit(row, col, offset, 0, 0, 0);
}

/// Law: bringing a column to the start of its character twice is bringing it
/// there once.
pub proof fn law_snapping_is_stable(cells: Seq<CellSnapshot>, col: int)
    requires
        0 <= col,
    ensures
        snapped_col(cells, snapped_col(cells, col)) == snapped_col(cells, col),
{
    if cells.len() > 0 {
        let first = if col < cells.len() {
            col
        } else {
            cells.len() - 1
        };
        lemma_char_start(cells, first);
    }
}

proof fn lemma_char_start(cells: Seq<CellSnapshot>, col: int)
    requires
        0 <= col < cells.len(),
    ensures
        0 <= char_start(cells, col) <= col,
        char_start(cells, char_start(cells, col)) == char_start(cells, col),
    decreases col,
{
    if col > 0 && advance(cells[col - 1]) > 1 {
        lemma_char_start(cells, col - 1);
    }
}

/// A column that was brought into a row is one of its columns.
pub proof fn lemma_snapped_col_bounds(cells: Seq<CellSnapshot>, col: int)
    requires
        0 <= col,
    ensures
        0 <= snapped_col(cells, col),
        snapped_col(cells, col) <= col,
{
    if cells.len() > 0 {
        lemma_char_start(
            cells,
            if col < cells.len() {
                col
            } else {
                cells.len() - 1
            },
        );
    }
}

/// Whether wide characters cover two columns and have their spacer behind them.
pub open spec fn has_paired_spacers(cells: Seq<CellSnapshot>) -> bool {
    forall|c: int|
        0 <= c < cells.len() ==> advance(#[trigger] cells[c]) <= 2 && (advance(cells[c]) == 2 && c
            + 1 < cells.len() ==> advance(cells[c + 1]) == 1)
}

proof fn lemma_last_char_ends_the_row(cells: Seq<CellSnapshot>, from: int)
    requires
        has_paired_spacers(cells),
        0 <= from < cells.len(),
        from == 0 || advance(cells[from - 1]) == 1,
    ensures
        from <= char_start(cells, cells.len() - 1),
        cells_text(cells, from, char_start(cells, cells.len() - 1) + 1) == cells_text(
            cells,
            from,
            cells.len() as int,
        ),
    decreases cells.len() - from,
{
    let n = cells.len() as int;
    let next = from + advance(cells[from]);
    assert(advance(cells[from]) <= 2);
    if next < n {
        if advance(cells[from]) == 2 {
            assert(advance(cells[from + 1]) == 1);
        }
        lemma_last_char_ends_the_row(cells, next);
    } else {
        assert(char_start(cells, from) == from);
        assert(char_start(cells, n - 1) == from);
        assert(cells_text(cells, next, from + 1) =~= Seq::<char>::empty());
        assert(cells_text(cells, next, n) =~= Seq::<char>::empty());
    }
}

/// Law: a selection from the first column of a row to its last takes all of its
/// text, also where the row ends with a wide character.
pub proof fn law_the_last_column_ends_the_text(cells: Seq<CellSnapshot>)
    requires
        has_paired_spacers(cells),
        cells.len() > 0,
    ensures
        cells_text(cells, 0, snapped_col(cells, cells.len() - 1) + 1) == cells_text(
            cells,
            0,
            cells.len() as int,
        ),
{
    lemma_last_char_ends_the_row(cells, 0);
}

/// Whether every cell of a row is one column wide and shows one character.
pub open spec fn is_narrow(cells: Seq<CellSnapshot>) -> bool {
    forall|c: int|
        0 <= c < cells.len() ==> !(#[trigger] cells[c]).spans_next_col
            && cells[c].zerowidth@.len() == 0
}

/// The text of narrow cells is one character for each.
pub proof fn lemma_narrow_text(cells: Seq<CellSnapshot>, from: int, end: int)
    requires
        is_narrow(cells),
        0 <= from <= end <= cells.len(),
    ensures
        cells_text(cells, from, end) == Seq::new((end - from) as nat, |i: int| cells[from + i].ch),
    decreases end - from,
{
    let all = Seq::new((end - from) as nat, |i: int| cells[from + i].ch);
    if from < end {
        lemma_narrow_text(cells, from + 1, end);
        assert(!cells[from].spans_next_col);
        assert(cells[from].chars() =~= seq![cells[from].ch]);
        assert(cells_text(cells, from, end) =~= all);
    } else {
        assert(cells_text(cells, from, end) =~= all);
    }
}

proof fn lemma_narrow_start(cells: Seq<CellSnapshot>, col: int)
    requires
        is_narrow(cells),
        0 <= col < cells.len(),
    ensures
        snapped_col(cells, col) == col,
{
    if col > 0 {
        assert(!cells[col - 1].spans_next_col);
    }
}

/// Law: a selection within a row takes the characters of its cells, from the
/// first to the last, and no others; only blanks at its end are left out. So it
/// takes one character for each column where the last one is no blank.
pub proof fn law_a_selection_takes_its_cells(
    lines: Seq<Seq<CellSnapshot>>,
    row: usize,
    first: usize,
    last: usize,
)
    requires
        row < lines.len(),
        first <= last < lines[row as int].len(),
        is_narrow(lines[row as int]),
    ensures
        ({
            let cells = lines[row as int];
            let text = selection_text(
                lines,
                SelectionPoint { row, col: first },
                SelectionPoint { row, col: last },
            );
            &&& text.len() <= last - first + 1
            &&& forall|i: int| 0 <= i < text.len() ==> #[trigger] text[i] == cells[first + i].ch
            &&& forall|c: int|
                first + text.len() <= c <= last ==> whitespace_char((#[trigger] cells[c]).ch)
            &&& text.len() > 0 ==> !whitespace_char(text.last())
            &&& !whitespace_char(cells[last as int].ch) ==> text.len() == last - first + 1
        }),
{
    let cells = lines[row as int];
    let start = SelectionPoint { row, col: first };
    let end = SelectionPoint { row, col: last };
    lemma_narrow_start(cells, first as int);
    lemma_narrow_start(cells, last as int);
    lemma_narrow_text(cells, first as int, last + 1);
    let all = Seq::new((last - first + 1) as nat, |i: int| cells[first + i].ch);
    crate::chars::law_trimming_the_end(all);
    let text = trimmed_end(all);
    assert(selected_row_count(lines.len(), start, end) == 1);
    assert(joined_selection(lines, start, end, 1) == selected_line(cells, row as int, start, end));
    assert(selection_text(lines, start, end) == text);
    assert forall|c: int| first + text.len() <= c <= last implies whitespace_char(
        (#[trigger] cells[c]).ch,
    ) by {
        assert(all[c - first] == cells[c].ch);
    }
    assert forall|i: int| 0 <= i < text.len() implies #[trigger] text[i] == cells[first + i].ch by {
        assert(text[i] == all[i]);
    }
    if !whitespace_char(cells[last as int].ch) && text.len() < last - first + 1 {
        assert(all[last - first] == cells[last as int].ch);
    }
}

proof fn lemma_joined_from(
    lines: Seq<Seq<CellSnapshot>>,
    start: SelectionPoint,
    end: SelectionPoint,
    cut: SelectionPoint,
    next: SelectionPoint,
    count: nat,
)
    requires
        start.row <= cut.row < end.row < lines.len(),
        next == (SelectionPoint { row: (cut.row + 1) as usize, col: 0 }),
        cut.col >= lines[cut.row as int].len(),
        1 <= count <= end.row - cut.row,
        forall|c: int|
            0 <= c < lines.len() ==> has_paired_spacers(#[trigger] lines[c]),
    ensures
        joined_selection(lines, start, end, (cut.row - start.row + 1 + count) as nat)
            == joined_selection(lines, start, cut, (cut.row - start.row + 1) as nat) + seq!['\n']
            + joined_selection(lines, next, end, count),
    decreases count,
{
    let base = (cut.row - start.row + 1) as nat;
    let row = cut.row + count;
    let line = selected_line(lines[row], row, start, end);
    assert(line == selected_line(lines[row], row, next, end)) by {
        if lines[row].len() > 0 && row == next.row {
            assert(char_start(lines[row], 0) == 0);
        }
    }
    if count == 1 {
        lemma_joined_front(lines, start, end, cut, base);
        assert(joined_selection(lines, next, end, 1) == line);
        assert(joined_selection(lines, start, end, (base + 1) as nat) == joined_selection(
            lines,
            start,
            end,
            base,
        ) + seq!['\n'] + line);
    } else {
        lemma_joined_from(lines, start, end, cut, next, (count - 1) as nat);
        let head = joined_selection(lines, start, cut, base);
        let tail = joined_selection(lines, next, end, (count - 1) as nat);
        assert(joined_selection(lines, start, end, (base + count) as nat) == joined_selection(
            lines,
            start,
            end,
            (base + count - 1) as nat,
        ) + seq!['\n'] + line);
        assert((head + seq!['\n'] + tail) + seq!['\n'] + line =~= head + seq!['\n'] + (tail + seq![
            '\n',
        ] + line));
    }
}

/// The rows before a cut are those of the selection that ends there.
proof fn lemma_joined_front(
    lines: Seq<Seq<CellSnapshot>>,
    start: SelectionPoint,
    end: SelectionPoint,
    cut: SelectionPoint,
    count: nat,
)
    requires
        start.row <= cut.row < end.row < lines.len(),
        cut.col >= lines[cut.row as int].len(),
        1 <= count <= cut.row - start.row + 1,
        forall|c: int|
            0 <= c < lines.len() ==> has_paired_spacers(#[trigger] lines[c]),
    ensures
        joined_selection(lines, start, end, count) == joined_selection(lines, start, cut, count),
    decreases count,
{
    let row = start.row + count - 1;
    let cells = lines[row];
    if cells.len() > 0 && row == cut.row {
        lemma_text_to_the_end(cells, start.col as int);
        law_the_last_column_ends_the_text(cells);
    }
    if count > 1 {
        lemma_joined_front(lines, start, end, cut, (count - 1) as nat);
    }
}

/// From any column that starts a character, the last character ends the text.
proof fn lemma_text_to_the_end(cells: Seq<CellSnapshot>, col: int)
    requires
        has_paired_spacers(cells),
        cells.len() > 0,
        0 <= col,
    ensures
        cells_text(cells, snapped_col(cells, col), snapped_col(cells, cells.len() - 1) + 1)
            == cells_text(cells, snapped_col(cells, col), cells.len() as int),
{
    let at = if col < cells.len() {
        col
    } else {
        cells.len() - 1
    };
    lemma_char_start(cells, at);
    lemma_start_is_free(cells, at);
    lemma_last_char_ends_the_row(cells, char_start(cells, at));
}

proof fn lemma_start_is_free(cells: Seq<CellSnapshot>, col: int)
    requires
        0 <= col < cells.len(),
    ensures
        char_start(cells, col) == 0 || advance(cells[char_start(cells, col) - 1]) == 1,
    decreases col,
{
    if col > 0 && advance(cells[col - 1]) > 1 {
        lemma_start_is_free(cells, col - 1);
    }
}

/// Law: a selection over several rows can be taken apart between any two of them:
/// it is the part up to the end of a row, a line feed, and the part from the start
/// of the next row.
pub proof fn law_a_selection_is_taken_row_by_row(
    lines: Seq<Seq<CellSnapshot>>,
    start: SelectionPoint,
    end: SelectionPoint,
    row: usize,
    beyond: usize,
)
    requires
        start.row <= row < end.row < lines.len(),
        beyond >= lines[row as int].len(),
        forall|c: int|
            0 <= c < lines.len() ==> has_paired_spacers(#[trigger] lines[c]),
    ensures
        selection_text(lines, start, end) == selection_text(
            lines,
            start,
            SelectionPoint { row, col: beyond },
        ) + seq!['\n'] + selection_text(
            lines,
            SelectionPoint { row: (row + 1) as usize, col: 0 },
            end,
        ),
{
    let cut = SelectionPoint { row, col: beyond };
    let next = SelectionPoint { row: (row + 1) as usize, col: 0 };
    lemma_joined_from(lines, start, end, cut, next, (end.row - row) as nat);
}

/// What a column of a row adds to its text: nothing where it is the second column
/// of a wide character.
pub open spec fn column_text(cells: Seq<CellSnapshot>, c: int) -> Seq<char> {
    if c > 0 && cells[c - 1].spans_next_col {
        Seq::empty()
    } else {
        seq![cells[c].ch] + cells[c].zerowidth@
    }
}

/// What some columns add, one after the other.
pub open spec fn columns_text(cells: Seq<CellSnapshot>, from: int, end: int) -> Seq<char>
    decreases end - from,
{
    if from >= end {
        Seq::empty()
    } else {
        column_text(cells, from) + columns_text(cells, from + 1, end)
    }
}

/// Law: the text of a row, and of any part of it that starts with a character, is
/// what its columns add one after the other: each character once, with all that
/// is drawn on top of it, and nothing for the second column of a wide one.
pub proof fn law_a_row_reads_column_by_column(cells: Seq<CellSnapshot>, from: int, end: int)
    requires
        0 <= from <= end <= cells.len(),
        from == 0 || !cells[from - 1].spans_next_col,
        forall|c: int| 0 <= c < cells.len() ==> (#[trigger] cells[c]).wf(),
        forall|c: int|
            0 <= c < cells.len() - 1 && cells[c].spans_next_col ==> !(#[trigger] cells[c
                + 1]).spans_next_col,
    ensures
        cells_text(cells, from, end) == columns_text(cells, from, end),
    decreases end - from,
{
    if from < end {
        assert(cells[from].wf());
        if cells[from].spans_next_col {
            if from + 1 < end {
                assert(!cells[from + 1].spans_next_col);
                law_a_row_reads_column_by_column(cells, from + 2, end);
                assert(columns_text(cells, from + 1, end) =~= columns_text(cells, from + 2, end));
            } else {
                assert(cells_text(cells, from + 2, end) =~= Seq::<char>::empty());
                assert(columns_text(cells, from + 1, end) =~= Seq::<char>::empty());
            }
        } else {
            law_a_row_reads_column_by_column(cells, from + 1, end);
        }
        let step = advance(cells[from]);
        assert(cells_text(cells, from, end) == cells[from].chars() + cells_text(
            cells,
            from + step,
            end,
        ));
        assert(cells_text(cells, from + step, end) == columns_text(cells, from + 1, end));
        assert(column_text(cells, from) == cells[from].chars());
    }
}

/// Law: a cell is part of a selection where it comes between its ends in reading
/// order. On a screen of some width, that is where its place in the order of all
/// cells lies between theirs.
pub proof fn law_selections_follow_reading_order(
    start: SelectionPoint,
    end: SelectionPoint,
    row: usize,
    col: usize,
    width: int,
)
    requires
        start.col < width,
        end.col < width,
        col < width,
    ensures
        in_selection(start, end, row, col) <==> start.row * width + start.col <= row * width + col
            <= end.row * width + end.col,
        ordered_bounds(start, end) == if start.row * width + start.col <= end.row * width
            + end.col {
            (start, end)
        } else {
            (end, start)
        },
{
    lemma_reading_order(start, SelectionPoint { row, col }, width);
    lemma_reading_order(SelectionPoint { row, col }, end, width);
    lemma_reading_order(start, end, width);
}

proof fn lemma_reading_order(a: SelectionPoint, b: SelectionPoint, width: int)
    requires
        a.col < width,
        b.col < width,
    ensures
        reads_before(a, b) <==> a.row * width + a.col <= b.row * width + b.col,
{
    let (ar, br) = (a.row as int, b.row as int);
    if ar < br {
        assert(ar * width + width <= br * width) by (nonlinear_arith)
            requires
                ar + 1 <= br,
                0 <= width,
        ;
    } else if br < ar {
        assert(br * width + width <= ar * width) by (nonlinear_arith)
            requires
                br + 1 <= ar,
                0 <= width,
        ;
    }
}

/// Law: what a cell of the grid shows is its character with all that is drawn on
/// top of it, or a blank where it is hidden; its link; and each of its styles by
/// itself. Any kind of line below the text is an underline.
pub proof fn law_cells_show_what_they_hold(
    snapshot: CellSnapshot,
    cell: Cell,
    colors: Colors,
    forced: Seq<char>,
)
    requires
        shows(snapshot, cell, colors, forced),
    ensures
        !cell.flags.hidden ==> snapshot.ch == cell.c && snapshot.zerowidth@ == cell.zerowidth@,
        cell.flags.hidden ==> snapshot.ch == ' ' && snapshot.zerowidth@.len() == 0,
        snapshot.bold == cell.flags.bold,
        snapshot.italic == cell.flags.italic,
        snapshot.strikethrough == cell.flags.strikeout,
        snapshot.undercurl == cell.flags.undercurl,
        snapshot.underline <==> cell.flags.underline || cell.flags.double_underline
            || cell.flags.undercurl || cell.flags.dotted_underline || cell.flags.dashed_underline,
        cell.link is Some <==> snapshot.link is Some,
        cell.link matches Some(link) ==> snapshot.link is Some && snapshot.link->0@ == link@,
        cell.flags.wide_char ==> snapshot.width_cols == 2 && snapshot.spans_next_col,
        !cell.flags.wide_char && !forced.contains(snapshot.ch) ==> snapshot.width_cols == 1,
        !cell.flags.wide_char && forced.contains(snapshot.ch) ==> snapshot.width_cols == 2
            && snapshot.expands_layout && !snapshot.spans_next_col,
{
}

/// Law: an inverse cell has the two colours of the cell exchanged.
pub proof fn law_inverse_cells_exchange_their_colors(cell: Cell, colors: Colors)
    ensures
        ({
            let text = resolved_rgb(cell.fg, colors, cell.flags, true);
            let ((fg, bg), inverse) = (cell_colors(cell, colors), cell.flags.inverse);
            &&& inverse ==> bg == Some(text) && fg == resolved_rgb(
                cell.bg,
                colors,
                Flags::none(),
                false,
            )
            &&& !inverse ==> fg == text && bg == resolved_bg(cell.bg, colors)
        }),
{
}

/// Law: a wide character takes two columns of the grid and moves nothing; a
/// character that is only drawn wide takes one, and moves what is behind it by
/// one; any other takes one and moves nothing.
pub proof fn law_columns_of_a_cell(cell: CellSnapshot)
    requires
        cell.wf(),
    ensures
        cell.spans_next_col ==> advance(cell) == 2 && widening(cell) == 0 && drawn_width(cell) == 2,
        cell.expands_layout ==> advance(cell) == 1 && widening(cell) == 1 && drawn_width(cell) == 2,
        !cell.spans_next_col && !cell.expands_layout ==> advance(cell) == 1 && widening(cell) == 0
            && drawn_width(cell) == 1,
{
}

/// Law: a column of the second half of a wide character belongs to this
/// character; every other column to its own; and columns behind the row to its
/// last character.
pub proof fn law_columns_belong_to_characters(cells: Seq<CellSnapshot>, col: int)
    requires
        0 <= col,
        cells.len() > 0,
        has_paired_spacers(cells),
        forall|c: int| 0 <= c < cells.len() ==> (#[trigger] cells[c]).wf(),
    ensures
        0 < col < cells.len() && cells[col - 1].spans_next_col ==> snapped_col(cells, col) == col
            - 1,
        0 < col < cells.len() && !cells[col - 1].spans_next_col ==> snapped_col(cells, col) == col,
        snapped_col(cells, 0) == 0,
        col >= cells.len() ==> snapped_col(cells, col) == snapped_col(cells, cells.len() - 1),
{
    if 0 < col < cells.len() {
        assert(cells[col - 1].wf());
        if cells[col - 1].spans_next_col {
            if col > 1 {
                let before = cells[col - 2];
                assert(before.wf());
                assert(advance(before) == 2 ==> advance(cells[(col - 2) + 1]) == 1);
            }
            assert(char_start(cells, col - 1) == col - 1);
        }
    }
}

/// How far the cells behind one are moved.
pub proof fn lemma_one_more_column(row: Seq<CellSnapshot>, from: int, col: int)
    requires
        0 <= from <= col < row.len(),
        is_content_col(row, from, col),
    ensures
        extra_cols(row, from, col + advance(row[col])) == extra_cols(row, from, col) + widening(
            row[col],
        ),
    decreases col - from,
{
    if from == col {
        assert(extra_cols(row, from, col) == 0);
        let next = col + advance(row[col]);
        assert(extra_cols(row, next, next) == 0);
    } else {
        lemma_content_col_is_behind(row, from, col);
        lemma_one_more_column(row, from + advance(row[from]), col);
    }
}

/// Law: each character that is only drawn wide moves all that is behind it by one
/// column, wide characters and others by none; the first one is not moved.
pub proof fn law_wide_drawing_moves_what_is_behind(row: Seq<CellSnapshot>, col: int)
    requires
        0 <= col < row.len(),
        is_content_col(row, 0, col),
        row[col].wf(),
    ensures
        extra_cols(row, 0, 0) == 0,
        row[col].expands_layout ==> extra_cols(row, 0, col + 1) == extra_cols(row, 0, col) + 1,
        row[col].spans_next_col ==> extra_cols(row, 0, col + 2) == extra_cols(row, 0, col),
        !row[col].expands_layout && !row[col].spans_next_col ==> extra_cols(row, 0, col + 1)
            == extra_cols(row, 0, col),
{
    lemma_one_more_column(row, 0, col);
}

/// Law: a blank cell is a space of one column in the colour of plain text, with
/// nothing behind it, under it or through it.
pub proof fn law_blank_cells(cell: CellSnapshot, fg: (u8, u8, u8))
    requires
        is_blank_cell(cell, fg),
    ensures
        cell.chars() == seq![' '],
        cell.fg == fg,
        cell.bg is None,
        cell.link is None,
        !cell.bold,
        !cell.italic,
        !cell.underline,
        !cell.undercurl,
        !cell.strikethrough,
        cell.width_cols == 1,
        !cell.spans_next_col,
        !cell.expands_layout,
{
    assert(cell.chars() =~= seq![' ']);
}

} // verus!
