//! The terminal between its pseudo-terminal and its window: the picture of the
//! screen, the events of the emulator, the stream from the shell, and what is
//! measured on the way.
use vstd::prelude::*;
use vstd::utf8::encode_utf8;

use crate::chars::{
    bytes_view, chars_of, is_whitespace, push_decimal_chars, push_text, same_bytes, text_of,
    text_view, text_views, trim_text, trimmed, whitespace_char,
};
use crate::color::{
    ansi_to_rgb, indexed_to_rgb, resolved_rgb, AnsiColor, Colors, Flags, NamedColor,
};
use crate::debug_server::{is_yes, should_log_debug_http_start};
use crate::grid_cells::{
    blank_cell, cell_colors, cells_text, is_blank_cell, law_cells_show_what_they_hold,
    push_cells_text, row_views, shows, snapshot_cell, Cell, CellSnapshot, ScreenSnapshot,
};
use crate::keyboard::{
    encode_keystroke, legacy_key, name_of, KeyName, Keystroke, Modifiers, TermMode,
};
use crate::links::{annotate_plain_text_links_for_row, is_annotated};
use crate::sixel::decoder::{
    decode_sixel_payload, decode_tmux_passthrough_sixel, drawing_of, is_image_of,
    tmux_sixel_payload, SixelImage,
};
use crate::sixel::parser::SixelStreamAction;

verus! {

pub const DEFAULT_COLS: u16 = 80;

pub const DEFAULT_ROWS: u16 = 24;

pub const MIN_COLS: u16 = 2;

pub const MIN_ROWS: u16 = 1;

/// The sizes of the font, in pixels.
pub const DEFAULT_FONT_SIZE: u32 = 14;

pub const MIN_FONT_SIZE: u32 = 8;

pub const MAX_FONT_SIZE: u32 = 48;

/// The most that is taken from the shell before the window is painted again.
pub const MAX_PTY_BATCH_CHUNKS: usize = 256;

pub const MAX_PTY_BATCH_BYTES: usize = 256 * 1024;

// ---------------------------------------------------------------------------
// The size of the grid
// ---------------------------------------------------------------------------

/// The size of the grid of cells.
#[derive(Clone, Copy, Debug, PartialEq, Eq, Structural)]
pub struct GridSize {
    pub cols: u16,
    pub rows: u16,
}

/// The size of the grid in pixels, as programs are told it.
#[derive(Clone, Copy, Debug, PartialEq, Eq, Structural)]
pub struct PtyPixelSize {
    pub width: u16,
    pub height: u16,
}

impl Default for GridSize {
    fn default() -> (size: GridSize)
        ensures
            size.cols == DEFAULT_COLS,
            size.rows == DEFAULT_ROWS,
    {
        GridSize { cols: DEFAULT_COLS, rows: DEFAULT_ROWS }
    }
}

/// The grid of as many columns and rows as fit, which has at least two columns
/// and one row.
pub fn compute_grid_size(fitting_cols: u16, fitting_rows: u16) -> (size: GridSize)
    ensures
        size.cols == if fitting_cols < MIN_COLS {
            MIN_COLS
        } else {
            fitting_cols
        },
        size.rows == if fitting_rows < MIN_ROWS {
            MIN_ROWS
        } else {
            fitting_rows
        },
{
    GridSize {
        cols: if fitting_cols < MIN_COLS {
            MIN_COLS
        } else {
            fitting_cols
        },
        rows: if fitting_rows < MIN_ROWS {
            MIN_ROWS
        } else {
            fitting_rows
        },
    }
}

/// What a new size changes.
#[derive(Clone, Copy, Debug, PartialEq, Eq, Structural)]
pub enum Resize {
    Nothing,
    /// Only the size of a cell in pixels.
    Pixels,
    /// The grid, which the emulator has to follow.
    Grid,
}

pub fn plan_resize(
    old_grid: GridSize,
    old_pixels: PtyPixelSize,
    new_grid: GridSize,
    new_pixels: PtyPixelSize,
) -> (resize: Resize)
    ensures
        resize == if new_grid != old_grid {
            Resize::Grid
        } else if new_pixels != old_pixels {
            Resize::Pixels
        } else {
            Resize::Nothing
        },
{
    if new_grid != old_grid {
        Resize::Grid
    } else if new_pixels != old_pixels {
        Resize::Pixels
    } else {
        Resize::Nothing
    }
}

/// The size of the font after a step up or down, within its limits.
pub fn adjust_font_size(size: u32, delta: i32) -> (r: u32)
    ensures
        r == if size + delta < MIN_FONT_SIZE {
            MIN_FONT_SIZE as int
        } else if size + delta > MAX_FONT_SIZE {
            MAX_FONT_SIZE as int
        } else {
            size + delta
        },
{
    let next: i64 = size as i64 + delta as i64;
    if next < MIN_FONT_SIZE as i64 {
        MIN_FONT_SIZE
    } else if next > MAX_FONT_SIZE as i64 {
        MAX_FONT_SIZE
    } else {
        next as u32
    }
}

// ---------------------------------------------------------------------------
// The picture of the screen
// ---------------------------------------------------------------------------

#[derive(Clone, Copy, Debug, PartialEq, Eq, Structural)]
pub enum CursorShape {
    Block,
    Underline,
    Beam,
    HollowBlock,
    Hidden,
}

/// A cell of the emulator with its place.
pub struct IndexedCell {
    pub line: i32,
    pub column: usize,
    pub cell: Cell,
}

/// What the emulator shows.
pub struct TermContent {
    pub cells: Vec<IndexedCell>,
    pub colors: Colors,
    pub cursor_line: i32,
    pub cursor_column: usize,
    pub cursor_shape: CursorShape,
    pub display_offset: usize,
    pub alt_screen: bool,
}

/// The colour of text that has none.
pub open spec fn foreground(colors: Colors) -> (u8, u8, u8) {
    resolved_rgb(AnsiColor::Named(NamedColor::Foreground), colors, Flags::none(), true)
}

/// The last of the first `count` cells at a place that shows anything: a spacer
/// does not. Lines are shown `offset` rows further down: so many lines of the
/// history stand above them.
pub open spec fn shown_cell(
    items: Seq<IndexedCell>,
    offset: int,
    row: int,
    col: int,
    count: nat,
) -> Option<int>
    decreases count,
{
    if count == 0 {
        None
    } else {
        let item = items[count - 1];
        if item.line + offset == row && item.column == col && !item.cell.flags.wide_char_spacer {
            Some(count - 1)
        } else {
            shown_cell(items, offset, row, col, (count - 1) as nat)
        }
    }
}

/// Whether a cell is what the first `count` cells of the emulator make of a
/// place: empty where none shows anything.
pub open spec fn is_place(
    cell: CellSnapshot,
    items: Seq<IndexedCell>,
    colors: Colors,
    forced: Seq<char>,
    offset: int,
    row: int,
    col: int,
    count: nat,
) -> bool {
    match shown_cell(items, offset, row, col, count) {
        Some(i) => shows(cell, items[i].cell, colors, forced),
        None => is_blank_cell(cell, foreground(colors)),
    }
}

/// Whether cells are the picture of a grid before links are put on them.
pub open spec fn is_picture(
    cells: Seq<Seq<CellSnapshot>>,
    items: Seq<IndexedCell>,
    colors: Colors,
    forced: Seq<char>,
    offset: int,
    rows: int,
    cols: int,
    count: nat,
) -> bool {
    &&& cells.len() == rows
    &&& forall|r: int| 0 <= r < rows ==> (#[trigger] cells[r]).len() == cols
    &&& forall|r: int, c: int|
        0 <= r < rows && 0 <= c < cols ==> is_place(
            #[trigger] cells[r][c],
            items,
            colors,
            forced,
            offset,
            r,
            c,
            count,
        )
}

fn blank_row(cols: usize, fg: (u8, u8, u8)) -> (row: Vec<CellSnapshot>)
    ensures
        row@.len() == cols,
        forall|c: int| 0 <= c < cols ==> is_blank_cell(#[trigger] row@[c], fg),
{
    let mut row: Vec<CellSnapshot> = Vec::new();
    let mut c: usize = 0;
    while c < cols
        invariant
            c <= cols,
            row@.len() == c,
            forall|k: int| 0 <= k < c ==> is_blank_cell(#[trigger] row@[k], fg),
        decreases cols - c,
    {
        row.push(blank_cell(fg));
        c += 1;
    }
    row
}

/// The picture of a grid, from the cells of the emulator that lie in it.
pub fn picture_of(
    items: &[IndexedCell],
    colors: &Colors,
    forced: &[char],
    display_offset: usize,
    rows: usize,
    cols: usize,
) -> (cells: Vec<Vec<CellSnapshot>>)
    ensures
        is_picture(
            row_views(cells@),
            items@,
            *colors,
            forced@,
            display_offset as int,
            rows as int,
            cols as int,
            items@.len(),
        ),
{
    let fg = ansi_to_rgb(
        AnsiColor::Named(NamedColor::Foreground),
        colors,
        Flags::empty(),
        true,
    );
    let mut cells: Vec<Vec<CellSnapshot>> = Vec::new();
    let mut r: usize = 0;
    while r < rows
        invariant
            r <= rows,
            fg == foreground(*colors),
            cells@.len() == r,
            forall|k: int| 0 <= k < r ==> (#[trigger] cells@[k])@.len() == cols,
            forall|k: int, c: int|
                0 <= k < r && 0 <= c < cols ==> is_blank_cell(#[trigger] cells@[k]@[c], fg),
        decreases rows - r,
    {
        cells.push(blank_row(cols, fg));
        r += 1;
    }
    assert(is_picture(
        row_views(cells@),
        items@,
        *colors,
        forced@,
        display_offset as int,
        rows as int,
        cols as int,
        0,
    )) by {
        let views = row_views(cells@);
        assert forall|r: int, c: int| 0 <= r < rows && 0 <= c < cols implies is_place(
            #[trigger] views[r][c],
            items@,
            *colors,
            forced@,
            display_offset as int,
            r,
            c,
            0,
        ) by {
            assert(views[r][c] == cells@[r]@[c]);
        }
    }
    let mut i: usize = 0;
    while i < items.len()
        invariant
            i <= items@.len(),
            is_picture(
                row_views(cells@),
                items@,
                *colors,
                forced@,
                display_offset as int,
                rows as int,
                cols as int,
                i as nat,
            ),
        decreases items@.len() - i,
    {
        let item: &IndexedCell = &items[i];
        let ghost views = row_views(cells@);
        assert(cells@.len() == rows);
        let mut placed = false;
        let shown_row: i128 = item.line as i128 + display_offset as i128;
        if shown_row >= 0 && item.column < cols && shown_row < rows as i128 {
            let row: usize = shown_row as usize;
            assert(views[row as int] == cells@[row as int]@);
            assert(views[row as int].len() == cols);
            if let Some(snapshot) = snapshot_cell(&item.cell, colors, forced) {
                let target: &mut Vec<CellSnapshot> = &mut cells[row];
                target.set(item.column, snapshot);
                placed = true;
                assert(row_views(cells@) =~= views.update(
                    row as int,
                    views[row as int].update(item.column as int, snapshot),
                ));
            }
        }
        proof {
            let after = row_views(cells@);
            if !placed {
                assert(after == views);
            }
            assert forall|r: int| 0 <= r < rows implies (#[trigger] after[r]).len() == cols by {
                assert(views[r].len() == cols);
            }
            assert forall|r: int, c: int| 0 <= r < rows && 0 <= c < cols implies is_place(
                #[trigger] after[r][c],
                items@,
                *colors,
                forced@,
                display_offset as int,
                r,
                c,
                (i + 1) as nat,
            ) by {
                assert(is_place(views[r][c], items@, *colors, forced@, display_offset as int, r, c, i as nat));
                assert(views[r].len() == cols);
            }
        }
        i += 1;
    }
    cells
}

/// Whether rows are others with the links of their texts put on their cells.
pub open spec fn all_annotated(
    cells: Seq<Seq<CellSnapshot>>,
    before: Seq<Seq<CellSnapshot>>,
) -> bool {
    &&& cells.len() == before.len()
    &&& forall|r: int| 0 <= r < cells.len() ==> is_annotated(#[trigger] cells[r], before[r])
}

/// Puts the links of each row's text on its cells.
pub fn annotate_plain_text_links(cells: &mut Vec<Vec<CellSnapshot>>)
    ensures
        all_annotated(row_views(final(cells)@), row_views(old(cells)@)),
{
    let ghost before = row_views(cells@);
    let mut r: usize = 0;
    while r < cells.len()
        invariant
            r <= cells@.len(),
            cells@.len() == before.len(),
            forall|k: int|
                r <= k < cells@.len() ==> (#[trigger] cells@[k])@ == before[k],
            forall|k: int| 0 <= k < r ==> is_annotated((#[trigger] cells@[k])@, before[k]),
        decreases cells@.len() - r,
    {
        let ghost held = cells@;
        let row: &mut Vec<CellSnapshot> = &mut cells[r];
        annotate_plain_text_links_for_row(row);
        assert forall|k: int| r + 1 <= k < cells@.len() implies (#[trigger] cells@[k])@ == before[k]
            by {
            assert(cells@[k] == held[k]);
        }
        assert forall|k: int| 0 <= k < r + 1 implies is_annotated((#[trigger] cells@[k])@, before[k])
            by {
            if k < r {
                assert(cells@[k] == held[k]);
            } else {
                assert(held[r as int]@ == before[r as int]);
            }
        }
        r += 1;
    }
    assert forall|k: int| 0 <= k < cells@.len() implies is_annotated(
        #[trigger] row_views(cells@)[k],
        before[k],
    ) by {
        assert(row_views(cells@)[k] == cells@[k]@);
    }
}

pub open spec fn at_most(value: int, limit: int) -> int {
    if value > limit {
        limit
    } else {
        value
    }
}

/// Where the cursor is on the screen.
pub open spec fn cursor_place(
    line: int,
    display_offset: int,
    column: int,
    grid: GridSize,
) -> (int, int) {
    let row = if line + display_offset < 0 {
        0
    } else {
        line + display_offset
    };
    (
        at_most(row, if grid.rows > 0 {
            grid.rows - 1
        } else {
            0
        }),
        at_most(column, if grid.cols > 0 {
            grid.cols - 1
        } else {
            0
        }),
    )
}

/// Where the cursor is on the screen: its row follows the part of the history
/// that is shown, and both stay within the grid.
pub fn current_cursor_anchor(line: i32, display_offset: usize, column: usize, grid: GridSize) -> (r: (
    usize,
    usize,
))
    ensures
        (r.0 as int, r.1 as int) == cursor_place(
            line as int,
            display_offset as int,
            column as int,
            grid,
        ),
{
    let max_row: usize = if grid.rows > 0 {
        (grid.rows - 1) as usize
    } else {
        0
    };
    let max_col: usize = if grid.cols > 0 {
        (grid.cols - 1) as usize
    } else {
        0
    };
    let raw: i128 = line as i128 + display_offset as i128;
    let row: usize = if raw < 0 {
        0
    } else if raw > max_row as i128 {
        max_row
    } else {
        raw as usize
    };
    let col: usize = if column > max_col {
        max_col
    } else {
        column
    };
    (row, col)
}

/// Law: the cursor stands on its own cell, however much of the history is shown.
/// Where the line of the cursor is on the screen, the cell of the emulator at the
/// cursor is the one that the screen shows there.
pub proof fn law_the_cursor_stands_on_its_cell(
    items: Seq<IndexedCell>,
    offset: int,
    grid: GridSize,
    i: int,
)
    requires
        0 <= i < items.len(),
        0 <= items[i].line + offset < grid.rows,
        items[i].column < grid.cols,
        !items[i].cell.flags.wide_char_spacer,
    ensures
        ({
            let (row, col) = cursor_place(items[i].line as int, offset, items[i].column as int, grid);
            shown_cell(items, offset, row, col, (i + 1) as nat) == Some(i)
        }),
{
}

/// The shape in which the cursor is drawn: a beam where that is asked for,
/// unless the program hides it.
pub fn effective_cursor_shape(shape: CursorShape, force_vertical: bool) -> (r: CursorShape)
    ensures
        r == if force_vertical && shape != CursorShape::Hidden {
            CursorShape::Beam
        } else {
            shape
        },
{
    if force_vertical && shape != CursorShape::Hidden {
        CursorShape::Beam
    } else {
        shape
    }
}

/// Whether a snapshot is the screen that the emulator shows.
pub open spec fn is_screen(
    snapshot: ScreenSnapshot,
    content: TermContent,
    grid: GridSize,
    forced: Seq<char>,
) -> bool {
    &&& exists|raw: Seq<Seq<CellSnapshot>>|
        #![trigger all_annotated(row_views(snapshot.cells@), raw)]
        is_picture(
            raw,
            content.cells@,
            content.colors,
            forced,
            content.display_offset as int,
            grid.rows as int,
            grid.cols as int,
            content.cells@.len(),
        ) && all_annotated(row_views(snapshot.cells@), raw)
    &&& (snapshot.cursor_row as int, snapshot.cursor_col as int) == cursor_place(
        content.cursor_line as int,
        content.display_offset as int,
        content.cursor_column as int,
        grid,
    )
    &&& snapshot.cursor_visible == (content.cursor_shape != CursorShape::Hidden)
    &&& snapshot.alt_screen == content.alt_screen
}

/// The screen that the emulator shows.
pub fn refresh_snapshot(content: &TermContent, grid: GridSize, forced: &[char]) -> (snapshot:
    ScreenSnapshot)
    ensures
        is_screen(snapshot, *content, grid, forced@),
{
    let mut cells = picture_of(
        content.cells.as_slice(),
        &content.colors,
        forced,
        content.display_offset,
        grid.rows as usize,
        grid.cols as usize,
    );
    let ghost raw = row_views(cells@);
    annotate_plain_text_links(&mut cells);
    assert(all_annotated(row_views(cells@), raw));
    let (cursor_row, cursor_col) = current_cursor_anchor(
        content.cursor_line,
        content.display_offset,
        content.cursor_column,
        grid,
    );
    let snapshot = ScreenSnapshot {
        cells,
        cursor_row,
        cursor_col,
        cursor_visible: content.cursor_shape != CursorShape::Hidden,
        alt_screen: content.alt_screen,
    };
    assert(all_annotated(row_views(snapshot.cells@), raw));
    snapshot
}

/// Whether a row is the picture of a row of the history.
pub open spec fn is_history_row(
    row: Seq<CellSnapshot>,
    cells: Seq<Cell>,
    colors: Colors,
    forced: Seq<char>,
) -> bool {
    &&& row.len() == cells.len()
    &&& forall|c: int|
        0 <= c < row.len() ==> if cells[c].flags.wide_char_spacer {
            is_blank_cell(#[trigger] row[c], foreground(colors))
        } else {
            shows(row[c], cells[c], colors, forced)
        }
}

fn history_row(cells: &[Cell], colors: &Colors, forced: &[char], fg: (u8, u8, u8)) -> (row: Vec<
    CellSnapshot,
>)
    requires
        fg == foreground(*colors),
    ensures
        is_history_row(row@, cells@, *colors, forced@),
{
    let mut row: Vec<CellSnapshot> = Vec::new();
    let mut c: usize = 0;
    while c < cells.len()
        invariant
            c <= cells@.len(),
            fg == foreground(*colors),
            row@.len() == c,
            forall|k: int|
                0 <= k < c ==> if cells@[k].flags.wide_char_spacer {
                    is_blank_cell(#[trigger] row@[k], foreground(*colors))
                } else {
                    shows(row@[k], cells@[k], *colors, forced@)
                },
        decreases cells@.len() - c,
    {
        match snapshot_cell(&cells[c], colors, forced) {
            Some(snapshot) => row.push(snapshot),
            None => row.push(blank_cell(fg)),
        }
        c += 1;
    }
    row
}

/// Whether a line is the picture of a row of the history, with its links.
pub open spec fn is_history_line(
    line: Seq<CellSnapshot>,
    cells: Seq<Cell>,
    colors: Colors,
    forced: Seq<char>,
) -> bool {
    exists|raw: Seq<CellSnapshot>|
        is_history_row(raw, cells, colors, forced) && #[trigger] is_annotated(line, raw)
}

/// Whether lines are the pictures of all rows of the history and the screen.
pub open spec fn is_history(
    lines: Seq<Seq<CellSnapshot>>,
    rows: Seq<Vec<Cell>>,
    colors: Colors,
    forced: Seq<char>,
) -> bool {
    &&& lines.len() == rows.len()
    &&& forall|r: int|
        0 <= r < lines.len() ==> is_history_line(#[trigger] lines[r], rows[r]@, colors, forced)
}

/// The lines of a still picture, from the rows of the history and the screen.
pub fn capture_snapshot_lines(rows: &[Vec<Cell>], colors: &Colors, forced: &[char]) -> (lines: Vec<
    Vec<CellSnapshot>,
>)
    ensures
        is_history(row_views(lines@), rows@, *colors, forced@),
{
    let fg = ansi_to_rgb(
        AnsiColor::Named(NamedColor::Foreground),
        colors,
        Flags::empty(),
        true,
    );
    let mut lines: Vec<Vec<CellSnapshot>> = Vec::new();
    let mut r: usize = 0;
    while r < rows.len()
        invariant
            r <= rows@.len(),
            fg == foreground(*colors),
            lines@.len() == r,
            forall|k: int|
                0 <= k < r ==> is_history_line(
                    (#[trigger] lines@[k])@,
                    rows@[k]@,
                    *colors,
                    forced@,
                ),
        decreases rows@.len() - r,
    {
        let ghost held = lines@;
        let mut row = history_row(rows[r].as_slice(), colors, forced, fg);
        let ghost raw = row@;
        annotate_plain_text_links_for_row(&mut row);
        lines.push(row);
        assert forall|k: int| 0 <= k < r + 1 implies is_history_line(
            (#[trigger] lines@[k])@,
            rows@[k]@,
            *colors,
            forced@,
        ) by {
            if k < r {
                assert(lines@[k] == held[k]);
            } else {
                assert(is_history_row(raw, rows@[k]@, *colors, forced@));
                assert(is_annotated(lines@[k]@, raw));
            }
        }
        r += 1;
    }
    assert forall|k: int| 0 <= k < lines@.len() implies is_history_line(
        #[trigger] row_views(lines@)[k],
        rows@[k]@,
        *colors,
        forced@,
    ) by {
        assert(row_views(lines@)[k] == lines@[k]@);
    }
    lines
}

/// A text without the blanks, and no other spaces, at its end.
pub open spec fn without_blanks(text: Seq<char>) -> Seq<char>
    decreases text.len(),
{
    if text.len() > 0 && text.last() == ' ' {
        without_blanks(text.drop_last())
    } else {
        text
    }
}

pub open spec fn screen_lines(cells: Seq<Seq<CellSnapshot>>) -> Seq<Seq<char>> {
    cells.map_values(
        |row: Seq<CellSnapshot>| without_blanks(cells_text(row, 0, row.len() as int)),
    )
}

fn row_line(row: &[CellSnapshot]) -> (line: String)
    ensures
        line@ == without_blanks(cells_text(row@, 0, row@.len() as int)),
{
    let mut chars: Vec<char> = Vec::new();
    push_cells_text(row, 0, row.len(), &mut chars);
    let ghost text = cells_text(row@, 0, row@.len() as int);
    assert(chars@ =~= text);
    while chars.len() > 0 && chars[chars.len() - 1] == ' '
        invariant
            without_blanks(chars@) == without_blanks(text),
        decreases chars@.len(),
    {
        let ghost before = chars@;
        let _blank = chars.pop();
        assert(chars@ =~= before.drop_last());
    }
    text_of(chars.as_slice())
}

/// The text of each row of the screen, without the blanks at its end.
pub fn snapshot_to_lines(snapshot: &ScreenSnapshot) -> (lines: Vec<String>)
    ensures
        text_views(lines@) == screen_lines(row_views(snapshot.cells@)),
{
    let mut lines: Vec<String> = Vec::new();
    let mut r: usize = 0;
    while r < snapshot.cells.len()
        invariant
            r <= snapshot.cells@.len(),
            lines@.len() == r,
            forall|k: int|
                0 <= k < r ==> (#[trigger] lines@[k])@ == without_blanks(
                    cells_text(snapshot.cells@[k]@, 0, snapshot.cells@[k]@.len() as int),
                ),
        decreases snapshot.cells@.len() - r,
    {
        lines.push(row_line(snapshot.cells[r].as_slice()));
        r += 1;
    }
    assert(text_views(lines@) =~= screen_lines(row_views(snapshot.cells@)));
    lines
}

/// The characters that are drawn two columns wide: those of some texts, each
/// once, without blanks.
pub open spec fn wide_chars(texts: Seq<Seq<char>>, c: char) -> bool {
    !whitespace_char(c) && exists|i: int| 0 <= i < texts.len() && (#[trigger] texts[i]).contains(c)
}

pub fn parse_double_width_chars(raw: &[String]) -> (chars: Vec<char>)
    ensures
        forall|c: char| chars@.contains(c) <==> wide_chars(text_views(raw@), c),
        chars@.no_duplicates(),
{
    let ghost texts = text_views(raw@);
    let mut chars: Vec<char> = Vec::new();
    let mut i: usize = 0;
    while i < raw.len()
        invariant
            i <= raw@.len(),
            texts == text_views(raw@),
            chars@.no_duplicates(),
            forall|c: char| chars@.contains(c) <==> wide_chars(texts.take(i as int), c),
        decreases raw@.len() - i,
    {
        let entry = chars_of(raw[i].as_str());
        assert(texts[i as int] == entry@);
        let mut j: usize = 0;
        while j < entry.len()
            invariant
                j <= entry@.len(),
                i < raw@.len(),
                texts == text_views(raw@),
                texts[i as int] == entry@,
                chars@.no_duplicates(),
                forall|c: char|
                    chars@.contains(c) <==> wide_chars(texts.take(i as int), c) || (
                    !whitespace_char(c) && entry@.take(j as int).contains(c)),
            decreases entry@.len() - j,
        {
            let c: char = entry[j];
            let ghost before = chars@;
            let known = contains_char(chars.as_slice(), c);
            if !is_whitespace(c) && !known {
                chars.push(c);
                assert(chars@.no_duplicates());
            }
            assert forall|d: char|
                chars@.contains(d) <==> wide_chars(texts.take(i as int), d) || (!whitespace_char(d)
                    && entry@.take(j + 1).contains(d)) by {
                lemma_take_one_more(entry@, j as int, d);
                lemma_push_contains(before, c, d);
            }
            j += 1;
        }
        assert(entry@.take(entry@.len() as int) =~= entry@);
        assert forall|c: char| chars@.contains(c) <==> wide_chars(texts.take(i + 1), c) by {
            lemma_wide_chars_one_more(texts, i as int, c);
        }
        i += 1;
    }
    assert(texts.take(texts.len() as int) =~= texts);
    chars
}

fn contains_char(chars: &[char], c: char) -> (r: bool)
    ensures
        r == chars@.contains(c),
{
    let mut i: usize = 0;
    while i < chars.len()
        invariant
            i <= chars@.len(),
            forall|k: int| 0 <= k < i ==> chars@[k] != c,
        decreases chars@.len() - i,
    {
        if chars[i] == c {
            assert(chars@[i as int] == c);
            return true;
        }
        i += 1;
    }
    false
}

proof fn lemma_push_contains(chars: Seq<char>, c: char, d: char)
    ensures
        chars.push(c).contains(d) <==> chars.contains(d) || c == d,
{
    let all = chars.push(c);
    if chars.contains(d) {
        let k = choose|k: int| 0 <= k < chars.len() && chars[k] == d;
        assert(all[k] == d);
    }
    assert(all[chars.len() as int] == c);
    if all.contains(d) && c != d {
        let k = choose|k: int| 0 <= k < all.len() && all[k] == d;
        assert(chars[k] == d);
    }
}

proof fn lemma_take_one_more(chars: Seq<char>, j: int, d: char)
    requires
        0 <= j < chars.len(),
    ensures
        chars.take(j + 1).contains(d) <==> chars.take(j).contains(d) || chars[j] == d,
{
    assert(chars.take(j + 1) =~= chars.take(j).push(chars[j]));
    lemma_push_contains(chars.take(j), chars[j], d);
}

proof fn lemma_wide_chars_one_more(texts: Seq<Seq<char>>, i: int, c: char)
    requires
        0 <= i < texts.len(),
    ensures
        wide_chars(texts.take(i + 1), c) <==> wide_chars(texts.take(i), c) || (!whitespace_char(c)
            && texts[i].contains(c)),
{
    let less = texts.take(i);
    let more = texts.take(i + 1);
    assert(more[i] == texts[i]);
    if wide_chars(less, c) {
        let k = choose|k: int| 0 <= k < less.len() && (#[trigger] less[k]).contains(c);
        assert(more[k] == less[k]);
    }
    if wide_chars(more, c) {
        let k = choose|k: int| 0 <= k < more.len() && (#[trigger] more[k]).contains(c);
        if k < i {
            assert(less[k] == more[k]);
        }
    }
}

// ---------------------------------------------------------------------------
// The stream from the shell
// ---------------------------------------------------------------------------

/// Whether more may be taken from the shell before the window is painted.
pub fn batch_has_room(chunks: usize, bytes: usize) -> (r: bool)
    ensures
        r == (chunks < MAX_PTY_BATCH_CHUNKS && bytes < MAX_PTY_BATCH_BYTES),
{
    chunks < MAX_PTY_BATCH_CHUNKS && bytes < MAX_PTY_BATCH_BYTES
}

/// What the terminal does with a piece of the stream.
pub enum StreamStep {
    /// Hand these bytes to the emulator.
    Advance(Vec<u8>),
    /// Place this picture.
    Place(SixelImage),
    Nothing,
}

/// Whether a step is what a piece of the stream asks for, with the cursor at a
/// place: bytes and what holds no picture go to the emulator as they came.
pub open spec fn is_step(
    step: StreamStep,
    action: SixelStreamAction,
    row: usize,
    col: usize,
) -> bool {
    match action {
        SixelStreamAction::Bytes(bytes) => step matches StreamStep::Advance(b) && b@ == bytes@,
        SixelStreamAction::UnknownDcs(raw) => step matches StreamStep::Advance(b) && b@ == raw@,
        SixelStreamAction::Sixel(payload) => match step {
            StreamStep::Place(image) => is_image_of(Some(image), drawing_of(payload@), row, col),
            StreamStep::Nothing => is_image_of(None, drawing_of(payload@), row, col),
            StreamStep::Advance(_) => false,
        },
        SixelStreamAction::TmuxPassthrough { payload, raw } => match step {
            StreamStep::Place(image) => tmux_sixel_payload(payload@) matches Some(inner)
                && is_image_of(Some(image), drawing_of(inner), row, col),
            StreamStep::Advance(b) => b@ == raw@ && (tmux_sixel_payload(payload@) matches Some(
                inner,
            ) ==> is_image_of(None, drawing_of(inner), row, col)),
            StreamStep::Nothing => false,
        },
    }
}

pub fn stream_step(action: SixelStreamAction, row: usize, col: usize) -> (step: StreamStep)
    ensures
        is_step(step, action, row, col),
{
    match action {
        SixelStreamAction::Bytes(bytes) => StreamStep::Advance(bytes),
        SixelStreamAction::UnknownDcs(raw) => StreamStep::Advance(raw),
        SixelStreamAction::Sixel(payload) => match decode_sixel_payload(
            row,
            col,
            payload.as_slice(),
        ) {
            Some(image) => StreamStep::Place(image),
            None => StreamStep::Nothing,
        },
        SixelStreamAction::TmuxPassthrough { payload, raw } => match decode_tmux_passthrough_sixel(
            row,
            col,
            payload.as_slice(),
        ) {
            Some(image) => StreamStep::Place(image),
            None => StreamStep::Advance(raw),
        },
    }
}

// ---------------------------------------------------------------------------
// The events of the emulator
// ---------------------------------------------------------------------------

#[derive(Clone, Copy, Debug, PartialEq, Eq, Structural)]
pub enum ClipboardType {
    Clipboard,
    Selection,
}

/// An event of the emulator. `F` makes the answer to a program that asks for
/// the clipboard.
pub enum TermEvent<F> {
    Title(String),
    ResetTitle,
    PtyWrite(String),
    ClipboardStore(ClipboardType, String),
    ClipboardLoad(ClipboardType, F),
    Scroll { region_top: usize, region_bottom: usize, delta: i32 },
    Erase { region_top: usize, region_bottom: usize },
    Other,
}

/// An event that waits until the terminal can attend to it.
pub enum PendingTerminalEvent<F> {
    ClipboardStore(ClipboardType, String),
    ClipboardLoad(ClipboardType, F),
    Scroll { region_top: usize, region_bottom: usize, delta: i32 },
    Erase { region_top: usize, region_bottom: usize },
}

/// What listens to the emulator: it keeps the title, and the events that wait,
/// in their order.
pub struct TitleTrackingListener<F> {
    pub title: Option<String>,
    pub pending_events: Vec<PendingTerminalEvent<F>>,
}

/// The event as it waits; none for one that is attended to at once.
pub open spec fn as_pending<F>(event: TermEvent<F>) -> Option<PendingTerminalEvent<F>> {
    match event {
        TermEvent::ClipboardStore(clipboard, text) => Some(
            PendingTerminalEvent::ClipboardStore(clipboard, text),
        ),
        TermEvent::ClipboardLoad(clipboard, format) => Some(
            PendingTerminalEvent::ClipboardLoad(clipboard, format),
        ),
        TermEvent::Scroll { region_top, region_bottom, delta } => Some(
            PendingTerminalEvent::Scroll { region_top, region_bottom, delta },
        ),
        TermEvent::Erase { region_top, region_bottom } => Some(
            PendingTerminalEvent::Erase { region_top, region_bottom },
        ),
        _ => None,
    }
}

impl<F> TitleTrackingListener<F> {
    pub fn new() -> (listener: Self)
        ensures
            listener.title is None,
            listener.pending_events@.len() == 0,
    {
        TitleTrackingListener { title: None, pending_events: Vec::new() }
    }

    /// Takes an event in; returns the bytes to send to the shell, if any.
    pub fn send_event(&mut self, event: TermEvent<F>) -> (bytes: Option<Vec<u8>>)
        ensures
            final(self).title == match event {
                TermEvent::Title(title) => Some(title),
                TermEvent::ResetTitle => None,
                _ => old(self).title,
            },
            final(self).pending_events@ == match as_pending(event) {
                Some(pending) => old(self).pending_events@.push(pending),
                None => old(self).pending_events@,
            },
            bytes_view(bytes) == match event {
                TermEvent::PtyWrite(text) => Some(encode_utf8(text@)),
                _ => None,
            },
    {
        match event {
            TermEvent::Title(title) => {
                self.title = Some(title);
                None
            },
            TermEvent::ResetTitle => {
                self.title = None;
                None
            },
            TermEvent::PtyWrite(text) => {
                let mut bytes: Vec<u8> = Vec::new();
                bytes.extend_from_slice(text.as_str().as_bytes());
                assert(bytes@ =~= encode_utf8(text@));
                Some(bytes)
            },
            TermEvent::ClipboardStore(clipboard, text) => {
                self.pending_events.push(PendingTerminalEvent::ClipboardStore(clipboard, text));
                None
            },
            TermEvent::ClipboardLoad(clipboard, format) => {
                self.pending_events.push(PendingTerminalEvent::ClipboardLoad(clipboard, format));
                None
            },
            TermEvent::Scroll { region_top, region_bottom, delta } => {
                self.pending_events.push(
                    PendingTerminalEvent::Scroll { region_top, region_bottom, delta },
                );
                None
            },
            TermEvent::Erase { region_top, region_bottom } => {
                self.pending_events.push(PendingTerminalEvent::Erase { region_top, region_bottom });
                None
            },
            TermEvent::Other => None,
        }
    }

    /// Hands out the events that wait.
    pub fn take_pending(&mut self) -> (events: Vec<PendingTerminalEvent<F>>)
        ensures
            events@ == old(self).pending_events@,
            final(self).pending_events@.len() == 0,
            final(self).title == old(self).title,
    {
        let mut events: Vec<PendingTerminalEvent<F>> = Vec::new();
        std::mem::swap(&mut self.pending_events, &mut events);
        events
    }
}

/// What a tab is called: the title that the program gave, unless it is blank,
/// or else the shell.
pub open spec fn title_of(title: Option<Seq<char>>, shell: Seq<char>) -> Seq<char> {
    match title {
        Some(text) if trimmed(text).len() > 0 => text,
        _ => shell,
    }
}

pub fn tab_title(title: &Option<String>, shell: &str) -> (r: String)
    ensures
        r@ == title_of(text_view(*title), shell@),
{
    match title {
        Some(text) => if trim_text(text.as_str()).as_str().is_empty() {
            shell.to_owned()
        } else {
            text.clone()
        },
        None => shell.to_owned(),
    }
}

pub fn window_title(tab_title: &str) -> (r: String)
    ensures
        r@ == "agent terminal | "@ + tab_title@,
{
    let mut out: Vec<char> = Vec::new();
    push_text(&mut out, "agent terminal | ");
    push_text(&mut out, tab_title);
    text_of(out.as_slice())
}

/// What a program that asks for it is told when the focus comes or goes.
pub fn focus_report(focused: bool, mode: TermMode) -> (bytes: Vec<u8>)
    ensures
        bytes@ == if !mode.focus_in_out {
            Seq::<u8>::empty()
        } else if focused {
            seq![0x1bu8, 0x5b, 0x49]
        } else {
            seq![0x1bu8, 0x5b, 0x4f]
        },
{
    let mut bytes: Vec<u8> = Vec::new();
    if mode.focus_in_out {
        bytes.push(0x1b);
        bytes.push(0x5b);
        bytes.push(
            if focused {
                0x49
            } else {
                0x4f
            },
        );
    }
    assert(bytes@ =~= if !mode.focus_in_out {
        Seq::<u8>::empty()
    } else if focused {
        seq![0x1bu8, 0x5b, 0x49]
    } else {
        seq![0x1bu8, 0x5b, 0x4f]
    });
    bytes
}

/// The note about a picture that was placed, or was none.
pub fn image_note(stored: bool, width: usize, height: usize, row: usize, col: usize) -> (note:
    String)
    ensures
        note@ == (if stored {
            "sixel image "@
        } else {
            "invalid sixel image "@
        }) + number(width as nat) + "x"@ + number(height as nat) + " at "@ + number(row as nat)
            + ","@ + number(col as nat),
{
    let mut out: Vec<char> = Vec::new();
    if stored {
        push_text(&mut out, "sixel image ");
    } else {
        push_text(&mut out, "invalid sixel image ");
    }
    push_decimal_chars(&mut out, width as u64);
    push_text(&mut out, "x");
    push_decimal_chars(&mut out, height as u64);
    push_text(&mut out, " at ");
    push_decimal_chars(&mut out, row as u64);
    push_text(&mut out, ",");
    push_decimal_chars(&mut out, col as u64);
    assert(out@ =~= (if stored {
        "sixel image "@
    } else {
        "invalid sixel image "@
    }) + number(width as nat) + "x"@ + number(height as nat) + " at "@ + number(row as nat) + ","@
        + number(col as nat));
    text_of(out.as_slice())
}

/// A number as text.
pub open spec fn number(n: nat) -> Seq<char> {
    crate::chars::ascii_text(crate::chars::decimal(n))
}

/// Whether input is traced, by the value of the variable that asks for it.
pub fn is_input_trace_enabled(value: Option<String>) -> (r: bool)
    ensures
        r == match value {
            Some(text) => is_yes(text@),
            None => false,
        },
{
    should_log_debug_http_start(value)
}

// ---------------------------------------------------------------------------
// Measurements
// ---------------------------------------------------------------------------

pub open spec fn elapsed(from: u64, to: u64) -> u64 {
    if to < from {
        0
    } else {
        (to - from) as u64
    }
}

fn elapsed_ms(from: u64, to: u64) -> (ms: u64)
    ensures
        ms == elapsed(from, to),
{
    if to < from {
        0
    } else {
        to - from
    }
}

/// The way of an entered line to the shell and of its answer to the screen, in
/// milliseconds.
#[derive(Clone, Copy, Debug, PartialEq, Eq, Structural)]
pub struct EnterLatencyProbe {
    pub id: u64,
    pub keydown_at: u64,
    pub write_done_at: Option<u64>,
    pub first_pty_at: Option<u64>,
}

/// How long each part of the way took.
#[derive(Clone, Copy, Debug, PartialEq, Eq, Structural)]
pub struct ProbeTimings {
    pub keydown_to_now_ms: u64,
    pub keydown_to_write_ms: Option<u64>,
    pub write_to_now_ms: Option<u64>,
    pub keydown_to_first_pty_ms: Option<u64>,
    pub first_pty_to_now_ms: Option<u64>,
}

pub open spec fn elapsed_to(from: u64, to: Option<u64>) -> Option<u64> {
    match to {
        Some(t) => Some(elapsed(from, t)),
        None => None,
    }
}

pub open spec fn elapsed_from(from: Option<u64>, to: u64) -> Option<u64> {
    match from {
        Some(t) => Some(elapsed(t, to)),
        None => None,
    }
}

pub fn probe_timings(probe: &EnterLatencyProbe, at: u64) -> (timings: ProbeTimings)
    ensures
        timings == (ProbeTimings {
            keydown_to_now_ms: elapsed(probe.keydown_at, at),
            keydown_to_write_ms: elapsed_to(probe.keydown_at, probe.write_done_at),
            write_to_now_ms: elapsed_from(probe.write_done_at, at),
            keydown_to_first_pty_ms: elapsed_to(probe.keydown_at, probe.first_pty_at),
            first_pty_to_now_ms: elapsed_from(probe.first_pty_at, at),
        }),
{
    ProbeTimings {
        keydown_to_now_ms: elapsed_ms(probe.keydown_at, at),
        keydown_to_write_ms: match probe.write_done_at {
            Some(t) => Some(elapsed_ms(probe.keydown_at, t)),
            None => None,
        },
        write_to_now_ms: match probe.write_done_at {
            Some(t) => Some(elapsed_ms(t, at)),
            None => None,
        },
        keydown_to_first_pty_ms: match probe.first_pty_at {
            Some(t) => Some(elapsed_ms(probe.keydown_at, t)),
            None => None,
        },
        first_pty_to_now_ms: match probe.first_pty_at {
            Some(t) => Some(elapsed_ms(t, at)),
            None => None,
        },
    }
}

/// One probe at a time: a line that is entered before the answer to the last
/// one takes its place.
#[derive(Clone, Copy, Debug, PartialEq, Eq, Structural)]
pub struct LatencyDiagnostics {
    pub seq: u64,
    pub probe: Option<EnterLatencyProbe>,
}

impl LatencyDiagnostics {
    pub fn new() -> (d: Self)
        ensures
            d.seq == 0,
            d.probe is None,
    {
        LatencyDiagnostics { seq: 0, probe: None }
    }

    /// Starts a probe; returns its number, and the one that it replaces.
    pub fn start_enter_latency_probe(&mut self, now: u64) -> (r: (u64, Option<EnterLatencyProbe>))
        ensures
            final(self).seq == if old(self).seq == u64::MAX {
                u64::MAX
            } else {
                (old(self).seq + 1) as u64
            },
            final(self).probe == Some(
                EnterLatencyProbe {
                    id: final(self).seq,
                    keydown_at: now,
                    write_done_at: None,
                    first_pty_at: None,
                },
            ),
            r == (final(self).seq, old(self).probe),
    {
        let replaced = self.probe;
        if self.seq < u64::MAX {
            self.seq = self.seq + 1;
        }
        self.probe = Some(
            EnterLatencyProbe {
                id: self.seq,
                keydown_at: now,
                write_done_at: None,
                first_pty_at: None,
            },
        );
        (self.seq, replaced)
    }

    /// The line was written; returns the probe where this is news for it.
    pub fn mark_enter_latency_write_done(&mut self, id: u64, now: u64) -> (r: Option<
        EnterLatencyProbe,
    >)
        ensures
            final(self).seq == old(self).seq,
            match old(self).probe {
                Some(probe) => if probe.id == id && probe.write_done_at is None {
                    &&& r == Some(EnterLatencyProbe { write_done_at: Some(now), ..probe })
                    &&& final(self).probe == r
                } else {
                    r is None && final(self).probe == old(self).probe
                },
                None => r is None && final(self).probe is None,
            },
    {
        match self.probe {
            Some(probe) => {
                if probe.id != id || probe.write_done_at.is_some() {
                    return None;
                }
                let next = EnterLatencyProbe {
                    id: probe.id,
                    keydown_at: probe.keydown_at,
                    write_done_at: Some(now),
                    first_pty_at: probe.first_pty_at,
                };
                self.probe = Some(next);
                Some(next)
            },
            None => None,
        }
    }

    /// Something came from the shell; returns the probe where this is the
    /// first answer.
    pub fn mark_enter_latency_first_pty(&mut self, now: u64) -> (r: Option<EnterLatencyProbe>)
        ensures
            final(self).seq == old(self).seq,
            match old(self).probe {
                Some(probe) => if probe.write_done_at is Some && probe.first_pty_at is None {
                    &&& r == Some(EnterLatencyProbe { first_pty_at: Some(now), ..probe })
                    &&& final(self).probe == r
                } else {
                    r is None && final(self).probe == old(self).probe
                },
                None => r is None && final(self).probe is None,
            },
    {
        match self.probe {
            Some(probe) => {
                if probe.write_done_at.is_none() || probe.first_pty_at.is_some() {
                    return None;
                }
                let next = EnterLatencyProbe {
                    id: probe.id,
                    keydown_at: probe.keydown_at,
                    write_done_at: probe.write_done_at,
                    first_pty_at: Some(now),
                };
                self.probe = Some(next);
                Some(next)
            },
            None => None,
        }
    }

    /// The screen was painted; returns the probe where it shows the answer,
    /// which ends it.
    pub fn mark_enter_latency_first_paint(&mut self) -> (r: Option<EnterLatencyProbe>)
        ensures
            final(self).seq == old(self).seq,
            match old(self).probe {
                Some(probe) => if probe.first_pty_at is Some {
                    r == Some(probe) && final(self).probe is None
                } else {
                    r is None && final(self).probe == old(self).probe
                },
                None => r is None && final(self).probe is None,
            },
    {
        match self.probe {
            Some(probe) => {
                if probe.first_pty_at.is_none() {
                    return None;
                }
                self.probe = None;
                Some(probe)
            },
            None => None,
        }
    }
}

/// A silence of the shell that is worth a note, in milliseconds.
pub const PTY_GAP_MS: u64 = 800;

/// How long a sample of the stream lasts, in milliseconds.
pub const PTY_SAMPLE_MS: u64 = 500;

/// How much came from the shell in a while.
#[derive(Clone, Copy, Debug, PartialEq, Eq, Structural)]
pub struct PtySample {
    pub window_ms: u64,
    pub bytes: u128,
    pub chunks: u128,
    pub bytes_per_sec: u128,
    pub chunks_per_sec: u128,
}

/// What is counted of the stream from the shell.
#[derive(Clone, Copy, Debug, PartialEq, Eq, Structural)]
pub struct PtySampler {
    pub started_at: u64,
    pub bytes: u128,
    pub chunks: u128,
    pub last_chunk_at: Option<u64>,
}

pub open spec fn bounded_sum(a: u128, b: int) -> u128 {
    if a + b > u128::MAX {
        u128::MAX
    } else {
        (a + b) as u128
    }
}

/// So many per second; the product stops at the end of its type.
pub open spec fn per_second(count: u128, window_ms: u64) -> u128 {
    let product = if count * 1000 > u128::MAX {
        u128::MAX as int
    } else {
        count * 1000
    };
    (product / (window_ms as int)) as u128
}

fn bounded_add(a: u128, b: u128) -> (r: u128)
    ensures
        r == bounded_sum(a, b as int),
{
    if a > u128::MAX - b {
        u128::MAX
    } else {
        a + b
    }
}

fn rate(count: u128, window_ms: u64) -> (r: u128)
    requires
        window_ms > 0,
    ensures
        r == per_second(count, window_ms),
{
    let product: u128 = if count > u128::MAX / 1000 {
        u128::MAX
    } else {
        count * 1000
    };
    product / window_ms as u128
}

impl PtySampler {
    pub fn new(now: u64) -> (sampler: Self)
        ensures
            sampler == (PtySampler { started_at: now, bytes: 0, chunks: 0, last_chunk_at: None }),
    {
        PtySampler { started_at: now, bytes: 0, chunks: 0, last_chunk_at: None }
    }

    /// Counts a chunk. Returns the silence before it, where it was long, and
    /// the sample, where its time is over; counting then starts anew.
    pub fn record_pty_ingest_diagnostics(&mut self, now: u64, chunk_len: usize) -> (r: (
        Option<u64>,
        Option<PtySample>,
    ))
        ensures
            r.0 == match old(self).last_chunk_at {
                Some(last) => if elapsed(last, now) >= PTY_GAP_MS {
                    Some(elapsed(last, now))
                } else {
                    None
                },
                None => None,
            },
            ({
                let bytes = bounded_sum(old(self).bytes, chunk_len as int);
                let chunks = bounded_sum(old(self).chunks, 1);
                let window_ms = elapsed(old(self).started_at, now);
                if window_ms < PTY_SAMPLE_MS {
                    &&& r.1 is None
                    &&& *final(self) == (PtySampler {
                        bytes,
                        chunks,
                        last_chunk_at: Some(now),
                        started_at: old(self).started_at,
                    })
                } else {
                    &&& r.1 == Some(
                        PtySample {
                            window_ms,
                            bytes,
                            chunks,
                            bytes_per_sec: per_second(bytes, window_ms),
                            chunks_per_sec: per_second(chunks, window_ms),
                        },
                    )
                    &&& *final(self) == (PtySampler {
                        bytes: 0,
                        chunks: 0,
                        last_chunk_at: Some(now),
                        started_at: now,
                    })
                }
            }),
    {
        let gap: Option<u64> = match self.last_chunk_at {
            Some(last) => {
                let ms: u64 = elapsed_ms(last, now);
                if ms >= PTY_GAP_MS {
                    Some(ms)
                } else {
                    None
                }
            },
            None => None,
        };
        self.last_chunk_at = Some(now);
        self.bytes = bounded_add(self.bytes, chunk_len as u128);
        self.chunks = bounded_add(self.chunks, 1);
        let window_ms: u64 = elapsed_ms(self.started_at, now);
        if window_ms < PTY_SAMPLE_MS {
            return (gap, None);
        }
        let sample = PtySample {
            window_ms,
            bytes: self.bytes,
            chunks: self.chunks,
            bytes_per_sec: rate(self.bytes, window_ms),
            chunks_per_sec: rate(self.chunks, window_ms),
        };
        self.started_at = now;
        self.bytes = 0;
        self.chunks = 0;
        (gap, Some(sample))
    }
}

// ---------------------------------------------------------------------------
// The self-check
// ---------------------------------------------------------------------------

fn plain_keystroke(key: &str, key_char: Option<String>, modifiers: Modifiers) -> (keystroke:
    Keystroke)
    ensures
        keystroke.key@ == key@,
        keystroke.key_char == key_char,
        keystroke.modifiers == modifiers,
        !keystroke.ime_in_progress,
{
    Keystroke { modifiers, key: key.to_owned(), key_char, ime_in_progress: false }
}

fn sends(keystroke: &Keystroke, expected: &[u8]) -> (r: bool)
    ensures
        r == (legacy_key(*keystroke) == Some(expected@)),
{
    match encode_keystroke(keystroke) {
        Some(bytes) => same_bytes(bytes.as_slice(), expected),
        None => false,
    }
}

/// No key with a name of its own has a name of one character.
pub proof fn lemma_single_char_has_no_name(key: Seq<char>)
    requires
        key.len() == 1,
    ensures
        name_of(key) == KeyName::Other,
{
    reveal_strlit("space");
    reveal_strlit("enter");
    reveal_strlit("tab");
    reveal_strlit("backspace");
    reveal_strlit("escape");
    reveal_strlit("left");
    reveal_strlit("right");
    reveal_strlit("up");
    reveal_strlit("down");
    reveal_strlit("home");
    reveal_strlit("end");
    reveal_strlit("insert");
    reveal_strlit("delete");
    reveal_strlit("pageup");
    reveal_strlit("pagedown");
    reveal_strlit("f1");
    reveal_strlit("f2");
    reveal_strlit("f3");
    reveal_strlit("f4");
    reveal_strlit("f5");
    reveal_strlit("f6");
    reveal_strlit("f7");
    reveal_strlit("f8");
    reveal_strlit("f9");
    reveal_strlit("f10");
    reveal_strlit("f11");
    reveal_strlit("f12");
}

proof fn lemma_enter_is_enter()
    ensures
        name_of("enter"@) == KeyName::Enter,
{
    reveal_strlit("space");
    reveal_strlit("enter");
    assert("space"@[0] == 's');
    assert("enter"@[0] == 'e');
}

/// Checks the encoding of some keys, some colours, and the size of the grid of
/// an ordinary window. Only the last can fail.
pub fn run_self_check(grid: GridSize) -> (r: Result<(), String>)
    ensures
        match r {
            Ok(()) => grid.cols >= 80 && grid.rows >= 20,
            Err(message) => if grid.cols < 80 {
                message@ == "computed columns too small for 1000px viewport"@
            } else {
                grid.rows < 20 && message@ == "computed rows too small for 520px viewport"@
            },
        },
{
    let none = Modifiers::none();
    proof {
        lemma_enter_is_enter();
        reveal_strlit("x");
        reveal_strlit("c");
        reveal_strlit("a");
        reveal_strlit("v");
        lemma_single_char_has_no_name("x"@);
        lemma_single_char_has_no_name("c"@);
        lemma_single_char_has_no_name("a"@);
        lemma_single_char_has_no_name("v"@);
    }
    let enter = plain_keystroke("enter", None, none);
    let carriage_return: [u8; 1] = [0x0d];
    assert(carriage_return@ =~= seq![0x0du8]);
    if !sends(&enter, &carriage_return) {
        return Err("enter keystroke encoding mismatch".to_owned());
    }
    let alt = Modifiers { alt: true, control: false, shift: false, platform: false, function: false };
    let alt_x = plain_keystroke("x", None, alt);
    let escape_x: [u8; 2] = [0x1b, 0x78];
    proof {
        assert(encode_utf8("x"@) =~= seq![0x78u8]) by {
            assert(vstd::utf8::is_ascii_chars("x"@));
            vstd::utf8::is_ascii_chars_encode_utf8("x"@);
        }
        assert(escape_x@ =~= seq![0x1bu8] + seq![0x78u8]);
    }
    if !sends(&alt_x, &escape_x) {
        return Err("alt-x keystroke encoding mismatch".to_owned());
    }
    let control = Modifiers {
        alt: false,
        control: true,
        shift: false,
        platform: false,
        function: false,
    };
    let ctrl_c = plain_keystroke("c", None, control);
    let end_of_text: [u8; 1] = [0x03];
    assert(end_of_text@ =~= seq![0x03u8]);
    if !sends(&ctrl_c, &end_of_text) {
        return Err("ctrl-c keystroke encoding mismatch".to_owned());
    }
    let chinese = plain_keystroke("x", Some("\u{4f60}".to_owned()), none);
    assert("\u{4f60}"@.len() == 1) by {
        reveal_strlit("\u{4f60}");
    }
    if !sends(&chinese, "\u{4f60}".as_bytes()) {
        return Err("chinese ime keystroke encoding mismatch".to_owned());
    }
    let composing = Keystroke {
        modifiers: none,
        key: "a".to_owned(),
        key_char: None,
        ime_in_progress: true,
    };
    if encode_keystroke(&composing).is_some() {
        return Err("ime in-progress keystroke should not emit bytes".to_owned());
    }
    let platform = Modifiers {
        alt: false,
        control: false,
        shift: false,
        platform: true,
        function: false,
    };
    let cmd_v = plain_keystroke("v", Some("v".to_owned()), platform);
    if encode_keystroke(&cmd_v).is_some() {
        return Err("cmd-v should not be forwarded as raw character".to_owned());
    }
    let colors = Colors::new();
    let (r16, g16, b16) = indexed_to_rgb(16, &colors);
    if r16 != 0 || g16 != 0 || b16 != 0 {
        return Err("indexed color 16 mismatch".to_owned());
    }
    let (r231, g231, b231) = indexed_to_rgb(231, &colors);
    if r231 != 255 || g231 != 255 || b231 != 255 {
        return Err("indexed color 231 mismatch".to_owned());
    }
    if grid.cols < 80 {
        return Err("computed columns too small for 1000px viewport".to_owned());
    }
    if grid.rows < 20 {
        return Err("computed rows too small for 520px viewport".to_owned());
    }
    Ok(())
}

proof fn lemma_last_at_place(items: Seq<IndexedCell>, offset: int, i: int, count: nat)
    requires
        0 <= i < count <= items.len(),
        !items[i].cell.flags.wide_char_spacer,
        forall|k: int|
            i < k < count ==> !((#[trigger] items[k]).line == items[i].line && items[k].column
                == items[i].column && !items[k].cell.flags.wide_char_spacer),
    ensures
        shown_cell(items, offset, items[i].line + offset, items[i].column as int, count) == Some(i),
    decreases count,
{
    if i < count - 1 {
        assert(!(items[count - 1].line == items[i].line && items[count - 1].column
            == items[i].column && !items[count - 1].cell.flags.wide_char_spacer));
        lemma_last_at_place(items, offset, i, (count - 1) as nat);
    }
}

proof fn lemma_none_at_place(
    items: Seq<IndexedCell>,
    offset: int,
    row: int,
    col: int,
    count: nat,
)
    requires
        count <= items.len(),
        forall|k: int|
            0 <= k < count ==> !((#[trigger] items[k]).line + offset == row && items[k].column
                == col && !items[k].cell.flags.wide_char_spacer),
    ensures
        shown_cell(items, offset, row, col, count) is None,
    decreases count,
{
    if count > 0 {
        assert(!(items[count - 1].line + offset == row && items[count - 1].column == col
            && !items[count - 1].cell.flags.wide_char_spacer));
        lemma_none_at_place(items, offset, row, col, (count - 1) as nat);
    }
}

/// Law: the screen shows each cell of the emulator in its column, and in its row,
/// moved down by as many rows as the history is scrolled back; the last one where
/// there are several.
pub proof fn law_the_screen_shows_each_cell(
    cells: Seq<Seq<CellSnapshot>>,
    items: Seq<IndexedCell>,
    colors: Colors,
    forced: Seq<char>,
    offset: int,
    rows: int,
    cols: int,
    i: int,
)
    requires
        is_picture(cells, items, colors, forced, offset, rows, cols, items.len()),
        0 <= i < items.len(),
        0 <= items[i].line + offset < rows,
        items[i].column < cols,
        !items[i].cell.flags.wide_char_spacer,
        forall|k: int|
            i < k < items.len() ==> !((#[trigger] items[k]).line == items[i].line && items[k].column
                == items[i].column && !items[k].cell.flags.wide_char_spacer),
    ensures
        cells.len() == rows,
        cells[items[i].line + offset].len() == cols,
        shows(
            cells[items[i].line + offset][items[i].column as int],
            items[i].cell,
            colors,
            forced,
        ),
{
    lemma_last_at_place(items, offset, i, items.len());
    let row = items[i].line + offset;
    let col = items[i].column as int;
    assert(is_place(cells[row][col], items, colors, forced, offset, row, col, items.len()));
    assert(cells[row].len() == cols);
}

/// Law: where the emulator has no cell, the screen shows a blank.
pub proof fn law_the_screen_is_blank_elsewhere(
    cells: Seq<Seq<CellSnapshot>>,
    items: Seq<IndexedCell>,
    colors: Colors,
    forced: Seq<char>,
    offset: int,
    rows: int,
    cols: int,
    row: int,
    col: int,
)
    requires
        is_picture(cells, items, colors, forced, offset, rows, cols, items.len()),
        0 <= row < rows,
        0 <= col < cols,
        forall|k: int|
            0 <= k < items.len() ==> !((#[trigger] items[k]).line + offset == row && items[k].column
                == col && !items[k].cell.flags.wide_char_spacer),
    ensures
        cells[row][col].ch == ' ',
        cells[row][col].zerowidth@.len() == 0,
        cells[row][col].bg is None,
        cells[row][col].link is None,
{
    lemma_none_at_place(items, offset, row, col, items.len());
    assert(is_place(cells[row][col], items, colors, forced, offset, row, col, items.len()));
}

/// Law: the cursor is where the emulator has it, moved down like its line; outside
/// of the screen it is at the nearest edge.
pub proof fn law_the_place_of_the_cursor(line: int, offset: int, column: int, grid: GridSize)
    requires
        0 < grid.rows,
        0 < grid.cols,
        0 <= column,
    ensures
        ({
            let (row, col) = cursor_place(line, offset, column, grid);
            &&& 0 <= line + offset < grid.rows ==> row == line + offset
            &&& line + offset < 0 ==> row == 0
            &&& line + offset >= grid.rows ==> row == grid.rows - 1
            &&& column < grid.cols ==> col == column
            &&& column >= grid.cols ==> col == grid.cols - 1
        }),
{
}

proof fn lemma_without_blanks(text: Seq<char>)
    ensures
        ({
            let kept = without_blanks(text);
            &&& kept.len() <= text.len()
            &&& kept == text.take(kept.len() as int)
            &&& forall|i: int| kept.len() <= i < text.len() ==> #[trigger] text[i] == ' '
            &&& kept.len() > 0 ==> kept.last() != ' '
        }),
    decreases text.len(),
{
    if text.len() > 0 && text.last() == ' ' {
        let front = text.drop_last();
        lemma_without_blanks(front);
        let kept = without_blanks(text);
        assert(front.take(kept.len() as int) =~= text.take(kept.len() as int));
        assert forall|i: int| kept.len() <= i < text.len() implies #[trigger] text[i] == ' ' by {
            if i < front.len() {
                assert(front[i] == text[i]);
            }
        }
    } else {
        assert(text.take(text.len() as int) =~= text);
    }
}

/// Law: the lines of a screen are its rows, each with one character for each of
/// its narrow cells, in their order; only spaces at its end are left out.
pub proof fn law_lines_of_the_screen(cells: Seq<Seq<CellSnapshot>>, row: int)
    requires
        0 <= row < cells.len(),
        crate::grid_cells::is_narrow(cells[row]),
    ensures
        screen_lines(cells).len() == cells.len(),
        ({
            let line = screen_lines(cells)[row];
            &&& line.len() <= cells[row].len()
            &&& forall|c: int| 0 <= c < line.len() ==> #[trigger] line[c] == cells[row][c].ch
            &&& forall|c: int|
                line.len() <= c < cells[row].len() ==> (#[trigger] cells[row][c]).ch == ' '
            &&& line.len() > 0 ==> line.last() != ' '
        }),
{
    let len = cells[row].len() as int;
    crate::grid_cells::lemma_narrow_text(cells[row], 0, len);
    let text = Seq::new(cells[row].len(), |i: int| cells[row][i].ch);
    assert(cells_text(cells[row], 0, len) =~= text);
    lemma_without_blanks(text);
    let line = screen_lines(cells)[row];
    assert(line == without_blanks(text));
    assert forall|c: int| line.len() <= c < cells[row].len() implies (
    #[trigger] cells[row][c]).ch == ' ' by {
        assert(text[c] == cells[row][c].ch);
    }
    assert forall|c: int| 0 <= c < line.len() implies #[trigger] line[c] == cells[row][c].ch by {
        assert(line[c] == text[c]);
    }
}

/// Law: what the emulator wants done waits as it was said: what is copied and
/// where to, what scrolled by how much, and what was erased. Only titles and
/// answers to the shell do not wait.
pub proof fn law_events_wait_as_they_came<F>(event: TermEvent<F>)
    ensures
        match event {
            TermEvent::ClipboardStore(clipboard, text) => as_pending(event) == Some(
                PendingTerminalEvent::<F>::ClipboardStore(clipboard, text),
            ),
            TermEvent::ClipboardLoad(clipboard, format) => as_pending(event) == Some(
                PendingTerminalEvent::ClipboardLoad(clipboard, format),
            ),
            TermEvent::Scroll { region_top, region_bottom, delta } => as_pending(event) == Some(
                PendingTerminalEvent::<F>::Scroll { region_top, region_bottom, delta },
            ),
            TermEvent::Erase { region_top, region_bottom } => as_pending(event) == Some(
                PendingTerminalEvent::<F>::Erase { region_top, region_bottom },
            ),
            _ => as_pending(event) is None,
        },
{
}

/// Law: a tab is called by the title that the program gave, as it is, unless there
/// is nothing in it but white space; then by the shell.
pub proof fn law_titles_of_tabs(title: Seq<char>, shell: Seq<char>)
    ensures
        title_of(None, shell) == shell,
        (exists|i: int| 0 <= i < title.len() && !whitespace_char(#[trigger] title[i])) ==> title_of(
            Some(title),
            shell,
        ) == title,
        (forall|i: int| 0 <= i < title.len() ==> whitespace_char(#[trigger] title[i])) ==> title_of(
            Some(title),
            shell,
        ) == shell,
{
    crate::chars::law_trimming(title);
    let kept = trimmed(title);
    let from = choose|from: int|
        {
            &&& 0 <= from
            &&& from + kept.len() <= title.len()
            &&& #[trigger] title.subrange(from, from + kept.len()) == kept
            &&& forall|i: int|
                0 <= i < from || from + kept.len() <= i < title.len() ==> whitespace_char(
                    #[trigger] title[i],
                )
        };
    if kept.len() > 0 {
        assert(title.subrange(from, from + kept.len())[0] == title[from]);
    }
}

/// Law: times that passed are the difference of two times, and none where the
/// clock went back; what came in a while is told per second, rounded down.
pub proof fn law_measurements(from: u64, to: u64, count: u128, window_ms: u64)
    requires
        count <= 0xffff_ffff_ffff_ffff_ffff_ffff,
        window_ms > 0,
    ensures
        from <= to ==> elapsed(from, to) == to - from,
        from > to ==> elapsed(from, to) == 0,
        per_second(count, window_ms) * window_ms <= 1000 * count < (per_second(count, window_ms) + 1)
            * window_ms,
{
    let c = count as int;
    let w = window_ms as int;
    let r = (1000 * c) / w;
    vstd::arithmetic::div_mod::lemma_fundamental_div_mod(1000 * c, w);
    vstd::arithmetic::div_mod::lemma_mod_bound(1000 * c, w);
    assert(0 <= r <= 1000 * c) by (nonlinear_arith)
        requires
            r == (1000 * c) / w,
            w > 0,
            c >= 0,
    ;
    assert(w * r == r * w) by (nonlinear_arith);
    assert((r + 1) * w == r * w + w) by (nonlinear_arith);
    assert(count * 1000 == 1000 * c);
    assert(per_second(count, window_ms) == r);
}

/// Law: a snapshot shows the grid of the emulator: at the place of each cell of
/// it, its character in its colours, moved down by what is shown of the history.
/// The snapshot tells of the cursor and of the screen what the emulator does.
pub proof fn law_a_snapshot_shows_the_emulator(
    snapshot: ScreenSnapshot,
    content: TermContent,
    grid: GridSize,
    forced: Seq<char>,
    i: int,
)
    requires
        is_screen(snapshot, content, grid, forced),
        0 <= i < content.cells@.len(),
        0 <= content.cells@[i].line + content.display_offset < grid.rows,
        content.cells@[i].column < grid.cols,
        !content.cells@[i].cell.flags.wide_char_spacer,
        forall|k: int|
            i < k < content.cells@.len() ==> !((#[trigger] content.cells@[k]).line
                == content.cells@[i].line && content.cells@[k].column == content.cells@[i].column
                && !content.cells@[k].cell.flags.wide_char_spacer),
    ensures
        ({
            let item = content.cells@[i];
            let rows = snapshot.cells@;
            let row = rows[item.line + content.display_offset]@;
            let shown = row[item.column as int];
            &&& rows.len() == grid.rows
            &&& row.len() == grid.cols
            &&& !item.cell.flags.hidden ==> shown.ch == item.cell.c && shown.zerowidth@
                == item.cell.zerowidth@
            &&& item.cell.flags.hidden ==> shown.ch == ' ' && shown.zerowidth@.len() == 0
            &&& (shown.fg, shown.bg) == cell_colors(item.cell, content.colors)
            &&& shown.bold == item.cell.flags.bold
            &&& shown.italic == item.cell.flags.italic
            &&& shown.spans_next_col == item.cell.flags.wide_char
        }),
        snapshot.cursor_visible <==> content.cursor_shape != CursorShape::Hidden,
        snapshot.alt_screen == content.alt_screen,
{
    let views = row_views(snapshot.cells@);
    let raw = choose|raw: Seq<Seq<CellSnapshot>>|
        #![trigger all_annotated(views, raw)]
        is_picture(
            raw,
            content.cells@,
            content.colors,
            forced,
            content.display_offset as int,
            grid.rows as int,
            grid.cols as int,
            content.cells@.len(),
        ) && all_annotated(views, raw);
    law_the_screen_shows_each_cell(
        raw,
        content.cells@,
        content.colors,
        forced,
        content.display_offset as int,
        grid.rows as int,
        grid.cols as int,
        i,
    );
    let r = content.cells@[i].line + content.display_offset;
    let c = content.cells@[i].column as int;
    assert(views[r] == snapshot.cells@[r]@);
    assert(is_annotated(views[r], raw[r]));
    law_cells_show_what_they_hold(raw[r][c], content.cells@[i].cell, content.colors, forced);
    assert(views[r][c] == (CellSnapshot { link: views[r][c].link, ..raw[r][c] }));
}

/// Law: a still picture has a line for every row of the history and the screen,
/// with a cell for every cell: its character, or a blank behind a wide one.
pub proof fn law_a_still_picture_shows_the_history(
    lines: Seq<Seq<CellSnapshot>>,
    rows: Seq<Vec<Cell>>,
    colors: Colors,
    forced: Seq<char>,
    r: int,
    c: int,
)
    requires
        is_history(lines, rows, colors, forced),
        0 <= r < rows.len(),
        0 <= c < rows[r]@.len(),
    ensures
        lines.len() == rows.len(),
        lines[r].len() == rows[r]@.len(),
        ({
            let cell = rows[r]@[c];
            let shown = lines[r][c];
            &&& cell.flags.wide_char_spacer ==> shown.ch == ' ' && shown.zerowidth@.len() == 0
                && shown.bg is None && !shown.spans_next_col
            &&& !cell.flags.wide_char_spacer && !cell.flags.hidden ==> shown.ch == cell.c
                && shown.zerowidth@ == cell.zerowidth@
            &&& !cell.flags.wide_char_spacer && cell.flags.hidden ==> shown.ch == ' '
            &&& !cell.flags.wide_char_spacer ==> (shown.fg, shown.bg) == cell_colors(cell, colors)
                && shown.bold == cell.flags.bold && shown.spans_next_col == cell.flags.wide_char
        }),
{
    assert(is_history_line(lines[r], rows[r]@, colors, forced));
    let raw = choose|raw: Seq<CellSnapshot>|
        is_history_row(raw, rows[r]@, colors, forced) && #[trigger] is_annotated(lines[r], raw);
    assert(lines[r][c] == (CellSnapshot { link: lines[r][c].link, ..raw[c] }));
    if !rows[r]@[c].flags.wide_char_spacer {
        assert(shows(raw[c], rows[r]@[c], colors, forced));
        law_cells_show_what_they_hold(raw[c], rows[r]@[c], colors, forced);
    } else {
        assert(is_blank_cell(raw[c], foreground(colors)));
    }
}

/// Law: every character of the texts that is no white space is drawn wide, and
/// no other.
pub proof fn law_wide_characters(texts: Seq<Seq<char>>, i: int, k: int, c: char)
    requires
        0 <= i < texts.len(),
        0 <= k < texts[i].len(),
    ensures
        wide_chars(texts, texts[i][k]) <==> !whitespace_char(texts[i][k]),
        wide_chars(texts, c) ==> exists|t: int|
            0 <= t < texts.len() && (#[trigger] texts[t]).contains(c),
{
    assert(texts[i].contains(texts[i][k]));
}

/// Law: text goes to the emulator as it came, and so does what is no picture; a
/// picture does not go there.
pub proof fn law_what_is_no_picture_passes(
    step: StreamStep,
    action: SixelStreamAction,
    row: usize,
    col: usize,
)
    requires
        is_step(step, action, row, col),
    ensures
        match action {
            SixelStreamAction::Bytes(bytes) => step is Advance && step->Advance_0@ == bytes@,
            SixelStreamAction::UnknownDcs(raw) => step is Advance && step->Advance_0@ == raw@,
            SixelStreamAction::Sixel(payload) => !(step is Advance),
            SixelStreamAction::TmuxPassthrough { payload, raw } => {
                &&& step is Advance ==> step->Advance_0@ == raw@
                &&& tmux_sixel_payload(payload@) is None ==> step is Advance
                &&& !(step is Nothing)
            },
        },
{
}

} // verus!
