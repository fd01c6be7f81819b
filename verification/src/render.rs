//! What is painted, and where, in columns and rows: the cells of a row, links
//! under the mouse, images, the cursor, and the colours of a theme.
use vstd::prelude::*;

use crate::cli::Theme;
use crate::grid_cells::{
    advance, cell_advance_cols, distance, extra_cols, in_selection, row_views,
    selection_contains_cell, visual_extra_cols_before, widening, CellSnapshot, SelectionPoint,
};
use crate::sixel::images::TerminalImage;

verus! {

/// The colours of a theme: red, green and blue, or with alpha behind them.
#[derive(Clone, Copy, Debug, PartialEq, Eq, Structural)]
pub struct RenderPalette {
    pub app_bg: u32,
    pub terminal_bg: u32,
    pub title_bg: u32,
    pub title_fg: u32,
    /// With alpha.
    pub selection_bg: u32,
    /// With alpha.
    pub cursor_bg: u32,
    /// Text that belongs to no cell, such as a composition.
    pub foreground: u32,
}

pub open spec fn theme_palette(theme: Theme) -> RenderPalette {
    match theme {
        Theme::Default => RenderPalette {
            app_bg: 0x0f1115,
            terminal_bg: 0x000000,
            title_bg: 0x171a21,
            title_fg: 0xa9b1c6,
            selection_bg: 0x4b93ffaa,
            cursor_bg: 0xffea00a6,
            foreground: 0xd7dae0,
        },
        Theme::EyeCare => RenderPalette {
            app_bg: 0x151b17,
            terminal_bg: 0x1b241e,
            title_bg: 0x222d26,
            title_fg: 0xc0cbbd,
            selection_bg: 0x7ca67899,
            cursor_bg: 0xffea00a6,
            foreground: 0xccd6c8,
        },
    }
}

pub fn palette_for(theme: Theme) -> (palette: RenderPalette)
    ensures
        palette == theme_palette(theme),
{
    match theme {
        Theme::Default => RenderPalette {
            app_bg: 0x0f1115,
            terminal_bg: 0x000000,
            title_bg: 0x171a21,
            title_fg: 0xa9b1c6,
            selection_bg: 0x4b93ffaa,
            cursor_bg: 0xffea00a6,
            foreground: 0xd7dae0,
        },
        Theme::EyeCare => RenderPalette {
            app_bg: 0x151b17,
            terminal_bg: 0x1b241e,
            title_bg: 0x222d26,
            title_fg: 0xc0cbbd,
            selection_bg: 0x7ca67899,
            cursor_bg: 0xffea00a6,
            foreground: 0xccd6c8,
        },
    }
}

/// A line under a text.
#[derive(Clone, Copy, Debug, PartialEq, Eq, Structural)]
pub struct Underline {
    pub red: u8,
    pub green: u8,
    pub blue: u8,
    pub wavy: bool,
}

/// A text with its style.
pub struct PaintText {
    pub text: String,
    pub color: (u8, u8, u8),
    pub bold: bool,
    pub italic: bool,
    pub underline: Option<Underline>,
    /// The colour of the line through the text, where it has one.
    pub strikethrough: Option<(u8, u8, u8)>,
}

/// What is painted for a cell.
pub struct PaintCell {
    /// Its column in the grid.
    pub col: usize,
    /// The column at which it is drawn.
    pub visual_col: usize,
    pub width_cols: u8,
    pub bg: Option<(u8, u8, u8)>,
    pub selected: bool,
    /// None for a blank.
    pub text: Option<PaintText>,
}

pub open spec fn is_selected(
    selection: Option<(SelectionPoint, SelectionPoint)>,
    row: usize,
    col: usize,
) -> bool {
    match selection {
        Some((start, end)) => in_selection(start, end, row, col),
        None => false,
    }
}

/// The colour of a cell's text: that of links, where links have one and the
/// cell is part of a link.
pub open spec fn text_color(cell: CellSnapshot, link_color: Option<(u8, u8, u8)>) -> (u8, u8, u8) {
    match (link_color, cell.link) {
        (Some(color), Some(_)) => color,
        _ => cell.fg,
    }
}

/// Whether a text is underlined: by its own style, or because it is a link.
pub open spec fn is_underlined(cell: CellSnapshot, link_color: Option<(u8, u8, u8)>) -> bool {
    cell.underline || (link_color is Some && cell.link is Some)
}

/// The colour of the line through a text: the cell's own, on a link too.
pub open spec fn strike_color(cell: CellSnapshot) -> Option<(u8, u8, u8)> {
    if cell.strikethrough {
        Some(cell.fg)
    } else {
        None
    }
}

/// Whether this is what is painted for a cell that is drawn at a column.
pub open spec fn paints(
    paint: PaintCell,
    cell: CellSnapshot,
    col: int,
    visual_col: int,
    selection: Option<(SelectionPoint, SelectionPoint)>,
    row: usize,
    link_color: Option<(u8, u8, u8)>,
) -> bool {
    &&& paint.col == col
    &&& paint.visual_col == visual_col
    &&& paint.width_cols == cell.width_cols
    &&& paint.bg == cell.bg
    &&& paint.selected == is_selected(selection, row, col as usize)
    &&& match paint.text {
        None => cell.chars() == seq![' '],
        Some(text) => {
            let color = text_color(cell, link_color);
            &&& cell.chars() != seq![' ']
            &&& text.text@ == cell.chars()
            &&& text.color == color
            &&& text.bold == cell.bold
            &&& text.italic == cell.italic
            &&& text.strikethrough == strike_color(cell)
            &&& text.underline == if is_underlined(cell, link_color) {
                Some(
                    Underline {
                        red: color.0,
                        green: color.1,
                        blue: color.2,
                        wavy: cell.undercurl,
                    },
                )
            } else {
                None
            }
        },
    }
}

/// The columns of a row that hold a cell of their own, from a column on.
pub open spec fn content_cols(row: Seq<CellSnapshot>, col: int) -> Seq<int>
    decreases distance(col, row.len() as int),
{
    if 0 <= col < row.len() {
        seq![col] + content_cols(row, col + advance(row[col]))
    } else {
        Seq::empty()
    }
}

/// Whether this is what is painted for a row: each cell once, spacers not at
/// all, and each where the wide cells before it leave room.
pub open spec fn paints_row(
    paints_list: Seq<PaintCell>,
    row: Seq<CellSnapshot>,
    selection: Option<(SelectionPoint, SelectionPoint)>,
    row_index: usize,
    link_color: Option<(u8, u8, u8)>,
) -> bool {
    let cols = content_cols(row, 0);
    &&& paints_list.len() == cols.len()
    &&& forall|k: int|
        0 <= k < cols.len() ==> paints(
            #[trigger] paints_list[k],
            row[cols[k]],
            cols[k],
            cols[k] + extra_cols(row, 0, cols[k]),
            selection,
            row_index,
            link_color,
        )
}

proof fn lemma_extra_step(row: Seq<CellSnapshot>, from: int, col: int)
    requires
        0 <= from <= col < row.len(),
        crate::grid_cells::is_content_col(row, from, col),
    ensures
        extra_cols(row, from, col + advance(row[col])) == extra_cols(row, from, col) + widening(
            row[col],
        ),
    decreases col - from,
{
    if from == col {
        assert(extra_cols(row, from, col) == 0);
        let next = col + advance(row[col]);
        assert(extra_cols(row, next, next) == 0);
    } else {
        crate::grid_cells::lemma_content_col_is_behind(row, from, col);
        lemma_extra_step(row, from + advance(row[from]), col);
    }
}

proof fn lemma_next_is_content(row: Seq<CellSnapshot>, from: int, col: int)
    requires
        crate::grid_cells::is_content_col(row, from, col),
        col + advance(row[col]) < row.len(),
    ensures
        crate::grid_cells::is_content_col(row, from, col + advance(row[col])),
    decreases distance(from, row.len() as int),
{
    crate::grid_cells::lemma_content_col_is_behind(row, from, col);
    if from != col {
        lemma_next_is_content(row, from + advance(row[from]), col);
    } else {
        assert(crate::grid_cells::is_content_col(
            row,
            col + advance(row[col]),
            col + advance(row[col]),
        ));
    }
}

fn paint_cell(
    cell: &CellSnapshot,
    col: usize,
    visual_col: usize,
    selected: bool,
    link_color: Option<(u8, u8, u8)>,
) -> (paint: PaintCell)
    ensures
        forall|selection: Option<(SelectionPoint, SelectionPoint)>, row: usize|
            selected == is_selected(selection, row, col) ==> #[trigger] paints(
                paint,
                *cell,
                col as int,
                visual_col as int,
                selection,
                row,
                link_color,
            ),
{
    let text: Option<PaintText> = if cell.is_blank() {
        None
    } else {
        let linked = cell.link.is_some();
        let color = match link_color {
            Some(color) => if linked {
                color
            } else {
                cell.fg
            },
            None => cell.fg,
        };
        let underlined = cell.underline || (link_color.is_some() && linked);
        Some(
            PaintText {
                text: cell.text(),
                color,
                bold: cell.bold,
                italic: cell.italic,
                underline: if underlined {
                    Some(
                        Underline {
                            red: color.0,
                            green: color.1,
                            blue: color.2,
                            wavy: cell.undercurl,
                        },
                    )
                } else {
                    None
                },
                strikethrough: if cell.strikethrough {
                    Some(cell.fg)
                } else {
                    None
                },
            },
        )
    };
    PaintCell { col, visual_col, width_cols: cell.width_cols, bg: cell.bg, selected, text }
}

/// What is painted for a row.
pub fn paint_row(
    row: &[CellSnapshot],
    row_index: usize,
    selection: Option<(SelectionPoint, SelectionPoint)>,
    link_color: Option<(u8, u8, u8)>,
) -> (paints_list: Vec<PaintCell>)
    requires
        256 * (row@.len() + 1) <= usize::MAX,
    ensures
        paints_row(paints_list@, row@, selection, row_index, link_color),
{
    let ghost cols = content_cols(row@, 0);
    let mut list: Vec<PaintCell> = Vec::new();
    let mut col: usize = 0;
    let mut extra: usize = 0;
    let ghost mut done: Seq<int> = Seq::empty();
    assert(done + content_cols(row@, 0) =~= cols);
    while col < row.len()
        invariant
            256 * (row@.len() + 1) <= usize::MAX,
            col <= row@.len(),
            extra <= 255 * col,
            cols == content_cols(row@, 0),
            done + content_cols(row@, col as int) == cols,
            list@.len() == done.len(),
            col < row@.len() ==> crate::grid_cells::is_content_col(row@, 0, col as int),
            col < row@.len() ==> extra == extra_cols(row@, 0, col as int),
            forall|k: int|
                0 <= k < done.len() ==> paints(
                    #[trigger] list@[k],
                    row@[done[k]],
                    done[k],
                    done[k] + extra_cols(row@, 0, done[k]),
                    selection,
                    row_index,
                    link_color,
                ),
        decreases row@.len() - col,
    {
        let cell: &CellSnapshot = &row[col];
        let selected = match selection {
            Some((start, end)) => selection_contains_cell(start, end, row_index, col),
            None => false,
        };
        let ghost held = list@;
        let ghost before = done;
        let paint = paint_cell(cell, col, col + extra, selected, link_color);
        list.push(paint);
        let step: usize = cell_advance_cols(cell);
        proof {
            done = before.push(col as int);
            assert(before + (seq![col as int] + content_cols(row@, col + step)) =~= done
                + content_cols(row@, col + step));
            assert forall|k: int| 0 <= k < done.len() implies paints(
                #[trigger] list@[k],
                row@[done[k]],
                done[k],
                done[k] + extra_cols(row@, 0, done[k]),
                selection,
                row_index,
                link_color,
            ) by {
                if k < before.len() {
                    assert(list@[k] == held[k]);
                    assert(done[k] == before[k]);
                } else {
                    assert(list@[k] == paint);
                    assert(done[k] == col);
                }
            }
            lemma_extra_step(row@, 0, col as int);
            if col + step < row@.len() {
                lemma_next_is_content(row@, 0, col as int);
            }
        }
        if cell.expands_layout && cell.width_cols > 1 {
            extra += (cell.width_cols - 1) as usize;
        }
        if step < row.len() - col {
            col += step;
        } else {
            assert(content_cols(row@, col + step) =~= content_cols(row@, row@.len() as int));
            col = row.len();
        }
    }
    assert(done =~= cols);
    list
}

/// The first cell with a link, from a column on, that is drawn over a place:
/// its column and the one at which it is drawn.
pub open spec fn link_under(
    row: Seq<CellSnapshot>,
    visual_col: int,
    col: int,
    extra: int,
) -> Option<(int, int)>
    decreases distance(col, row.len() as int),
{
    if 0 <= col < row.len() {
        let x = col + extra;
        if row[col].link is Some && x <= visual_col < x + row[col].width_cols {
            Some((col, x))
        } else {
            link_under(row, visual_col, col + advance(row[col]), extra + widening(row[col]))
        }
    } else {
        None
    }
}

/// The cell with a link that is drawn over a column of the screen: its column,
/// the one at which it is drawn, and its width.
pub fn link_hover_cell(row: &[CellSnapshot], visual_col: usize) -> (r: Option<(usize, usize, u8)>)
    requires
        256 * (row@.len() + 1) <= usize::MAX,
    ensures
        match r {
            Some((col, x, width)) => link_under(row@, visual_col as int, 0, 0) == Some(
                (col as int, x as int),
            ) && col < row@.len() && width == row@[col as int].width_cols,
            None => link_under(row@, visual_col as int, 0, 0) is None,
        },
{
    let mut col: usize = 0;
    let mut extra: usize = 0;
    while col < row.len()
        invariant
            256 * (row@.len() + 1) <= usize::MAX,
            col <= row@.len(),
            extra <= 255 * col,
            link_under(row@, visual_col as int, col as int, extra as int) == link_under(
                row@,
                visual_col as int,
                0,
                0,
            ),
        decreases row@.len() - col,
    {
        let cell: &CellSnapshot = &row[col];
        let x: usize = col + extra;
        if cell.link.is_some() && x <= visual_col && visual_col - x < cell.width_cols as usize {
            return Some((col, x, cell.width_cols));
        }
        if cell.expands_layout && cell.width_cols > 1 {
            extra += (cell.width_cols - 1) as usize;
        }
        let step: usize = cell_advance_cols(cell);
        if step < row.len() - col {
            col += step;
        } else {
            assert(link_under(row@, visual_col as int, col + step, extra as int) is None);
            col = row.len();
        }
    }
    None
}

/// The link of a cell, if it has one.
pub fn link_at(cells: &[Vec<CellSnapshot>], row: usize, col: usize) -> (link: Option<String>)
    ensures
        crate::grid_cells::link_text(link) == if row < cells@.len() && col
            < row_views(cells@)[row as int].len() {
            crate::grid_cells::link_text(row_views(cells@)[row as int][col as int].link)
        } else {
            None
        },
{
    if row >= cells.len() || col >= cells[row].len() {
        return None;
    }
    match &cells[row][col].link {
        Some(link) => Some(link.clone()),
        None => None,
    }
}

/// Whether an image is on the screen that is shown, and within its rows.
pub open spec fn image_shows<T>(
    image: TerminalImage<T>,
    alt_screen: bool,
    rows: int,
) -> bool {
    image.alt_screen == alt_screen && image.meets(0, rows)
}

pub fn image_is_visible<T>(image: &TerminalImage<T>, alt_screen: bool, rows: usize) -> (r: bool)
    ensures
        r == image_shows(*image, alt_screen, rows as int),
{
    image.alt_screen == alt_screen && (image.row as i128) < rows as i128 && image.row as i128
        + image.rows as i128 > 0
}

/// How far to the right of its column something in a row is drawn.
pub open spec fn offset_in_row(cells: Seq<Seq<CellSnapshot>>, row: int, col: int) -> int {
    if 0 <= row < cells.len() {
        extra_cols(cells[row], 0, col)
    } else {
        0
    }
}

pub fn visual_offset(cells: &[Vec<CellSnapshot>], row: usize, col: usize) -> (extra: usize)
    requires
        forall|i: int|
            0 <= i < cells@.len() ==> 255 * (#[trigger] cells@[i])@.len() <= usize::MAX,
    ensures
        extra == offset_in_row(row_views(cells@), row as int, col as int),
{
    if row < cells.len() {
        assert(row_views(cells@)[row as int] == cells@[row as int]@);
        visual_extra_cols_before(cells[row].as_slice(), col)
    } else {
        0
    }
}

/// How many columns the cursor covers: those of the cell that it is on.
pub fn cursor_width_cols(cells: &[Vec<CellSnapshot>], row: usize, col: usize) -> (width: u8)
    ensures
        width == if row < cells@.len() && col < row_views(cells@)[row as int].len()
            && row_views(cells@)[row as int][col as int].width_cols > 1 {
            row_views(cells@)[row as int][col as int].width_cols
        } else {
            1
        },
{
    if row >= cells.len() || col >= cells[row].len() {
        return 1;
    }
    let width: u8 = cells[row][col].width_cols;
    if width > 1 {
        width
    } else {
        1
    }
}

/// The line at the bottom of the window.
pub fn status_line(shell: &str, status: &str, note: &Option<String>) -> (line: String)
    ensures
        line@ == match note {
            Some(text) => "agent terminal | "@ + shell@ + " | "@ + status@ + " | note: "@ + text@,
            None => "agent terminal | "@ + shell@ + " | "@ + status@,
        },
{
    let mut out: Vec<char> = Vec::new();
    crate::chars::push_text(&mut out, "agent terminal | ");
    crate::chars::push_text(&mut out, shell);
    crate::chars::push_text(&mut out, " | ");
    crate::chars::push_text(&mut out, status);
    if let Some(text) = note {
        crate::chars::push_text(&mut out, " | note: ");
        crate::chars::push_text(&mut out, text.as_str());
    }
    crate::chars::text_of(out.as_slice())
}

/// Law: what is painted for a cell is its text in its own style: its colour, or
/// that of links where it is part of one; a line below where it has one or is part
/// of a link, in the colour of the text; a line through it in its own colour; and
/// behind it its own background. A blank has no text.
pub proof fn law_cells_are_painted_in_their_style(
    paint: PaintCell,
    cell: CellSnapshot,
    col: int,
    visual_col: int,
    selection: Option<(SelectionPoint, SelectionPoint)>,
    row: usize,
    link_color: Option<(u8, u8, u8)>,
)
    requires
        paints(paint, cell, col, visual_col, selection, row, link_color),
    ensures
        paint.col == col && paint.visual_col == visual_col && paint.width_cols == cell.width_cols,
        paint.bg == cell.bg,
        cell.ch != ' ' ==> paint.text is Some,
        cell.ch == ' ' && cell.zerowidth@.len() == 0 ==> paint.text is None,
        paint.text matches Some(text) ==> {
            let linked = cell.link is Some && link_color is Some;
            &&& text.text@ == seq![cell.ch] + cell.zerowidth@
            &&& linked ==> Some(text.color) == link_color
            &&& !linked ==> text.color == cell.fg
            &&& text.bold == cell.bold
            &&& text.italic == cell.italic
            &&& text.strikethrough == if cell.strikethrough {
                Some(cell.fg)
            } else {
                None
            }
            &&& text.underline is Some <==> cell.underline || linked
            &&& text.underline matches Some(line) ==> (line.red, line.green, line.blue)
                == text.color && line.wavy == cell.undercurl
        },
        selection is None ==> !paint.selected,
{
    assert(seq![' '].len() == 1 && seq![' '][0] == ' ');
    assert(cell.chars()[0] == cell.ch);
    assert(cell.chars().len() == 1 + cell.zerowidth@.len());
    if cell.ch == ' ' && cell.zerowidth@.len() == 0 {
        assert(cell.chars() =~= seq![' ']);
    }
}

proof fn lemma_narrow_content(row: Seq<CellSnapshot>, col: int)
    requires
        forall|c: int| 0 <= c < row.len() ==> !(#[trigger] row[c]).spans_next_col,
        0 <= col <= row.len(),
    ensures
        content_cols(row, col) == Seq::new((row.len() - col) as nat, |i: int| col + i),
    decreases row.len() - col,
{
    let all = Seq::new((row.len() - col) as nat, |i: int| col + i);
    if col < row.len() {
        assert(!row[col].spans_next_col);
        lemma_narrow_content(row, col + 1);
        assert(content_cols(row, col) =~= all);
    } else {
        assert(content_cols(row, col) =~= all);
    }
}

/// Law: in a row without wide characters every cell is painted once, from the
/// first to the last.
pub proof fn law_every_cell_is_painted(
    paints_list: Seq<PaintCell>,
    row: Seq<CellSnapshot>,
    selection: Option<(SelectionPoint, SelectionPoint)>,
    row_index: usize,
    link_color: Option<(u8, u8, u8)>,
    c: int,
)
    requires
        paints_row(paints_list, row, selection, row_index, link_color),
        forall|c: int| 0 <= c < row.len() ==> !(#[trigger] row[c]).spans_next_col,
        0 <= c < row.len(),
    ensures
        paints_list.len() == row.len(),
        paints(
            paints_list[c],
            row[c],
            c,
            c + extra_cols(row, 0, c),
            selection,
            row_index,
            link_color,
        ),
{
    lemma_narrow_content(row, 0);
    let cols = content_cols(row, 0);
    assert(cols[c] == c);
}

/// Law: a cell is marked as selected where it lies between the ends of the
/// selection in reading order.
pub proof fn law_selected_cells(start: SelectionPoint, end: SelectionPoint, row: usize, col: usize)
    ensures
        is_selected(Some((start, end)), row, col) <==> (start.row < row || start.row == row
            && start.col <= col) && (row < end.row || row == end.row && col <= end.col),
        !is_selected(None, row, col),
{
}

proof fn lemma_link_under(row: Seq<CellSnapshot>, visual_col: int, col: int, extra: int)
    requires
        0 <= col,
        col >= row.len() || crate::grid_cells::is_content_col(row, 0, col),
        col < row.len() ==> extra == extra_cols(row, 0, col),
    ensures
        link_under(row, visual_col, col, extra) matches Some((at, x)) ==> {
            &&& 0 <= at < row.len()
            &&& row[at].link is Some
            &&& x == at + extra_cols(row, 0, at)
            &&& x <= visual_col < x + row[at].width_cols
        },
    decreases distance(col, row.len() as int),
{
    if col < row.len() && !(row[col].link is Some && col + extra <= visual_col < col + extra
        + row[col].width_cols) {
        crate::grid_cells::lemma_one_more_column(row, 0, col);
        if col + advance(row[col]) < row.len() {
            lemma_next_is_content(row, 0, col);
        }
        lemma_link_under(row, visual_col, col + advance(row[col]), extra + widening(row[col]));
    }
}

proof fn lemma_link_under_narrow(row: Seq<CellSnapshot>, visual_col: int, col: int)
    requires
        forall|c: int|
            0 <= c < row.len() ==> !(#[trigger] row[c]).spans_next_col && !row[c].expands_layout
                && row[c].width_cols == 1,
        0 <= col <= visual_col < row.len(),
        row[visual_col].link is Some,
    ensures
        link_under(row, visual_col, col, 0) == Some((visual_col, visual_col)),
    decreases visual_col - col,
{
    let cell = row[col];
    assert(!cell.spans_next_col && !cell.expands_layout && cell.width_cols == 1);
    if col < visual_col {
        lemma_link_under_narrow(row, visual_col, col + 1);
    }
}

/// Law: the link under the mouse is that of a cell which is drawn there, and in a
/// row of narrow cells a link under the mouse is always found.
pub proof fn law_links_under_the_mouse(row: Seq<CellSnapshot>, visual_col: int)
    requires
        row.len() > 0,
    ensures
        link_under(row, visual_col, 0, 0) matches Some((at, x)) ==> {
            &&& 0 <= at < row.len()
            &&& row[at].link is Some
            &&& x == at + extra_cols(row, 0, at)
            &&& x <= visual_col < x + row[at].width_cols
        },
        0 <= visual_col < row.len() && row[visual_col].link is Some && (forall|c: int|
            0 <= c < row.len() ==> !(#[trigger] row[c]).spans_next_col && !row[c].expands_layout
                && row[c].width_cols == 1) ==> link_under(row, visual_col, 0, 0) == Some(
            (visual_col, visual_col),
        ),
{
    lemma_link_under(row, visual_col, 0, 0);
    if 0 <= visual_col < row.len() && row[visual_col].link is Some && (forall|c: int|
        0 <= c < row.len() ==> !(#[trigger] row[c]).spans_next_col && !row[c].expands_layout
            && row[c].width_cols == 1) {
        lemma_link_under_narrow(row, visual_col, 0);
    }
}

/// Law: an image is shown on its own screen, where at least one of its rows is
/// between the first and the last one of the screen.
pub proof fn law_images_that_are_shown<T>(image: TerminalImage<T>, alt_screen: bool, rows: int, r: int)
    requires
        image.wf(),
        0 <= rows,
    ensures
        image.alt_screen != alt_screen ==> !image_shows(image, alt_screen, rows),
        image.alt_screen == alt_screen && 0 <= r < rows && image.row <= r < image.row + image.rows
            ==> image_shows(image, alt_screen, rows),
        image.row >= rows || image.row + image.rows <= 0 ==> !image_shows(image, alt_screen, rows),
{
}

/// Law: the colours of the two themes.
pub proof fn law_colors_of_themes()
    ensures
        theme_palette(Theme::Default) == (RenderPalette {
            app_bg: 0x0f1115,
            terminal_bg: 0x000000,
            title_bg: 0x171a21,
            title_fg: 0xa9b1c6,
            selection_bg: 0x4b93ffaa,
            cursor_bg: 0xffea00a6,
            foreground: 0xd7dae0,
        }),
        theme_palette(Theme::EyeCare) == (RenderPalette {
            app_bg: 0x151b17,
            terminal_bg: 0x1b241e,
            title_bg: 0x222d26,
            title_fg: 0xc0cbbd,
            selection_bg: 0x7ca67899,
            cursor_bg: 0xffea00a6,
            foreground: 0xccd6c8,
        }),
{
}

/// Law: what stands in a row is drawn as far to the right as the cells before it
/// are drawn wider than they are; outside the rows nothing moves.
pub proof fn law_offsets_in_rows(cells: Seq<Seq<CellSnapshot>>, row: int, col: int)
    ensures
        0 <= row < cells.len() ==> offset_in_row(cells, row, col) == extra_cols(
            cells[row],
            0,
            col,
        ),
        row < 0 || row >= cells.len() ==> offset_in_row(cells, row, col) == 0,
        offset_in_row(cells, row, 0) == 0,
{
}

} // verus!
