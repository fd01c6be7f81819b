//! A tab with a still picture of a terminal: it can be scrolled, selected from
//! and copied.
use vstd::prelude::*;

use crate::chars::{
    ascii_lower, ascii_lower_text, law_trimming_the_end, same_text_ignoring_case, text_of,
    trim_end_from, trimmed_end, whitespace_char,
};
use crate::grid_cells::{
    advance, cell_at_visual_col, cells_text, drawn_width, extra_cols, extract_selection_text,
    has_paired_spacers, is_content_col, is_narrow, joined_selection, law_snapping_is_stable,
    law_the_last_column_ends_the_text, law_visual_columns_map_back, lemma_narrow_text,
    lemma_snapped_col_bounds, logical_col_for_visual_col, normalize_selection_bounds,
    normalize_selection_col, ordered_bounds, push_cells_text, row_views, selected_line, selection_text, snapped_col, CellSnapshot, SelectionPoint,
};
use crate::keyboard::{select_all_shortcut, Keystroke};
use crate::mouse::between;

verus! {

pub struct SnapshotTab {
    title: String,
    lines: Vec<Vec<CellSnapshot>>,
    cols: usize,
    top_line: usize,
    selection_anchor: Option<SelectionPoint>,
    selection_focus: Option<SelectionPoint>,
}

pub ghost struct SnapshotView {
    pub title: Seq<char>,
    pub lines: Seq<Seq<CellSnapshot>>,
    pub cols: int,
    /// The first line on the screen.
    pub top_line: int,
    pub anchor: Option<SelectionPoint>,
    pub focus: Option<SelectionPoint>,
}

impl View for SnapshotTab {
    type V = SnapshotView;

    closed spec fn view(&self) -> SnapshotView {
        SnapshotView {
            title: self.title@,
            lines: row_views(self.lines@),
            cols: self.cols as int,
            top_line: self.top_line as int,
            anchor: self.selection_anchor,
            focus: self.selection_focus,
        }
    }
}

pub open spec fn less_or_zero(a: int, b: int) -> int {
    if a < b {
        0
    } else {
        a - b
    }
}

impl SnapshotView {
    pub open spec fn wf(self) -> bool {
        1 <= self.cols
    }

    /// A place brought into the picture, and from a spacer to its character.
    pub open spec fn point(self, row: int, col: int) -> SelectionPoint {
        let safe_row = between(row, 0, less_or_zero(self.lines.len() as int, 1));
        let safe_col = if safe_row < self.lines.len() {
            snapped_col(self.lines[safe_row], between(col, 0, self.cols - 1))
        } else {
            0
        };
        SelectionPoint { row: safe_row as usize, col: safe_col as usize }
    }

    /// The place at a cell of the screen. A column of the screen is mapped back
    /// to a column of the line as its cells are drawn.
    pub open spec fn point_on_screen(self, row: int, col: int, visible_rows: int) -> SelectionPoint {
        let hit = between(
            self.top_line + between(row, 0, visible_rows - 1),
            0,
            less_or_zero(self.lines.len() as int, 1),
        );
        let visual = if col < 0 {
            0
        } else {
            col
        };
        self.point(
            hit,
            if hit < self.lines.len() && self.lines[hit].len() > 0 {
                cell_at_visual_col(self.lines[hit], visual, 0, 0, 0)
            } else {
                visual
            },
        )
    }

    pub open spec fn bounds(self) -> Option<(SelectionPoint, SelectionPoint)> {
        match (self.anchor, self.focus) {
            (Some(a), Some(f)) => Some(ordered_bounds(a, f)),
            _ => None,
        }
    }

    /// The text of the selection, if there is a selection with text.
    pub open spec fn selected(self) -> Option<Seq<char>> {
        match self.bounds() {
            Some((start, end)) => if selection_text(self.lines, start, end).len() == 0 {
                None
            } else {
                Some(selection_text(self.lines, start, end))
            },
            None => None,
        }
    }

    /// The last line that can be on top, so that the screen is full.
    pub open spec fn max_top(self, visible_rows: int) -> int {
        less_or_zero(self.lines.len() as int, visible_rows)
    }
}

/// A line without the blanks at its end.
pub open spec fn line_text(cells: Seq<CellSnapshot>) -> Seq<char> {
    trimmed_end(cells_text(cells, 0, cells.len() as int))
}

/// The first `count` lines, joined by line feeds.
pub open spec fn joined(lines: Seq<Seq<CellSnapshot>>, count: nat) -> Seq<char>
    decreases count,
{
    if count == 0 {
        Seq::empty()
    } else if count == 1 {
        line_text(lines[0])
    } else {
        joined(lines, (count - 1) as nat) + seq!['\n'] + line_text(lines[count - 1])
    }
}

/// What a key does to the tab.
pub enum SnapshotAction {
    /// Put this text on the clipboard.
    Copy(String),
    /// The selection changed.
    Changed,
    Ignored,
}

/// Command and C, where the platform has a command key.
pub open spec fn is_copy(keystroke: Keystroke, has_command_key: bool) -> bool {
    let m = keystroke.modifiers;
    has_command_key && m.platform && !m.control && !m.alt && !m.function && ascii_lower_text(
        keystroke.key@,
    ) == ascii_lower_text("c"@)
}

pub open spec fn is_escape(keystroke: Keystroke) -> bool {
    ascii_lower_text(keystroke.key@) == ascii_lower_text("escape"@)
}

impl SnapshotTab {
    /// A picture, of which the screen shows the end.
    pub fn new(title: String, lines: Vec<Vec<CellSnapshot>>, cols: usize, visible_rows: usize) -> (
        tab: Self)
        ensures
            tab@.title == title@,
            tab@.lines == row_views(lines@),
            tab@.cols == if cols > 1 {
                cols as int
            } else {
                1
            },
            tab@.top_line == tab@.max_top(visible_rows as int),
            tab@.anchor is None,
            tab@.focus is None,
            tab@.wf(),
    {
        let top_line: usize = if lines.len() < visible_rows {
            0
        } else {
            lines.len() - visible_rows
        };
        SnapshotTab {
            title,
            lines,
            cols: if cols > 1 {
                cols
            } else {
                1
            },
            top_line,
            selection_anchor: None,
            selection_focus: None,
        }
    }

    pub fn title(&self) -> (title: String)
        ensures
            title@ == self@.title,
    {
        self.title.clone()
    }

    pub fn lines(&self) -> (lines: &[Vec<CellSnapshot>])
        ensures
            row_views(lines@) == self@.lines,
    {
        self.lines.as_slice()
    }

    pub fn cols(&self) -> (cols: usize)
        ensures
            cols == self@.cols,
    {
        self.cols
    }

    pub fn top_line(&self) -> (line: usize)
        ensures
            line == self@.top_line,
    {
        self.top_line
    }

    pub fn normalize_point(&self, row: usize, col: usize) -> (point: SelectionPoint)
        requires
            self@.wf(),
        ensures
            point == self@.point(row as int, col as int),
    {
        if self.lines.len() == 0 {
            return SelectionPoint { row: 0, col: 0 };
        }
        let safe_row: usize = if row < self.lines.len() {
            row
        } else {
            self.lines.len() - 1
        };
        let safe_col: usize = if col < self.cols {
            col
        } else {
            self.cols - 1
        };
        assert(self@.lines[safe_row as int] == self.lines@[safe_row as int]@);
        SelectionPoint {
            row: safe_row,
            col: normalize_selection_col(self.lines[safe_row].as_slice(), safe_col),
        }
    }

    /// The place at a cell of the screen, which may lie outside of it.
    pub fn mouse_grid_point(&self, raw_row: i32, raw_col: i32, visible_rows: usize) -> (point:
        SelectionPoint)
        requires
            self@.wf(),
            1 <= visible_rows,
        ensures
            point == self@.point_on_screen(raw_row as int, raw_col as int, visible_rows as int),
    {
        let visible_row: usize = if raw_row <= 0 {
            0
        } else if raw_row as usize > visible_rows - 1 {
            visible_rows - 1
        } else {
            raw_row as usize
        };
        let visual: usize = if raw_col <= 0 {
            0
        } else {
            raw_col as usize
        };
        let line_count: usize = self.lines.len();
        if line_count == 0 {
            return self.normalize_point(0, visual);
        }
        let row: usize = if self.top_line >= line_count || visible_row >= line_count
            - self.top_line {
            line_count - 1
        } else {
            self.top_line + visible_row
        };
        assert(self@.lines[row as int] == self.lines@[row as int]@);
        let col: usize = if self.lines[row].len() > 0 {
            logical_col_for_visual_col(self.lines[row].as_slice(), visual)
        } else {
            visual
        };
        self.normalize_point(row, col)
    }

    pub fn selection_bounds(&self) -> (bounds: Option<(SelectionPoint, SelectionPoint)>)
        ensures
            bounds == self@.bounds(),
    {
        match (self.selection_anchor, self.selection_focus) {
            (Some(anchor), Some(focus)) => Some(normalize_selection_bounds(anchor, focus)),
            _ => None,
        }
    }

    pub fn selection_text(&self) -> (text: Option<String>)
        ensures
            match text {
                Some(t) => self@.selected() == Some(t@),
                None => self@.selected() is None,
            },
    {
        match self.selection_bounds() {
            Some((start, end)) => {
                let text = extract_selection_text(self.lines.as_slice(), start, end);
                if text.as_str().is_empty() {
                    None
                } else {
                    Some(text)
                }
            },
            None => None,
        }
    }

    /// The text of the whole picture.
    pub fn all_text(&self) -> (text: String)
        ensures
            text@ == joined(self@.lines, self@.lines.len()),
    {
        let ghost views = self@.lines;
        let mut out: Vec<char> = Vec::new();
        let mut i: usize = 0;
        assert(out@ =~= joined(views, 0));
        while i < self.lines.len()
            invariant
                i <= self.lines@.len(),
                views == row_views(self.lines@),
                out@ == joined(views, i as nat),
            decreases self.lines@.len() - i,
        {
            let ghost before = out@;
            if i > 0 {
                out.push('\n');
            }
            let ghost head = out@;
            let keep: usize = out.len();
            let cells: &Vec<CellSnapshot> = &self.lines[i];
            assert(views[i as int] == cells@);
            push_cells_text(cells.as_slice(), 0, cells.len(), &mut out);
            assert(out@.take(keep as int) =~= head);
            assert(out@.skip(keep as int) =~= cells_text(cells@, 0, cells@.len() as int));
            trim_end_from(&mut out, keep);
            proof {
                if i == 0 {
                    assert(head =~= Seq::<char>::empty());
                    assert(out@ =~= line_text(views[0]));
                } else {
                    assert(out@ =~= before + seq!['\n'] + line_text(views[i as int]));
                }
            }
            i += 1;
        }
        text_of(out.as_slice())
    }

    /// Copies the selection, or the whole picture where nothing is selected;
    /// selects everything; or drops the selection.
    pub fn on_key_down(&mut self, keystroke: &Keystroke, has_command_key: bool) -> (action:
        SnapshotAction)
        requires
            old(self)@.wf(),
        ensures
            final(self)@.wf(),
            ({
                let v = old(self)@;
                if is_copy(*keystroke, has_command_key) {
                    &&& final(self)@ == v
                    &&& action matches SnapshotAction::Copy(text) && text@ == match v.selected() {
                        Some(selected) => selected,
                        None => joined(v.lines, v.lines.len()),
                    }
                } else if select_all_shortcut(*keystroke, has_command_key) && v.lines.len() > 0 {
                    &&& action is Changed
                    &&& final(self)@ == v.all_selected()
                } else if is_escape(*keystroke) && (v.anchor is Some || v.focus is Some) {
                    &&& action is Changed
                    &&& final(self)@ == (SnapshotView { anchor: None, focus: None, ..v })
                } else {
                    action is Ignored && final(self)@ == v
                }
            }),
    {
        let m = keystroke.modifiers;
        let key = keystroke.key.as_str();
        let command = has_command_key && m.platform && !m.control && !m.alt && !m.function;
        if command && same_text_ignoring_case(key, "c") {
            return match self.selection_text() {
                Some(text) => SnapshotAction::Copy(text),
                None => SnapshotAction::Copy(self.all_text()),
            };
        }
        if command && !m.shift && same_text_ignoring_case(key, "a") && self.lines.len() > 0 {
            let last = self.normalize_point(self.lines.len() - 1, self.cols - 1);
            self.selection_anchor = Some(SelectionPoint { row: 0, col: 0 });
            self.selection_focus = Some(last);
            return SnapshotAction::Changed;
        }
        if same_text_ignoring_case(key, "escape") && (self.selection_anchor.is_some()
            || self.selection_focus.is_some()) {
            self.selection_anchor = None;
            self.selection_focus = None;
            return SnapshotAction::Changed;
        }
        SnapshotAction::Ignored
    }

    /// Starts a selection at a place; returns whether the press was for it.
    pub fn on_mouse_down(&mut self, left_button: bool, point: SelectionPoint) -> (taken: bool)
        ensures
            taken == (left_button && old(self)@.lines.len() > 0),
            final(self)@ == if taken {
                SnapshotView { anchor: Some(point), focus: Some(point), ..old(self)@ }
            } else {
                old(self)@
            },
    {
        if !left_button || self.lines.len() == 0 {
            return false;
        }
        self.selection_anchor = Some(point);
        self.selection_focus = Some(point);
        true
    }

    /// Extends a selection to a place; returns whether there is one.
    pub fn on_mouse_drag(&mut self, left_button: bool, point: SelectionPoint) -> (taken: bool)
        ensures
            taken == (left_button && old(self)@.anchor is Some),
            final(self)@ == if taken {
                SnapshotView { focus: Some(point), ..old(self)@ }
            } else {
                old(self)@
            },
    {
        if !left_button || self.selection_anchor.is_none() {
            return false;
        }
        self.selection_focus = Some(point);
        true
    }

    /// Scrolls by so many lines; returns whether the picture moved.
    pub fn on_scroll_wheel(&mut self, y_steps: i32, visible_rows: usize) -> (moved: bool)
        ensures
            final(self)@ == if y_steps == 0 {
                old(self)@
            } else {
                SnapshotView {
                    top_line: between(
                        old(self)@.top_line + y_steps,
                        0,
                        old(self)@.max_top(visible_rows as int),
                    ),
                    ..old(self)@
                }
            },
            moved == (final(self)@.top_line != old(self)@.top_line),
    {
        if y_steps == 0 {
            return false;
        }
        let max_top: usize = if self.lines.len() < visible_rows {
            0
        } else {
            self.lines.len() - visible_rows
        };
        let next: i128 = self.top_line as i128 + y_steps as i128;
        let top: usize = if next < 0 {
            0
        } else if next > max_top as i128 {
            max_top
        } else {
            next as usize
        };
        let moved = top != self.top_line;
        self.top_line = top;
        moved
    }
}

impl SnapshotView {
    /// With everything selected.
    pub open spec fn all_selected(self) -> SnapshotView {
        SnapshotView {
            anchor: Some(SelectionPoint { row: 0, col: 0 }),
            focus: Some(self.point(self.lines.len() - 1, self.cols - 1)),
            ..self
        }
    }
}

/// Law: a click hits the cell that is drawn there. Where a cell of a line on the
/// screen is drawn, the mouse finds its column, whatever wide cells stand before
/// it.
pub proof fn law_clicks_hit_what_is_drawn(
    v: SnapshotView,
    row: int,
    col: int,
    offset: int,
    visible_rows: int,
)
    requires
        v.wf(),
        v.cols <= usize::MAX,
        v.lines.len() <= usize::MAX,
        0 <= v.top_line,
        0 <= row < visible_rows,
        v.top_line + row < v.lines.len(),
        0 <= col < v.cols,
        forall|k: int|
            0 <= k < v.lines[v.top_line + row].len() ==> (#[trigger] v.lines[v.top_line
                + row][k]).wf(),
        is_content_col(v.lines[v.top_line + row], 0, col),
        0 <= offset < drawn_width(v.lines[v.top_line + row][col]),
    ensures
        v.point_on_screen(
            row,
            col + extra_cols(v.lines[v.top_line + row], 0, col) + offset,
            visible_rows,
        ) == v.point(v.top_line + row, col),
{
    law_visual_columns_map_back(v.lines[v.top_line + row], col, offset);
}

proof fn lemma_all_rows_joined(v: SnapshotView, count: nat)
    requires
        v.wf(),
        v.lines.len() <= usize::MAX,
        v.cols <= usize::MAX,
        1 <= count <= v.lines.len(),
        v.lines.last().len() <= v.cols,
        has_paired_spacers(v.lines.last()),
    ensures
        ({
            let start = SelectionPoint { row: 0, col: 0 };
            let end = v.point(v.lines.len() - 1, v.cols - 1);
            joined_selection(v.lines, start, end, count) == joined(v.lines, count)
        }),
    decreases count,
{
    let start = SelectionPoint { row: 0, col: 0 };
    let last = v.lines.len() - 1;
    let end = v.point(last, v.cols - 1);
    let row = count - 1;
    let cells = v.lines[row];
    assert(end.row == last);
    assert(selected_line(cells, row, start, end) == line_text(cells)) by {
        if cells.len() == 0 {
            assert(cells_text(cells, 0, 0) =~= Seq::<char>::empty());
        } else {
            assert(snapped_col(cells, 0) == 0);
            if row == last {
                law_snapping_is_stable(cells, v.cols - 1);
                law_snapping_is_stable(cells, cells.len() - 1);
                law_the_last_column_ends_the_text(cells);
                lemma_snapped_col_bounds(cells, v.cols - 1);
                assert(end.col == snapped_col(cells, v.cols - 1));
                assert(snapped_col(cells, v.cols - 1) == snapped_col(cells, cells.len() - 1));
            }
        }
    }
    if count > 1 {
        lemma_all_rows_joined(v, (count - 1) as nat);
    }
}

/// Law: to select everything and copy is to copy without a selection: both give
/// the text of the whole picture.
pub proof fn law_selecting_everything_copies_everything(v: SnapshotView)
    requires
        v.wf(),
        v.lines.len() <= usize::MAX,
        v.cols <= usize::MAX,
        v.lines.len() > 0,
        v.lines.last().len() <= v.cols,
        has_paired_spacers(v.lines.last()),
    ensures
        (match v.all_selected().selected() {
            Some(selected) => selected,
            None => Seq::empty(),
        }) == joined(v.lines, v.lines.len()),
{
    let start = SelectionPoint { row: 0, col: 0 };
    let end = v.point(v.lines.len() - 1, v.cols - 1);
    assert(end.row == v.lines.len() - 1);
    assert(ordered_bounds(start, end) == (start, end));
    lemma_all_rows_joined(v, v.lines.len());
    assert(selection_text(v.lines, start, end) == joined(v.lines, v.lines.len()));
    if selection_text(v.lines, start, end).len() == 0 {
        assert(selection_text(v.lines, start, end) =~= Seq::<char>::empty());
    }
}

/// Law: a place in the picture is where it is; one below the picture is brought
/// to the last line, and one behind a line or the columns to the last cell.
pub proof fn law_places_are_brought_into_the_picture(v: SnapshotView, row: int, col: int)
    requires
        v.wf(),
        0 < v.lines.len() <= usize::MAX,
        v.cols <= usize::MAX,
        forall|k: int|
            0 <= k < v.lines.len() ==> is_narrow(#[trigger] v.lines[k]) && v.lines[k].len() > 0,
    ensures
        0 <= row < v.lines.len() && 0 <= col < v.cols && col < v.lines[row].len() ==> v.point(
            row,
            col,
        ) == (SelectionPoint { row: row as usize, col: col as usize }),
        row >= v.lines.len() ==> v.point(row, col) == v.point(v.lines.len() - 1, col),
        row < 0 ==> v.point(row, col) == v.point(0, col),
        col >= v.cols ==> v.point(row, col) == v.point(row, v.cols - 1),
        col < 0 ==> v.point(row, col).col == 0,
        0 <= row < v.lines.len() && v.lines[row].len() <= col < v.cols ==> v.point(row, col).col
            == v.lines[row].len() - 1,
{
    let at = between(row, 0, v.lines.len() - 1);
    assert(is_narrow(v.lines[at]));
    let line = v.lines[at];
    assert forall|k: int| 0 <= k < line.len() implies advance(#[trigger] line[k]) == 1 by {
        assert(!line[k].spans_next_col);
    }
    if 0 <= row < v.lines.len() {
        assert(at == row);
    }
}

/// Law: a picture is copied line by line: two pictures one below the other give
/// the text of the first, a line feed and the text of the second.
pub proof fn law_pictures_are_copied_line_by_line(
    above: Seq<Seq<CellSnapshot>>,
    below: Seq<Seq<CellSnapshot>>,
)
    requires
        above.len() > 0,
        below.len() > 0,
    ensures
        joined(above + below, (above + below).len()) == joined(above, above.len()) + seq!['\n']
            + joined(below, below.len()),
{
    lemma_first_lines(above, below, above.len());
    lemma_joined_lines(above, below, below.len());
}

proof fn lemma_first_lines(
    above: Seq<Seq<CellSnapshot>>,
    below: Seq<Seq<CellSnapshot>>,
    count: nat,
)
    requires
        count <= above.len(),
    ensures
        joined(above + below, count) == joined(above, count),
    decreases count,
{
    if count > 1 {
        lemma_first_lines(above, below, (count - 1) as nat);
    }
}

proof fn lemma_joined_lines(
    above: Seq<Seq<CellSnapshot>>,
    below: Seq<Seq<CellSnapshot>>,
    count: nat,
)
    requires
        above.len() > 0,
        1 <= count <= below.len(),
    ensures
        joined(above + below, above.len() + count) == joined(above, above.len()) + seq!['\n']
            + joined(below, count),
    decreases count,
{
    let all = above + below;
    assert(all[above.len() + count - 1] == below[count - 1]);
    if count > 1 {
        lemma_joined_lines(above, below, (count - 1) as nat);
        assert(joined(all, above.len() + count) =~= joined(above, above.len()) + seq!['\n']
            + joined(below, count));
    } else {
        lemma_first_lines(above, below, above.len());
    }
}

/// Law: a line of narrow cells is copied cell by cell, without the blanks at its
/// end and with those inside it.
pub proof fn law_a_line_is_copied_cell_by_cell(cells: Seq<CellSnapshot>, i: int)
    requires
        is_narrow(cells),
        0 <= i < cells.len(),
    ensures
        line_text(cells).len() <= cells.len(),
        joined(seq![cells], 1) == line_text(cells),
        i < line_text(cells).len() ==> line_text(cells)[i] == cells[i].ch,
        i >= line_text(cells).len() ==> whitespace_char(cells[i].ch),
        !whitespace_char(cells[i].ch) ==> i < line_text(cells).len(),
        line_text(cells).len() > 0 ==> !whitespace_char(line_text(cells).last()),
{
    let text = cells_text(cells, 0, cells.len() as int);
    lemma_narrow_text(cells, 0, cells.len() as int);
    law_trimming_the_end(text);
    assert(text[i] == cells[i].ch);
}

/// Law: where all fits on the screen its top is the first line; else the last
/// line is at the bottom of the screen.
pub proof fn law_the_end_of_a_picture_is_shown(v: SnapshotView, visible_rows: int)
    requires
        0 <= visible_rows,
    ensures
        v.lines.len() <= visible_rows ==> v.max_top(visible_rows) == 0,
        v.lines.len() >= visible_rows ==> v.max_top(visible_rows) + visible_rows == v.lines.len(),
{
}

/// Law: C with the command key alone, or with shift, copies, in either case of
/// the letter and where there is a command key; and escape is known whatever is
/// held with it.
pub proof fn law_keys_of_a_picture(keystroke: Keystroke, has_command_key: bool)
    ensures
        ({
            let m = keystroke.modifiers;
            let key = keystroke.key@;
            &&& is_copy(keystroke, has_command_key) <==> (key == seq!['c'] || key == seq!['C'])
                && has_command_key && m.platform && !m.control && !m.alt && !m.function
            &&& key == "escape"@ ==> is_escape(keystroke)
            &&& key == "Escape"@ ==> is_escape(keystroke)
            &&& is_escape(keystroke) ==> key.len() == 6
            &&& is_escape(keystroke) ==> !is_copy(keystroke, has_command_key)
        }),
{
    reveal_strlit("c");
    reveal_strlit("escape");
    reveal_strlit("Escape");
    let key = keystroke.key@;
    let c = "c"@;
    let lower = ascii_lower_text(key);
    assert(c.len() == 1 && c[0] == 'c');
    assert(ascii_lower_text(c) =~= seq!['c']);
    assert("escape"@.len() == 6);
    assert(ascii_lower_text("escape"@).len() == 6);
    assert(lower.len() == key.len());
    assert("Escape"@.len() == 6);
    assert(ascii_lower_text("Escape"@) =~= ascii_lower_text("escape"@)) by {
        let e = "Escape"@;
        let f = "escape"@;
        assert(e[0] == 'E' && f[0] == 'e');
        assert(ascii_lower('E') == 'e');
        assert forall|i: int| 1 <= i < 6 implies e[i] == f[i] by {}
    }
    if key.len() == 1 {
        lemma_the_letter_c(key[0]);
        if lower == seq!['c'] {
            assert(lower[0] == 'c');
        }
        if key[0] == 'c' {
            assert(key =~= seq!['c']);
            assert(lower =~= seq!['c']);
        }
        if key[0] == 'C' {
            assert(key =~= seq!['C']);
            assert(lower =~= seq!['c']);
        }
    }
}

proof fn lemma_the_letter_c(c: char)
    ensures
        ascii_lower(c) == 'c' <==> c == 'c' || c == 'C',
{
    if 'A' <= c <= 'Z' {
        assert(ascii_lower(c) as u32 == c as u32 + 32);
        assert('c' as u32 == 99);
        assert('C' as u32 == 67);
    }
}

} // verus!
