//! The mouse: reports to programs that ask for them, selections that are made
//! with shift held down, and files that are dragged over the window.
use vstd::prelude::*;

use crate::chars::{bytes_view, decimal, push_decimal, push_repeated, repeated};
use crate::grid_cells::{
    cell_at_visual_col, extract_selection_text, logical_col_for_visual_col,
    normalize_selection_bounds, normalize_selection_col, ordered_bounds, row_views, selection_text,
    snapped_col, CellSnapshot, SelectionPoint,
};
use crate::keyboard::{Modifiers, TermMode};
use crate::terminal::GridSize;

verus! {

#[derive(Clone, Copy, Debug, PartialEq, Eq, Structural)]
pub enum MouseButton {
    Left,
    Right,
    Middle,
    Navigate,
}

// ---------------------------------------------------------------------------
// Reports
// ---------------------------------------------------------------------------

pub open spec fn button_number(button: MouseButton) -> Option<u8> {
    match button {
        MouseButton::Left => Some(0),
        MouseButton::Right => Some(1),
        MouseButton::Middle => Some(2),
        MouseButton::Navigate => None,
    }
}

pub fn mouse_button_code(button: MouseButton) -> (code: Option<u8>)
    ensures
        code == button_number(button),
{
    match button {
        MouseButton::Left => Some(0),
        MouseButton::Right => Some(1),
        MouseButton::Middle => Some(2),
        MouseButton::Navigate => None,
    }
}

/// The code of a movement, by the button that is held down.
pub open spec fn move_number(button: Option<MouseButton>) -> Option<u8> {
    match button {
        Some(MouseButton::Left) => Some(32),
        Some(MouseButton::Middle) => Some(33),
        Some(MouseButton::Right) => Some(34),
        Some(MouseButton::Navigate) => None,
        None => Some(35),
    }
}

pub fn mouse_move_button_code(button: Option<MouseButton>) -> (code: Option<u8>)
    ensures
        code == move_number(button),
{
    match button {
        Some(MouseButton::Left) => Some(32),
        Some(MouseButton::Middle) => Some(33),
        Some(MouseButton::Right) => Some(34),
        Some(MouseButton::Navigate) => None,
        None => Some(35),
    }
}

/// What the modifiers add to the code of a button.
pub open spec fn modifier_bits(modifiers: Modifiers) -> int {
    (if modifiers.shift {
        4int
    } else {
        0
    }) + (if modifiers.alt {
        8int
    } else {
        0
    }) + (if modifiers.control {
        16int
    } else {
        0
    })
}

pub fn mouse_modifiers(modifiers: Modifiers) -> (bits: u8)
    ensures
        bits == modifier_bits(modifiers),
        bits <= 28,
{
    let mut bits: u8 = 0;
    if modifiers.shift {
        bits += 4;
    }
    if modifiers.alt {
        bits += 8;
    }
    if modifiers.control {
        bits += 16;
    }
    bits
}

/// A sum that stops at the end of a byte.
pub open spec fn byte_sum(a: int, b: int) -> int {
    if a + b > 255 {
        255
    } else {
        a + b
    }
}

fn add_bytes(a: u8, b: u8) -> (r: u8)
    ensures
        r == byte_sum(a as int, b as int),
{
    if a > 255 - b {
        255
    } else {
        a + b
    }
}

/// A report in the SGR form. A release keeps the number of its button and is
/// told apart by the last byte.
pub open spec fn sgr_report(row: int, col: int, button: int, pressed: bool) -> Seq<u8> {
    seq![0x1bu8, 0x5bu8, 0x3cu8] + decimal(button as nat) + seq![0x3bu8] + decimal(
        (col + 1) as nat,
    ) + seq![0x3bu8] + decimal((row + 1) as nat) + seq![
        if pressed {
            0x4du8
        } else {
            0x6du8
        },
    ]
}

/// A coordinate in the old form: a byte, or two bytes that read as UTF-8.
pub open spec fn old_coordinate(pos: int, utf8: bool) -> Seq<u8> {
    if utf8 && pos >= 95 {
        seq![(0xc0 + (33 + pos) / 64) as u8, (0x80 + (33 + pos) % 64) as u8]
    } else {
        seq![(33 + pos) as u8]
    }
}

/// A report in the old form; none for a place that it cannot express.
pub open spec fn old_report(row: int, col: int, button: int, utf8: bool) -> Option<Seq<u8>> {
    let limit: int = if utf8 {
        2015
    } else {
        223
    };
    if row >= limit || col >= limit {
        None
    } else {
        Some(
            seq![0x1bu8, 0x5bu8, 0x4du8, byte_sum(32, button) as u8] + old_coordinate(col, utf8)
                + old_coordinate(row, utf8),
        )
    }
}

/// The report of a press or a release, in the form that the program asks for.
/// The old form has one code for the release of any button.
pub open spec fn report(
    row: int,
    col: int,
    button: u8,
    pressed: bool,
    modifiers: Modifiers,
    mode: TermMode,
) -> Option<Seq<u8>> {
    if mode.sgr_mouse {
        Some(sgr_report(row, col, byte_sum(button as int, modifier_bits(modifiers)), pressed))
    } else {
        old_report(
            row,
            col,
            byte_sum(
                if pressed {
                    button as int
                } else {
                    3
                },
                modifier_bits(modifiers),
            ),
            mode.utf8_mouse,
        )
    }
}

/// The two bytes of a coordinate; the first goes round at the end of its type.
pub fn encode_normal_mouse_pos(pos: usize) -> (bytes: [u8; 2])
    requires
        33 + pos <= usize::MAX,
    ensures
        bytes@ == seq![((0xc0 + (33 + pos) / 64) % 256) as u8, (0x80 + (33 + pos) % 64) as u8],
{
    let value: usize = 33 + pos;
    let bytes: [u8; 2] = [((0xc0 + value / 64) % 256) as u8, (0x80 + value % 64) as u8];
    assert(bytes@ =~= seq![
        ((0xc0 + (33 + pos) / 64) % 256) as u8,
        (0x80 + (33 + pos) % 64) as u8,
    ]);
    bytes
}

fn push_old_coordinate(out: &mut Vec<u8>, pos: usize, utf8: bool)
    requires
        pos < 2015,
        utf8 || pos < 223,
    ensures
        final(out)@ == old(out)@ + old_coordinate(pos as int, utf8),
{
    if utf8 && pos >= 95 {
        let bytes = encode_normal_mouse_pos(pos);
        assert(bytes@.len() == 2);
        out.push(bytes[0]);
        out.push(bytes[1]);
    } else {
        out.push((33 + pos) as u8);
    }
    assert(out@ =~= old(out)@ + old_coordinate(pos as int, utf8));
}

pub fn encode_normal_mouse_report(row: usize, col: usize, button: u8, utf8: bool) -> (r: Option<
    Vec<u8>,
>)
    ensures
        bytes_view(r) == old_report(row as int, col as int, button as int, utf8),
{
    let limit: usize = if utf8 {
        2015
    } else {
        223
    };
    if row >= limit || col >= limit {
        return None;
    }
    let mut bytes: Vec<u8> = Vec::new();
    bytes.push(0x1b);
    bytes.push(0x5b);
    bytes.push(0x4d);
    bytes.push(add_bytes(32, button));
    assert(bytes@ =~= seq![0x1bu8, 0x5bu8, 0x4du8, byte_sum(32, button as int) as u8]);
    push_old_coordinate(&mut bytes, col, utf8);
    push_old_coordinate(&mut bytes, row, utf8);
    Some(bytes)
}

pub fn encode_mouse_report(
    row: usize,
    col: usize,
    button: u8,
    pressed: bool,
    modifiers: Modifiers,
    mode: TermMode,
) -> (r: Option<Vec<u8>>)
    requires
        row < usize::MAX,
        col < usize::MAX,
    ensures
        bytes_view(r) == report(row as int, col as int, button, pressed, modifiers, mode),
{
    let bits: u8 = mouse_modifiers(modifiers);
    if mode.sgr_mouse {
        let mut bytes: Vec<u8> = Vec::new();
        bytes.push(0x1b);
        bytes.push(0x5b);
        bytes.push(0x3c);
        push_decimal(&mut bytes, add_bytes(button, bits) as u64);
        bytes.push(0x3b);
        push_decimal(&mut bytes, (col + 1) as u64);
        bytes.push(0x3b);
        push_decimal(&mut bytes, (row + 1) as u64);
        bytes.push(
            if pressed {
                0x4d
            } else {
                0x6d
            },
        );
        assert(bytes@ =~= sgr_report(
            row as int,
            col as int,
            byte_sum(button as int, bits as int),
            pressed,
        ));
        Some(bytes)
    } else {
        let code: u8 = add_bytes(
            if pressed {
                button
            } else {
                3
            },
            bits,
        );
        encode_normal_mouse_report(row, col, code, mode.utf8_mouse)
    }
}

pub open spec fn steps(n: int) -> nat {
    if n < 0 {
        (-n) as nat
    } else {
        n as nat
    }
}

fn step_count(n: i32) -> (count: usize)
    ensures
        count == steps(n as int),
{
    if n < 0 {
        (-(n as i64)) as usize
    } else {
        n as usize
    }
}

/// The cursor keys that stand for a turned wheel in a full-screen program.
pub open spec fn alt_scroll(x_steps: int, y_steps: int) -> Seq<u8> {
    repeated(
        seq![
            0x1bu8,
            0x4fu8,
            if y_steps > 0 {
                0x41u8
            } else {
                0x42u8
            },
        ],
        steps(y_steps),
    ) + repeated(
        seq![
            0x1bu8,
            0x4fu8,
            if x_steps > 0 {
                0x44u8
            } else {
                0x43u8
            },
        ],
        steps(x_steps),
    )
}

fn cursor_key(last: u8) -> (bytes: Vec<u8>)
    ensures
        bytes@ == seq![0x1bu8, 0x4fu8, last],
{
    let mut bytes: Vec<u8> = Vec::new();
    bytes.push(0x1b);
    bytes.push(0x4f);
    bytes.push(last);
    assert(bytes@ =~= seq![0x1bu8, 0x4fu8, last]);
    bytes
}

pub fn encode_alt_scroll_bytes(x_steps: i32, y_steps: i32) -> (bytes: Vec<u8>)
    ensures
        bytes@ == alt_scroll(x_steps as int, y_steps as int),
{
    let mut bytes: Vec<u8> = Vec::new();
    let vertical = cursor_key(
        if y_steps > 0 {
            0x41
        } else {
            0x42
        },
    );
    push_repeated(&mut bytes, vertical.as_slice(), step_count(y_steps));
    let horizontal = cursor_key(
        if x_steps > 0 {
            0x44
        } else {
            0x43
        },
    );
    push_repeated(&mut bytes, horizontal.as_slice(), step_count(x_steps));
    assert(bytes@ =~= alt_scroll(x_steps as int, y_steps as int));
    bytes
}

/// A report so many times over; nothing where it cannot be expressed.
pub open spec fn report_repeated(report: Option<Seq<u8>>, count: nat) -> Seq<u8> {
    match report {
        Some(bytes) => repeated(bytes, count),
        None => Seq::empty(),
    }
}

/// The reports of a turned wheel: its vertical steps, then its horizontal ones.
pub open spec fn wheel_reports(
    row: int,
    col: int,
    x_steps: int,
    y_steps: int,
    modifiers: Modifiers,
    mode: TermMode,
) -> Seq<u8> {
    report_repeated(
        report(
            row,
            col,
            if y_steps > 0 {
                64
            } else {
                65
            },
            true,
            modifiers,
            mode,
        ),
        steps(y_steps),
    ) + report_repeated(
        report(
            row,
            col,
            if x_steps > 0 {
                66
            } else {
                67
            },
            true,
            modifiers,
            mode,
        ),
        steps(x_steps),
    )
}

pub fn repeat_wheel_report(
    row: usize,
    col: usize,
    x_steps: i32,
    y_steps: i32,
    modifiers: Modifiers,
    mode: TermMode,
) -> (bytes: Vec<u8>)
    requires
        row < usize::MAX,
        col < usize::MAX,
    ensures
        bytes@ == wheel_reports(
            row as int,
            col as int,
            x_steps as int,
            y_steps as int,
            modifiers,
            mode,
        ),
{
    let mut bytes: Vec<u8> = Vec::new();
    let y_code: u8 = if y_steps > 0 {
        64
    } else {
        65
    };
    if let Some(one) = encode_mouse_report(row, col, y_code, true, modifiers, mode) {
        push_repeated(&mut bytes, one.as_slice(), step_count(y_steps));
    }
    let x_code: u8 = if x_steps > 0 {
        66
    } else {
        67
    };
    if let Some(one) = encode_mouse_report(row, col, x_code, true, modifiers, mode) {
        push_repeated(&mut bytes, one.as_slice(), step_count(x_steps));
    }
    assert(bytes@ =~= wheel_reports(
        row as int,
        col as int,
        x_steps as int,
        y_steps as int,
        modifiers,
        mode,
    ));
    bytes
}

// ---------------------------------------------------------------------------
// Places
// ---------------------------------------------------------------------------

pub open spec fn between(value: int, low: int, high: int) -> int {
    if value < low {
        low
    } else if value > high {
        high
    } else {
        value
    }
}

/// The cell at a place of the window, given the row and the column of the
/// screen that it lies in, which may be outside of it. A column of the screen is
/// mapped back to a column of the grid as the cells are drawn.
pub open spec fn grid_point(
    raw_row: int,
    raw_col: int,
    grid: GridSize,
    cells: Seq<Seq<CellSnapshot>>,
) -> (int, int) {
    let row = between(raw_row, 0, if grid.rows > 0 {
        grid.rows - 1
    } else {
        0
    });
    let visual = if raw_col < 0 {
        0
    } else {
        raw_col
    };
    let col = if row < cells.len() && cells[row].len() > 0 {
        cell_at_visual_col(cells[row], visual, 0, 0, 0)
    } else {
        visual
    };
    (row, between(col, 0, if grid.cols > 0 {
        grid.cols - 1
    } else {
        0
    }))
}

pub fn mouse_grid_point(
    raw_row: i32,
    raw_col: i32,
    grid: GridSize,
    cells: &[Vec<CellSnapshot>],
) -> (r: (usize, usize))
    ensures
        (r.0 as int, r.1 as int) == grid_point(
            raw_row as int,
            raw_col as int,
            grid,
            row_views(cells@),
        ),
        r.0 < 65536,
        r.1 < 65536,
{
    let ghost views = row_views(cells@);
    let max_row: usize = if grid.rows > 0 {
        (grid.rows - 1) as usize
    } else {
        0
    };
    let max_col: usize = if grid.cols > 0 {
        (grid.cols - 1) as usize
    } else {
        0
    };
    let row: usize = if raw_row < 0 {
        0
    } else if raw_row as usize > max_row {
        max_row
    } else {
        raw_row as usize
    };
    let visual: usize = if raw_col < 0 {
        0
    } else {
        raw_col as usize
    };
    let mut col: usize = visual;
    if row < cells.len() {
        assert(views[row as int] == cells@[row as int]@);
        if cells[row].len() > 0 {
            col = logical_col_for_visual_col(cells[row].as_slice(), visual);
        }
    }
    if col > max_col {
        col = max_col;
    }
    (row, col)
}

// ---------------------------------------------------------------------------
// Files that are dragged over the window
// ---------------------------------------------------------------------------

/// While files are dragged over the terminal, the mouse is not its own.
#[derive(Clone, Copy, Debug, PartialEq, Eq, Structural)]
pub struct ExternalFileDragState {
    pub active: bool,
}

impl ExternalFileDragState {
    pub fn new() -> (state: Self)
        ensures
            !state.active,
    {
        ExternalFileDragState { active: false }
    }

    pub fn update_hover(&mut self, hovering_terminal: bool)
        ensures
            final(self).active == hovering_terminal,
    {
        self.active = hovering_terminal;
    }

    pub fn finish(&mut self)
        ensures
            !final(self).active,
    {
        self.active = false;
    }

    /// Whether a movement belongs to a drag. One without the left button shows
    /// that the drag has ended elsewhere.
    pub fn should_suppress_mouse_move(&mut self, pressed_button: Option<MouseButton>) -> (r: bool)
        ensures
            r == (old(self).active && pressed_button == Some(MouseButton::Left)),
            final(self).active == r,
    {
        if !self.active {
            return false;
        }
        match pressed_button {
            Some(MouseButton::Left) => true,
            _ => {
                self.active = false;
                false
            },
        }
    }

    pub fn should_suppress_mouse_up(&self, button: MouseButton) -> (r: bool)
        ensures
            r == (self.active && button == MouseButton::Left),
    {
        self.active && button == MouseButton::Left
    }
}

// ---------------------------------------------------------------------------
// The click that activates the window
// ---------------------------------------------------------------------------

/// A click that only activates the window is not for the program in it: its
/// press is kept back, and so is the release that belongs to it.
#[derive(Clone, Copy, Debug, PartialEq, Eq, Structural)]
pub struct FocusActivationMouseGuard {
    pub button: Option<MouseButton>,
}

impl FocusActivationMouseGuard {
    pub fn new() -> (guard: Self)
        ensures
            guard.button is None,
    {
        FocusActivationMouseGuard { button: None }
    }

    /// Takes a press; returns whether it is kept back. Any other press forgets
    /// an activating one whose release was never seen.
    pub fn on_press(&mut self, button: MouseButton, activates_window: bool) -> (kept: bool)
        ensures
            kept == (activates_window && button == MouseButton::Left),
            final(self).button == if kept {
                Some(MouseButton::Left)
            } else {
                None
            },
    {
        if activates_window && button == MouseButton::Left {
            self.button = Some(MouseButton::Left);
            true
        } else {
            self.button = None;
            false
        }
    }

    /// Takes a release; returns whether it is kept back.
    pub fn on_release(&mut self, button: MouseButton) -> (kept: bool)
        ensures
            kept == (old(self).button == Some(button)),
            final(self).button == if kept {
                None
            } else {
                old(self).button
            },
    {
        if self.button == Some(button) {
            self.button = None;
            true
        } else {
            false
        }
    }

    pub fn clear(&mut self)
        ensures
            final(self).button is None,
    {
        self.button = None;
    }
}

// ---------------------------------------------------------------------------
// What the mouse does
// ---------------------------------------------------------------------------

#[derive(Clone, Copy, Debug)]
pub struct MouseState {
    pub drag: ExternalFileDragState,
    pub selecting: bool,
    pub selection_button: Option<MouseButton>,
    pub selection_anchor: Option<SelectionPoint>,
    pub selection_focus: Option<SelectionPoint>,
    /// The last movement that was reported.
    pub last_report: Option<(usize, usize, u8)>,
}

/// What follows from what the mouse did.
pub enum MouseOutcome {
    /// The event is for others.
    Ignored,
    /// The event is taken, and nothing more follows.
    Taken,
    /// The link under the mouse is to be opened.
    OpenLink,
    /// The selection changed.
    SelectionChanged,
    /// The selection is done: its text, if any, goes to the clipboard.
    SelectionDone(Option<String>),
    /// These bytes are to be sent.
    Report(Vec<u8>),
}

pub ghost enum OutcomeView {
    Ignored,
    Taken,
    OpenLink,
    SelectionChanged,
    SelectionDone(Option<Seq<char>>),
    Report(Seq<u8>),
}

impl View for MouseOutcome {
    type V = OutcomeView;

    open spec fn view(&self) -> OutcomeView {
        match self {
            MouseOutcome::Ignored => OutcomeView::Ignored,
            MouseOutcome::Taken => OutcomeView::Taken,
            MouseOutcome::OpenLink => OutcomeView::OpenLink,
            MouseOutcome::SelectionChanged => OutcomeView::SelectionChanged,
            MouseOutcome::SelectionDone(text) => OutcomeView::SelectionDone(
                match text {
                    Some(t) => Some(t@),
                    None => None,
                },
            ),
            MouseOutcome::Report(bytes) => OutcomeView::Report(bytes@),
        }
    }
}

/// Whether a program asks for reports of presses.
pub open spec fn wants_presses(mode: TermMode) -> bool {
    mode.mouse_report_click || mode.mouse_motion || mode.mouse_drag
}

/// A place brought from a spacer to its character, where there is a row.
pub open spec fn selection_point(
    cells: Seq<Seq<CellSnapshot>>,
    row: usize,
    col: usize,
) -> SelectionPoint {
    SelectionPoint {
        row,
        col: if row < cells.len() {
            snapped_col(cells[row as int], col as int) as usize
        } else {
            col
        },
    }
}

pub fn normalize_selection_point(cells: &[Vec<CellSnapshot>], row: usize, col: usize) -> (point:
    SelectionPoint)
    ensures
        point == selection_point(row_views(cells@), row, col),
{
    if row < cells.len() {
        assert(row_views(cells@)[row as int] == cells@[row as int]@);
        SelectionPoint { row, col: normalize_selection_col(cells[row].as_slice(), col) }
    } else {
        SelectionPoint { row, col }
    }
}

impl MouseState {
    pub open spec fn idle() -> MouseState {
        MouseState {
            drag: ExternalFileDragState { active: false },
            selecting: false,
            selection_button: None,
            selection_anchor: None,
            selection_focus: None,
            last_report: None,
        }
    }

    pub open spec fn without_selection(self) -> MouseState {
        MouseState {
            selecting: false,
            selection_button: None,
            selection_anchor: None,
            selection_focus: None,
            ..self
        }
    }

    pub open spec fn bounds(self) -> Option<(SelectionPoint, SelectionPoint)> {
        match (self.selection_anchor, self.selection_focus) {
            (Some(a), Some(f)) => Some(ordered_bounds(a, f)),
            _ => None,
        }
    }

    /// The text of the selection, if there is a selection with text.
    pub open spec fn selected(self, cells: Seq<Seq<CellSnapshot>>) -> Option<Seq<char>> {
        match self.bounds() {
            Some((start, end)) => if selection_text(cells, start, end).len() == 0 {
                None
            } else {
                Some(selection_text(cells, start, end))
            },
            None => None,
        }
    }

    /// A press: of command on a link, of shift for a selection, or else for
    /// the program if it asks for reports.
    pub open spec fn after_press(
        self,
        button: MouseButton,
        modifiers: Modifiers,
        row: usize,
        col: usize,
        mode: TermMode,
        cells: Seq<Seq<CellSnapshot>>,
        on_link: bool,
    ) -> (MouseState, OutcomeView) {
        let base = MouseState {
            drag: ExternalFileDragState { active: false },
            last_report: None,
            ..self
        };
        let left = button == MouseButton::Left;
        if left && modifiers.platform && !modifiers.control && !modifiers.alt && !modifiers.shift
            && on_link {
            (base, OutcomeView::OpenLink)
        } else if left && modifiers.shift {
            (
                MouseState {
                    selecting: true,
                    selection_button: Some(MouseButton::Left),
                    selection_anchor: Some(selection_point(cells, row, col)),
                    selection_focus: Some(selection_point(cells, row, col)),
                    ..base
                },
                OutcomeView::SelectionChanged,
            )
        } else {
            (base, press_report(button, true, modifiers, row, col, mode))
        }
    }

    /// A movement: of dragged files, of a selection, or for the program.
    pub open spec fn after_move(
        self,
        pressed: Option<MouseButton>,
        modifiers: Modifiers,
        row: usize,
        col: usize,
        mode: TermMode,
        cells: Seq<Seq<CellSnapshot>>,
    ) -> (MouseState, OutcomeView) {
        let dragging = self.drag.active && pressed == Some(MouseButton::Left);
        let base = MouseState { drag: ExternalFileDragState { active: dragging }, ..self };
        if dragging {
            (base, OutcomeView::Taken)
        } else if self.selecting {
            let focus = Some(selection_point(cells, row, col));
            if pressed != self.selection_button {
                (base, OutcomeView::Ignored)
            } else if self.selection_focus == focus {
                (base, OutcomeView::Taken)
            } else {
                (MouseState { selection_focus: focus, ..base }, OutcomeView::SelectionChanged)
            }
        } else if !(mode.mouse_motion || mode.mouse_drag) || modifiers.shift || move_number(pressed)
            is None {
            (base, OutcomeView::Ignored)
        } else {
            let code = move_number(pressed)->0;
            let sent = report(row as int, col as int, code, true, modifiers, mode);
            if (mode.mouse_drag && code == 35) || self.last_report == Some((row, col, code))
                || sent is None {
                (base, OutcomeView::Ignored)
            } else {
                (
                    MouseState { last_report: Some((row, col, code)), ..base },
                    OutcomeView::Report(sent->0),
                )
            }
        }
    }

    /// A release: of dragged files, of a selection, whose text is then taken,
    /// or for the program.
    pub open spec fn after_release(
        self,
        button: MouseButton,
        modifiers: Modifiers,
        row: usize,
        col: usize,
        mode: TermMode,
        cells: Seq<Seq<CellSnapshot>>,
    ) -> (MouseState, OutcomeView) {
        if self.drag.active && button == MouseButton::Left {
            (self, OutcomeView::Ignored)
        } else if self.selecting && self.selection_button == Some(button) {
            let selected = MouseState {
                selection_focus: Some(selection_point(cells, row, col)),
                ..self
            };
            (
                selected.without_selection(),
                OutcomeView::SelectionDone(selected.selected(cells)),
            )
        } else {
            (
                MouseState { last_report: None, ..self },
                press_report(button, false, modifiers, row, col, mode),
            )
        }
    }
}

/// The report of a press or a release, where the program asks for it and shift
/// does not claim it.
pub open spec fn press_report(
    button: MouseButton,
    pressed: bool,
    modifiers: Modifiers,
    row: usize,
    col: usize,
    mode: TermMode,
) -> OutcomeView {
    match button_number(button) {
        Some(code) => match report(row as int, col as int, code, pressed, modifiers, mode) {
            Some(bytes) => if wants_presses(mode) && !modifiers.shift {
                OutcomeView::Report(bytes)
            } else {
                OutcomeView::Ignored
            },
            None => OutcomeView::Ignored,
        },
        None => OutcomeView::Ignored,
    }
}

fn encode_press(
    button: MouseButton,
    pressed: bool,
    modifiers: Modifiers,
    row: usize,
    col: usize,
    mode: TermMode,
) -> (outcome: MouseOutcome)
    requires
        row < usize::MAX,
        col < usize::MAX,
    ensures
        outcome@ == press_report(button, pressed, modifiers, row, col, mode),
{
    let wanted = mode.mouse_report_click || mode.mouse_motion || mode.mouse_drag;
    if !wanted || modifiers.shift {
        return MouseOutcome::Ignored;
    }
    match mouse_button_code(button) {
        Some(code) => match encode_mouse_report(row, col, code, pressed, modifiers, mode) {
            Some(bytes) => MouseOutcome::Report(bytes),
            None => MouseOutcome::Ignored,
        },
        None => MouseOutcome::Ignored,
    }
}

impl MouseState {
    pub fn new() -> (state: Self)
        ensures
            state == MouseState::idle(),
    {
        MouseState {
            drag: ExternalFileDragState::new(),
            selecting: false,
            selection_button: None,
            selection_anchor: None,
            selection_focus: None,
            last_report: None,
        }
    }

    pub fn selection_bounds(&self) -> (bounds: Option<(SelectionPoint, SelectionPoint)>)
        ensures
            bounds == self.bounds(),
    {
        match (self.selection_anchor, self.selection_focus) {
            (Some(anchor), Some(focus)) => Some(normalize_selection_bounds(anchor, focus)),
            _ => None,
        }
    }

    pub fn clear_selection(&mut self)
        ensures
            *final(self) == old(self).without_selection(),
    {
        self.selecting = false;
        self.selection_button = None;
        self.selection_anchor = None;
        self.selection_focus = None;
    }

    pub fn current_selection_text(&self, cells: &[Vec<CellSnapshot>]) -> (text: Option<String>)
        ensures
            match text {
                Some(t) => self.selected(row_views(cells@)) == Some(t@),
                None => self.selected(row_views(cells@)) is None,
            },
    {
        match self.selection_bounds() {
            Some((start, end)) => {
                let text = extract_selection_text(cells, start, end);
                if text.as_str().is_empty() {
                    None
                } else {
                    Some(text)
                }
            },
            None => None,
        }
    }

    pub fn on_mouse_down(
        &mut self,
        button: MouseButton,
        modifiers: Modifiers,
        row: usize,
        col: usize,
        mode: TermMode,
        cells: &[Vec<CellSnapshot>],
        on_link: bool,
    ) -> (outcome: MouseOutcome)
        requires
            row < usize::MAX,
            col < usize::MAX,
        ensures
            (*final(self), outcome@) == old(self).after_press(
                button,
                modifiers,
                row,
                col,
                mode,
                row_views(cells@),
                on_link,
            ),
    {
        self.drag.finish();
        self.last_report = None;
        let left = button == MouseButton::Left;
        if left && modifiers.platform && !modifiers.control && !modifiers.alt && !modifiers.shift
            && on_link {
            return MouseOutcome::OpenLink;
        }
        if left && modifiers.shift {
            let point = normalize_selection_point(cells, row, col);
            self.selecting = true;
            self.selection_button = Some(MouseButton::Left);
            self.selection_anchor = Some(point);
            self.selection_focus = Some(point);
            return MouseOutcome::SelectionChanged;
        }
        encode_press(button, true, modifiers, row, col, mode)
    }

    pub fn on_mouse_move(
        &mut self,
        pressed: Option<MouseButton>,
        modifiers: Modifiers,
        row: usize,
        col: usize,
        mode: TermMode,
        cells: &[Vec<CellSnapshot>],
    ) -> (outcome: MouseOutcome)
        requires
            row < usize::MAX,
            col < usize::MAX,
        ensures
            (*final(self), outcome@) == old(self).after_move(
                pressed,
                modifiers,
                row,
                col,
                mode,
                row_views(cells@),
            ),
    {
        if self.drag.should_suppress_mouse_move(pressed) {
            return MouseOutcome::Taken;
        }
        if self.selecting {
            if pressed != self.selection_button {
                return MouseOutcome::Ignored;
            }
            let point = normalize_selection_point(cells, row, col);
            if self.selection_focus == Some(point) {
                return MouseOutcome::Taken;
            }
            self.selection_focus = Some(point);
            return MouseOutcome::SelectionChanged;
        }
        if !(mode.mouse_motion || mode.mouse_drag) || modifiers.shift {
            return MouseOutcome::Ignored;
        }
        let code: u8 = match mouse_move_button_code(pressed) {
            Some(code) => code,
            None => return MouseOutcome::Ignored,
        };
        if mode.mouse_drag && code == 35 {
            return MouseOutcome::Ignored;
        }
        if let Some((last_row, last_col, last_code)) = self.last_report {
            if last_row == row && last_col == col && last_code == code {
                return MouseOutcome::Ignored;
            }
        }
        match encode_mouse_report(row, col, code, true, modifiers, mode) {
            Some(bytes) => {
                self.last_report = Some((row, col, code));
                MouseOutcome::Report(bytes)
            },
            None => MouseOutcome::Ignored,
        }
    }

    pub fn on_mouse_up(
        &mut self,
        button: MouseButton,
        modifiers: Modifiers,
        row: usize,
        col: usize,
        mode: TermMode,
        cells: &[Vec<CellSnapshot>],
    ) -> (outcome: MouseOutcome)
        requires
            row < usize::MAX,
            col < usize::MAX,
        ensures
            (*final(self), outcome@) == old(self).after_release(
                button,
                modifiers,
                row,
                col,
                mode,
                row_views(cells@),
            ),
    {
        if self.drag.should_suppress_mouse_up(button) {
            return MouseOutcome::Ignored;
        }
        if self.selecting && self.selection_button == Some(button) {
            self.selection_focus = Some(normalize_selection_point(cells, row, col));
            let text = self.current_selection_text(cells);
            self.clear_selection();
            return MouseOutcome::SelectionDone(text);
        }
        self.last_report = None;
        encode_press(button, false, modifiers, row, col, mode)
    }
}

/// What a turned wheel sends: reports, where the program asks for them; cursor
/// keys, where it takes the whole screen and asks for these; else nothing.
pub open spec fn wheel_bytes(
    x_steps: int,
    y_steps: int,
    row: int,
    col: int,
    modifiers: Modifiers,
    mode: TermMode,
) -> Seq<u8> {
    if modifiers.shift {
        Seq::empty()
    } else if wants_presses(mode) {
        wheel_reports(row, col, x_steps, y_steps, modifiers, mode)
    } else if mode.alt_screen && mode.alternate_scroll {
        alt_scroll(x_steps, y_steps)
    } else {
        Seq::empty()
    }
}

pub fn on_scroll_wheel(
    x_steps: i32,
    y_steps: i32,
    row: usize,
    col: usize,
    modifiers: Modifiers,
    mode: TermMode,
) -> (bytes: Vec<u8>)
    requires
        row < usize::MAX,
        col < usize::MAX,
    ensures
        bytes@ == wheel_bytes(
            x_steps as int,
            y_steps as int,
            row as int,
            col as int,
            modifiers,
            mode,
        ),
{
    if modifiers.shift {
        return Vec::new();
    }
    if mode.mouse_report_click || mode.mouse_motion || mode.mouse_drag {
        return repeat_wheel_report(row, col, x_steps, y_steps, modifiers, mode);
    }
    if mode.alt_screen && mode.alternate_scroll {
        return encode_alt_scroll_bytes(x_steps, y_steps);
    }
    Vec::new()
}

// ---------------------------------------------------------------------------
// Laws
// ---------------------------------------------------------------------------

/// Law: in the SGR form the release of a button names the button that was
/// pressed: the two reports differ in the last byte alone.
pub proof fn law_sgr_release_keeps_the_button(
    row: int,
    col: int,
    button: u8,
    modifiers: Modifiers,
    mode: TermMode,
)
    requires
        mode.sgr_mouse,
    ensures
        ({
            let down = report(row, col, button, true, modifiers, mode)->0;
            let up = report(row, col, button, false, modifiers, mode)->0;
            &&& down.drop_last() == up.drop_last()
            &&& down.last() == 0x4d
            &&& up.last() == 0x6d
        }),
{
    let down = report(row, col, button, true, modifiers, mode)->0;
    let up = report(row, col, button, false, modifiers, mode)->0;
    assert(down.drop_last() =~= up.drop_last());
}

/// The coordinate that one byte, or two that read as UTF-8, stand for.
pub open spec fn coordinate_in(bytes: Seq<u8>) -> int {
    if bytes.len() == 1 {
        bytes[0] - 33
    } else {
        (bytes[0] - 0xc0) * 64 + (bytes[1] - 0x80) - 33
    }
}

/// Law: in the old form a coordinate reads back, wherever a report can express
/// it; in the UTF-8 form its two bytes are those of one character.
pub proof fn law_old_coordinates_read_back(pos: int, utf8: bool)
    requires
        0 <= pos < if utf8 {
            2015int
        } else {
            223
        },
    ensures
        coordinate_in(old_coordinate(pos, utf8)) == pos,
        old_coordinate(pos, utf8).len() == 2 ==> 0xc2 <= old_coordinate(pos, utf8)[0] <= 0xdf
            && 0x80 <= old_coordinate(pos, utf8)[1] <= 0xbf,
{
    let bytes = old_coordinate(pos, utf8);
    if bytes.len() == 2 {
        assert(bytes[0] == 0xc0 + (33 + pos) / 64);
        assert(bytes[1] == 0x80 + (33 + pos) % 64);
    }
}

/// Law: with shift held down the mouse belongs to the terminal, and no program
/// gets a report.
pub proof fn law_shift_keeps_the_mouse(
    state: MouseState,
    button: MouseButton,
    modifiers: Modifiers,
    row: usize,
    col: usize,
    mode: TermMode,
    cells: Seq<Seq<CellSnapshot>>,
    on_link: bool,
    held: Option<MouseButton>,
    x_steps: int,
    y_steps: int,
)
    requires
        modifiers.shift,
    ensures
        !(state.after_press(button, modifiers, row, col, mode, cells, on_link).1 is Report),
        !(state.after_move(held, modifiers, row, col, mode, cells).1 is Report),
        !(state.after_release(button, modifiers, row, col, mode, cells).1 is Report),
        wheel_bytes(x_steps, y_steps, row as int, col as int, modifiers, mode).len() == 0,
{
}

/// Law: a movement within one cell is reported once.
pub proof fn law_a_movement_is_reported_once(
    state: MouseState,
    pressed: Option<MouseButton>,
    modifiers: Modifiers,
    row: usize,
    col: usize,
    mode: TermMode,
    cells: Seq<Seq<CellSnapshot>>,
)
    requires
        state.after_move(pressed, modifiers, row, col, mode, cells).1 is Report,
    ensures
        state.after_move(pressed, modifiers, row, col, mode, cells).0.after_move(
            pressed,
            modifiers,
            row,
            col,
            mode,
            cells,
        ).1 == OutcomeView::Ignored,
{
}

/// Law: a press with shift starts a selection at its place; the release of the
/// button ends it wherever the mouse is by then, hands out the text between the
/// two places, and leaves no selection behind.
pub proof fn law_a_finished_selection_is_gone(
    state: MouseState,
    modifiers: Modifiers,
    row: usize,
    col: usize,
    end_modifiers: Modifiers,
    end_row: usize,
    end_col: usize,
    mode: TermMode,
    cells: Seq<Seq<CellSnapshot>>,
    on_link: bool,
)
    requires
        modifiers.shift,
    ensures
        ({
            let pressed = state.after_press(
                MouseButton::Left,
                modifiers,
                row,
                col,
                mode,
                cells,
                on_link,
            ).0;
            let released = pressed.after_release(
                MouseButton::Left,
                end_modifiers,
                end_row,
                end_col,
                mode,
                cells,
            );
            let bounds = ordered_bounds(
                selection_point(cells, row, col),
                selection_point(cells, end_row, end_col),
            );
            let text = selection_text(cells, bounds.0, bounds.1);
            &&& pressed.selecting
            &&& released.1 == OutcomeView::SelectionDone(
                if text.len() == 0 {
                    None
                } else {
                    Some(text)
                },
            )
            &&& !released.0.selecting
            &&& released.0.bounds() is None
        }),
{
}

/// Law: the left, right and middle buttons have the codes 0, 1 and 2, those for
/// going back and forth none; a movement has 32 with the left button held down, 33
/// with the middle and 34 with the right one, and 35 without one.
pub proof fn law_codes_of_buttons()
    ensures
        button_number(MouseButton::Left) == Some(0u8),
        button_number(MouseButton::Right) == Some(1u8),
        button_number(MouseButton::Middle) == Some(2u8),
        button_number(MouseButton::Navigate) is None,
        move_number(Some(MouseButton::Left)) == Some(32u8),
        move_number(Some(MouseButton::Middle)) == Some(33u8),
        move_number(Some(MouseButton::Right)) == Some(34u8),
        move_number(Some(MouseButton::Navigate)) is None,
        move_number(None) == Some(35u8),
{
}

/// Law: a report in the SGR form tells the code of the button, to which shift adds
/// 4, alt 8 and control 16, and the column and the row, counted from one.
pub proof fn law_sgr_reports(
    row: int,
    col: int,
    button: u8,
    pressed: bool,
    m: Modifiers,
    mode: TermMode,
)
    requires
        mode.sgr_mouse,
        button <= 200,
        0 <= row,
        0 <= col,
    ensures
        ({
            let code = button + (if m.shift {
                4int
            } else {
                0
            }) + (if m.alt {
                8int
            } else {
                0
            }) + (if m.control {
                16int
            } else {
                0
            });
            report(row, col, button, pressed, m, mode) == Some(
                seq![0x1bu8, 0x5b, 0x3c] + decimal(code as nat) + seq![0x3bu8] + decimal(
                    (col + 1) as nat,
                ) + seq![0x3bu8] + decimal((row + 1) as nat) + seq![
                    if pressed {
                        0x4du8
                    } else {
                        0x6du8
                    },
                ],
            )
        }),
{
}

/// Law: a report in the old form has a byte each for the code, 32 higher, and for
/// the column and the row, 33 higher; a release has the code 3 for every button.
/// Places from 223 on are not reported.
pub proof fn law_old_reports(
    row: int,
    col: int,
    button: u8,
    pressed: bool,
    m: Modifiers,
    mode: TermMode,
)
    requires
        !mode.sgr_mouse,
        !mode.utf8_mouse,
        button <= 100,
        0 <= row,
        0 <= col,
    ensures
        ({
            let added = (if m.shift {
                4int
            } else {
                0
            }) + (if m.alt {
                8int
            } else {
                0
            }) + (if m.control {
                16int
            } else {
                0
            });
            let code = if pressed {
                button + added
            } else {
                3 + added
            };
            let sent = report(row, col, button, pressed, m, mode);
            if row < 223 && col < 223 {
                sent == Some(
                    seq![0x1bu8, 0x5b, 0x4d, (32 + code) as u8, (33 + col) as u8, (33 + row) as u8],
                )
            } else {
                sent is None
            }
        }),
{
    if row < 223 && col < 223 {
        let sent = report(row, col, button, pressed, m, mode)->0;
        let code = sent[3];
        assert(sent =~= seq![0x1bu8, 0x5b, 0x4d, code, (33 + col) as u8, (33 + row) as u8]);
    }
}

/// Law: a press and a release of a button are reported where the program asks for
/// clicks, for drags or for movements, and nowhere else.
pub proof fn law_presses_are_reported_where_asked(
    button: MouseButton,
    pressed: bool,
    m: Modifiers,
    row: usize,
    col: usize,
    mode: TermMode,
    code: u8,
)
    requires
        mode.sgr_mouse,
        !m.shift,
        button_number(button) == Some(code),
    ensures
        ({
            let outcome = press_report(button, pressed, m, row, col, mode);
            if mode.mouse_report_click || mode.mouse_drag || mode.mouse_motion {
                outcome == OutcomeView::Report(
                    report(row as int, col as int, code, pressed, m, mode)->0,
                )
            } else {
                outcome == OutcomeView::Ignored
            }
        }),
{
}

/// Law: a movement into another cell is reported where the program asks for
/// movements, and where it asks for drags only while a button is held down.
pub proof fn law_movements_are_reported_where_asked(
    state: MouseState,
    pressed: Option<MouseButton>,
    m: Modifiers,
    row: usize,
    col: usize,
    mode: TermMode,
    cells: Seq<Seq<CellSnapshot>>,
    code: u8,
)
    requires
        mode.sgr_mouse,
        !m.shift,
        !state.selecting,
        !state.drag.active,
        move_number(pressed) == Some(code),
        state.last_report != Some((row, col, code)),
    ensures
        ({
            let (after, outcome) = state.after_move(pressed, m, row, col, mode, cells);
            &&& mode.mouse_motion && !mode.mouse_drag ==> outcome == OutcomeView::Report(
                report(row as int, col as int, code, true, m, mode)->0,
            )
            &&& mode.mouse_drag && pressed is Some ==> outcome == OutcomeView::Report(
                report(row as int, col as int, code, true, m, mode)->0,
            )
            &&& mode.mouse_drag && pressed is None ==> outcome == OutcomeView::Ignored
            &&& !mode.mouse_motion && !mode.mouse_drag ==> outcome == OutcomeView::Ignored
        }),
{
}

/// Law: command with the left button opens the link under the mouse; shift with it
/// starts a selection there, of one place; and while the button is held down the
/// other end of the selection is where the mouse is.
pub proof fn law_selecting_with_the_mouse(
    state: MouseState,
    m: Modifiers,
    row: usize,
    col: usize,
    to_row: usize,
    to_col: usize,
    mode: TermMode,
    cells: Seq<Seq<CellSnapshot>>,
    on_link: bool,
    later: Modifiers,
)
    ensures
        m.platform && !m.control && !m.alt && !m.shift && on_link ==> state.after_press(
            MouseButton::Left,
            m,
            row,
            col,
            mode,
            cells,
            on_link,
        ).1 == OutcomeView::OpenLink,
        m.shift ==> {
            let (pressed, outcome) = state.after_press(
                MouseButton::Left,
                m,
                row,
                col,
                mode,
                cells,
                on_link,
            );
            let moved = pressed.after_move(
                Some(MouseButton::Left),
                later,
                to_row,
                to_col,
                mode,
                cells,
            ).0;
            &&& outcome == OutcomeView::SelectionChanged
            &&& pressed.bounds() == Some(
                (selection_point(cells, row, col), selection_point(cells, row, col)),
            )
            &&& moved.selection_anchor == Some(selection_point(cells, row, col))
            &&& moved.selection_focus == Some(selection_point(cells, to_row, to_col))
        },
{
}

/// Law: a turned wheel is reported once for each step, with the code 64 for a step
/// up, 65 for one down, 66 to the left and 67 to the right.
pub proof fn law_wheels_are_reported_step_by_step(
    row: int,
    col: int,
    n: nat,
    m: Modifiers,
    mode: TermMode,
)
    requires
        mode.sgr_mouse,
        !m.shift,
        mode.mouse_report_click || mode.mouse_motion || mode.mouse_drag,
        n > 0,
    ensures
        wheel_bytes(0, n as int, row, col, m, mode) == repeated(
            report(row, col, 64, true, m, mode)->0,
            n,
        ),
        wheel_bytes(0, -(n as int), row, col, m, mode) == repeated(
            report(row, col, 65, true, m, mode)->0,
            n,
        ),
        wheel_bytes(n as int, 0, row, col, m, mode) == repeated(
            report(row, col, 66, true, m, mode)->0,
            n,
        ),
        wheel_bytes(-(n as int), 0, row, col, m, mode) == repeated(
            report(row, col, 67, true, m, mode)->0,
            n,
        ),
        wheel_bytes(0, 0, row, col, m, mode).len() == 0,
{
    let none = Seq::<u8>::empty();
    assert(repeated(report(row, col, 67, true, m, mode)->0, 0) =~= none);
    assert(repeated(report(row, col, 65, true, m, mode)->0, 0) =~= none);
    assert(wheel_bytes(0, n as int, row, col, m, mode) =~= repeated(
        report(row, col, 64, true, m, mode)->0,
        n,
    ));
    assert(wheel_bytes(0, -(n as int), row, col, m, mode) =~= repeated(
        report(row, col, 65, true, m, mode)->0,
        n,
    ));
    assert(wheel_bytes(n as int, 0, row, col, m, mode) =~= repeated(
        report(row, col, 66, true, m, mode)->0,
        n,
    ));
    assert(wheel_bytes(-(n as int), 0, row, col, m, mode) =~= repeated(
        report(row, col, 67, true, m, mode)->0,
        n,
    ));
}

/// Law: in a full-screen program that asks for it, a turned wheel is sent as the
/// keys for up, down, left and right, once for each step; elsewhere it sends
/// nothing.
pub proof fn law_wheels_turn_into_cursor_keys(n: nat, row: int, col: int, m: Modifiers, mode: TermMode)
    requires
        !mode.mouse_report_click && !mode.mouse_motion && !mode.mouse_drag,
        !m.shift,
        n > 0,
    ensures
        mode.alt_screen && mode.alternate_scroll ==> {
            &&& wheel_bytes(0, n as int, row, col, m, mode) == repeated(seq![0x1bu8, 0x4f, 0x41], n)
            &&& wheel_bytes(0, -(n as int), row, col, m, mode) == repeated(
                seq![0x1bu8, 0x4f, 0x42],
                n,
            )
            &&& wheel_bytes(n as int, 0, row, col, m, mode) == repeated(seq![0x1bu8, 0x4f, 0x44], n)
            &&& wheel_bytes(-(n as int), 0, row, col, m, mode) == repeated(
                seq![0x1bu8, 0x4f, 0x43],
                n,
            )
        },
        !(mode.alt_screen && mode.alternate_scroll) ==> wheel_bytes(
            n as int,
            n as int,
            row,
            col,
            m,
            mode,
        ).len() == 0,
{
    let none = Seq::<u8>::empty();
    assert(repeated(seq![0x1bu8, 0x4f, 0x42], 0) =~= none);
    assert(repeated(seq![0x1bu8, 0x4f, 0x43], 0) =~= none);
    assert(alt_scroll(0, n as int) =~= repeated(seq![0x1bu8, 0x4f, 0x41], n));
    assert(alt_scroll(0, -(n as int)) =~= repeated(seq![0x1bu8, 0x4f, 0x42], n));
    assert(alt_scroll(n as int, 0) =~= repeated(seq![0x1bu8, 0x4f, 0x44], n));
    assert(alt_scroll(-(n as int), 0) =~= repeated(seq![0x1bu8, 0x4f, 0x43], n));
}

proof fn lemma_plain_columns(row: Seq<CellSnapshot>, visual: int, col: int, last: int)
    requires
        forall|c: int|
            0 <= c < row.len() ==> (#[trigger] row[c]).width_cols == 1 && !row[c].spans_next_col
                && !row[c].expands_layout,
        0 <= col <= row.len(),
        col <= visual || visual == col,
    ensures
        visual < row.len() ==> cell_at_visual_col(row, visual, col, 0, last) == visual,
        visual >= row.len() && col < row.len() ==> cell_at_visual_col(row, visual, col, 0, last)
            == row.len() - 1,
        visual >= row.len() && col == row.len() ==> cell_at_visual_col(row, visual, col, 0, last)
            == last,
    decreases row.len() - col,
{
    if col < row.len() {
        let cell = row[col];
        assert(cell.width_cols == 1 && !cell.spans_next_col && !cell.expands_layout);
        if visual > col {
            lemma_plain_columns(row, visual, col + 1, col);
        }
    }
}

/// Law: in a row of narrow cells the mouse is in the column that it is over, and
/// outside of the screen in the nearest cell of its edge.
pub proof fn law_places_of_the_mouse(
    raw_row: int,
    raw_col: int,
    grid: GridSize,
    cells: Seq<Seq<CellSnapshot>>,
)
    requires
        0 < grid.rows == cells.len(),
        0 < grid.cols,
        forall|r: int, c: int|
            0 <= r < cells.len() && 0 <= c < cells[r].len() ==> {
                &&& (#[trigger] cells[r][c]).width_cols == 1
                &&& !cells[r][c].spans_next_col
                &&& !cells[r][c].expands_layout
            },
        forall|r: int| 0 <= r < cells.len() ==> (#[trigger] cells[r]).len() == grid.cols,
    ensures
        ({
            let (row, col) = grid_point(raw_row, raw_col, grid, cells);
            &&& 0 <= raw_row < grid.rows ==> row == raw_row
            &&& raw_row < 0 ==> row == 0
            &&& raw_row >= grid.rows ==> row == grid.rows - 1
            &&& 0 <= raw_col < grid.cols ==> col == raw_col
            &&& raw_col < 0 ==> col == 0
            &&& raw_col >= grid.cols ==> col == grid.cols - 1
        }),
{
    let row = between(raw_row, 0, grid.rows - 1);
    let cells_of_row = cells[row];
    assert(cells_of_row.len() == grid.cols);
    assert forall|c: int| 0 <= c < cells_of_row.len() implies (
    #[trigger] cells_of_row[c]).width_cols == 1 && !cells_of_row[c].spans_next_col
        && !cells_of_row[c].expands_layout by {
        assert(cells[row][c].width_cols == 1);
    }
    lemma_plain_columns(cells_of_row, if raw_col < 0 {
        0
    } else {
        raw_col
    }, 0, 0);
}

} // verus!
