//! The logic of a terminal emulator: input encoding, the model of the input
//! line, cell and selection semantics, colours, SIXEL graphics, the rules of
//! the debug server, and the decisions taken between the window, the
//! pseudo-terminal and the screen.
use vstd::prelude::*;

pub mod chars;
pub mod cli;
pub mod color;
pub mod convenience;
pub mod debug_server;
pub mod font_fallback;
pub mod grid_cells;
pub mod input;
pub mod input_log;
pub mod input_mirror;
pub mod keyboard;
pub mod links;
pub mod mouse;
pub mod pty;
pub mod render;
pub mod sixel;
pub mod snapshot_tab;
pub mod tabs;
pub mod terminal;
pub mod text_utils;

verus! {

} // verus!
