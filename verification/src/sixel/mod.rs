//! SIXEL graphics.
//!
//! - [`parser`] splits the byte stream of a pseudo-terminal into SIXEL and
//!   tmux passthrough payloads and everything else.
//! - [`decoder`] turns a SIXEL payload into pixels.
//! - [`single`] rounds the numbers of a colour to single precision.
//! - [`images`] keeps the decoded images where the text around them is.
pub mod decoder;
pub mod images;
pub mod parser;
pub mod single;
