//! The text buffer of a terminal editor.
//!
//! A [`buffer::Buffer`] owns a rope of text, a cursor and the part of the text
//! that is scrolled into view. It answers key presses with edits, tells what has
//! to be drawn, and takes back what background work on it has produced.

pub mod buffer;
pub mod cursor;
pub mod diff;
pub mod draw;
pub mod draw_laws;
pub mod edit;
pub mod edit_laws;
pub mod event;
pub mod geometry;
pub mod grapheme;
pub mod key;
pub mod key_laws;
pub mod laws;
pub mod lines;
pub mod motion_laws;
pub mod rope;
pub mod save;
pub mod save_laws;
pub mod scroll;
pub mod status;
pub mod status_laws;
pub mod task;
pub mod text_laws;
pub mod theme;
pub mod utf8;
