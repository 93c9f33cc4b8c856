//! A multi-line text buffer with a cursor, atomic elements and a mouse/keyboard selection.

pub mod utf8;
pub mod buffer;
