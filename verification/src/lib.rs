//! Verified text-editing, theme-catalog and UI-policy logic of a terminal chat client.

pub mod text;
pub mod theme;
pub mod ui;
pub mod textarea;
pub mod transparency;
pub mod guardian;
