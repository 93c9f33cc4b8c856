//! Syntax-theme catalog: embedded themes, bundled terminal palettes and custom theme files.

pub mod names;
pub mod ghostty;
pub mod syntax;
pub mod catalog;
