//! Terminal user-interface policies: geometry, the composer frame, mouse routing, copy
//! feedback and error views.

pub mod geometry;
pub mod frame;
pub mod copy_toast;
pub mod composer_mouse;
pub mod agents_overview;
pub mod transparent_background;
