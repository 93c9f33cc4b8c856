//! Rounded outline geometry for the composer input box.

use vstd::prelude::*;

verus! {

/// Width of the outline on each side.
pub const FRAME: u16 = 1;

/// Padding between the outline and the text.
pub const PAD: u16 = 1;

/// Columns taken by the live prompt prefix in front of the text.
pub const LIVE_PREFIX_COLS: u16 = 2;

/// Columns the frame takes left of the text.
pub const LEFT_CHROME: u16 = FRAME + PAD + LIVE_PREFIX_COLS;

/// Columns the frame takes right of the text.
pub const RIGHT_CHROME: u16 = PAD + FRAME;

/// Cells to leave free on each side of an area.
#[derive(Clone, Copy, Debug, PartialEq, Eq, Structural)]
pub struct Insets {
    pub top: u16,
    pub left: u16,
    pub bottom: u16,
    pub right: u16,
}

/// The insets of the text inside the composer frame.
pub fn content_insets() -> (r: Insets)
    ensures
        r == (Insets { top: FRAME, left: LEFT_CHROME, bottom: FRAME, right: RIGHT_CHROME }),
{
    Insets { top: FRAME, left: LEFT_CHROME, bottom: FRAME, right: RIGHT_CHROME }
}

/// The text width inside a frame `width` columns wide that also reserves `right_reserve`
/// columns on the right; zero when the frame is too narrow.
pub fn inner_width(width: u16, right_reserve: u16) -> (r: u16)
    requires
        LEFT_CHROME + RIGHT_CHROME + right_reserve <= u16::MAX,
    ensures
        r == if width >= LEFT_CHROME + RIGHT_CHROME + right_reserve {
            width - (LEFT_CHROME + RIGHT_CHROME + right_reserve)
        } else {
            0
        },
{
    width.saturating_sub(LEFT_CHROME + RIGHT_CHROME + right_reserve)
}

/// Rows the frame takes above and below the text.
pub fn vertical_chrome() -> (r: u16)
    ensures
        r == 2 * FRAME,
{
    FRAME * 2
}

} // verus!
