//! Routing of mouse events to the composer's text area.
//!
//! Hit testing uses the geometry of the most recent render, which keeps it aligned with
//! everything drawn around the text area.

use vstd::prelude::*;
use std::ops::Range;
use vstd::utf8::decode_utf8;

use crate::textarea::buffer::{
    MouseSelectionUpdate, TextArea, TextAreaView, after_hit, finished, selection_range_of, wrapped_lines_ok,
};
use crate::ui::geometry::{Position, Rect, sat_sub};

verus! {

/// A mouse button.
#[derive(Clone, Copy, Debug, PartialEq, Eq, Structural)]
pub enum MouseButton {
    Left,
    Right,
    Middle,
}

/// What a mouse event reports.
#[derive(Clone, Copy, Debug, PartialEq, Eq, Structural)]
pub enum MouseEventKind {
    Down(MouseButton),
    Up(MouseButton),
    Drag(MouseButton),
    Moved,
    ScrollDown,
    ScrollUp,
    ScrollLeft,
    ScrollRight,
}

/// A mouse event at a terminal cell.
#[derive(Clone, Copy, Debug, PartialEq, Eq, Structural)]
pub struct MouseEvent {
    pub kind: MouseEventKind,
    pub column: u16,
    pub row: u16,
}

/// Result of routing a mouse event through the composer.
#[derive(Clone, Debug, PartialEq, Eq)]
pub enum ComposerMouseOutcome {
    Ignored,
    Handled,
    SelectionFinished(String),
}

impl ComposerMouseOutcome {
    /// Whether the composer consumed the event.
    pub fn is_handled(&self) -> (r: bool)
        ensures
            r == !(self is Ignored),
    {
        !matches!(self, ComposerMouseOutcome::Ignored)
    }
}

/// The outcome of a finished selection: its text when one is highlighted.
pub fn finished_selection(selected: Option<String>) -> (r: ComposerMouseOutcome)
    ensures
        match selected {
            Some(s) => r == ComposerMouseOutcome::SelectionFinished(s),
            None => r == ComposerMouseOutcome::Handled,
        },
{
    match selected {
        Some(s) => ComposerMouseOutcome::SelectionFinished(s),
        None => ComposerMouseOutcome::Handled,
    }
}

/// The composer state that mouse routing reads and updates.
#[derive(Clone, Copy, Debug, PartialEq, Eq, Structural)]
pub struct ComposerMouseState {
    /// Whether the composer accepts input.
    pub input_enabled: bool,
    /// Whether a history search popup owns the input.
    pub history_search_active: bool,
    /// Whether a left-button drag started in the text area is under way.
    pub mouse_drag_active: bool,
    /// Where the text area was last drawn, if it was.
    pub last_textarea_area: Option<Rect>,
}

/// How a mouse event continues after routing.
#[derive(Clone, Copy, Debug, PartialEq, Eq, Structural)]
pub enum MouseRoute {
    /// The event is ignored.
    Ignored,
    /// A press outside the text area: it only dismisses the selection.
    DismissSelection,
    /// Hit-test the text area at `position`. A press first flushes buffered paste input
    /// where the user typed it.
    HitTest { area: Rect, position: Position, update: MouseSelectionUpdate },
}

/// Whether clamping a left drag or release to the text area has an empty row range: the
/// area starts on the last row the terminal coordinates can name, so no row lies between its
/// top and one above its (saturated) bottom. Clamping then has no answer.
pub open spec fn drag_clamp_undefined(s: ComposerMouseState, e: MouseEvent) -> bool {
    &&& s.input_enabled
    &&& !s.history_search_active
    &&& s.mouse_drag_active
    &&& (e.kind == MouseEventKind::Drag(MouseButton::Left) || e.kind == MouseEventKind::Up(MouseButton::Left))
    &&& s.last_textarea_area matches Some(a)
    &&& a.width > 0
    &&& a.height > 0
    &&& sat_sub(a.bottom_edge(), 1) < a.y
}

/// `v` clamped to `lo..=hi`.
pub open spec fn clamp_u16(v: u16, lo: u16, hi: u16) -> u16 {
    if v < lo {
        lo
    } else if v > hi {
        hi
    } else {
        v
    }
}

/// Where a mouse event goes, and whether a drag stays active afterwards.
pub open spec fn route_of(s: ComposerMouseState, e: MouseEvent) -> (MouseRoute, bool) {
    if !s.input_enabled || s.history_search_active {
        (MouseRoute::Ignored, false)
    } else {
        match s.last_textarea_area {
            None => (MouseRoute::Ignored, false),
            Some(area) => if area.width == 0 || area.height == 0 {
                (MouseRoute::Ignored, false)
            } else {
                let raw = Position { x: e.column, y: e.row };
                match e.kind {
                    MouseEventKind::Down(MouseButton::Left) => if !area.holds(raw) {
                        (MouseRoute::DismissSelection, false)
                    } else {
                        (MouseRoute::HitTest { area, position: raw, update: MouseSelectionUpdate::Begin }, false)
                    },
                    MouseEventKind::Drag(MouseButton::Left) => if s.mouse_drag_active {
                        (
                            MouseRoute::HitTest {
                                area,
                                position: Position {
                                    x: clamp_u16(raw.x, area.x, area.right_edge()),
                                    y: clamp_u16(raw.y, area.y, sat_sub(area.bottom_edge(), 1)),
                                },
                                update: MouseSelectionUpdate::Drag,
                            },
                            true,
                        )
                    } else {
                        (MouseRoute::Ignored, s.mouse_drag_active)
                    },
                    MouseEventKind::Up(MouseButton::Left) => if s.mouse_drag_active {
                        (
                            MouseRoute::HitTest {
                                area,
                                position: Position {
                                    x: clamp_u16(raw.x, area.x, area.right_edge()),
                                    y: clamp_u16(raw.y, area.y, sat_sub(area.bottom_edge(), 1)),
                                },
                                update: MouseSelectionUpdate::Release,
                            },
                            true,
                        )
                    } else {
                        (MouseRoute::Ignored, false)
                    },
                    _ => (MouseRoute::Ignored, s.mouse_drag_active),
                }
            },
        }
    }
}

fn clamp_coord(v: u16, lo: u16, hi: u16) -> (r: u16)
    requires
        lo <= hi,
    ensures
        r == clamp_u16(v, lo, hi),
{
    if v < lo {
        lo
    } else if v > hi {
        hi
    } else {
        v
    }
}

impl ComposerMouseState {
    /// Routes a mouse event: ignores it when input is disabled, a history search is open or
    /// the text area has not been drawn; a left press outside the text area dismisses the
    /// selection; a left press inside, or a left drag or release during a drag (clamped to
    /// the area, one column past its right edge allowed), goes to hit testing.
    pub fn route_mouse_event(&mut self, event: MouseEvent) -> (r: MouseRoute)
        requires
            !drag_clamp_undefined(*old(self), event),
        ensures
            r == route_of(*old(self), event).0,
            *final(self) == (ComposerMouseState { mouse_drag_active: route_of(*old(self), event).1, ..*old(self) }),
            r is HitTest ==> event.kind == MouseEventKind::Down(MouseButton::Left) || event.kind == MouseEventKind::Drag(
                MouseButton::Left,
            ) || event.kind == MouseEventKind::Up(MouseButton::Left),
            r is DismissSelection ==> event.kind == MouseEventKind::Down(MouseButton::Left),
            (event.kind matches MouseEventKind::Down(b) && b != MouseButton::Left) ==> {
                &&& r == MouseRoute::Ignored
                &&& takes_mouse_input(*old(self)) ==> *final(self) == *old(self)
            },
    {
        if !self.input_enabled || self.history_search_active {
            self.mouse_drag_active = false;
            return MouseRoute::Ignored;
        }
        let area = match self.last_textarea_area {
            Some(a) => a,
            None => {
                self.mouse_drag_active = false;
                return MouseRoute::Ignored;
            },
        };
        if area.is_empty() {
            self.mouse_drag_active = false;
            return MouseRoute::Ignored;
        }
        let raw = Position { x: event.column, y: event.row };
        match event.kind {
            MouseEventKind::Down(MouseButton::Left) => {
                self.mouse_drag_active = false;
                if !area.contains(raw) {
                    return MouseRoute::DismissSelection;
                }
                MouseRoute::HitTest { area, position: raw, update: MouseSelectionUpdate::Begin }
            },
            MouseEventKind::Drag(MouseButton::Left) => {
                if self.mouse_drag_active {
                    let position = Position {
                        x: clamp_coord(raw.x, area.x, area.right()),
                        y: clamp_coord(raw.y, area.y, area.bottom().saturating_sub(1)),
                    };
                    MouseRoute::HitTest { area, position, update: MouseSelectionUpdate::Drag }
                } else {
                    MouseRoute::Ignored
                }
            },
            MouseEventKind::Up(MouseButton::Left) => {
                if self.mouse_drag_active {
                    let position = Position {
                        x: clamp_coord(raw.x, area.x, area.right()),
                        y: clamp_coord(raw.y, area.y, area.bottom().saturating_sub(1)),
                    };
                    MouseRoute::HitTest { area, position, update: MouseSelectionUpdate::Release }
                } else {
                    MouseRoute::Ignored
                }
            },
            _ => MouseRoute::Ignored,
        }
    }
}

/// Whether the composer takes mouse input: input is enabled, no history search is open, and
/// the text area was drawn with at least one cell.
pub open spec fn takes_mouse_input(s: ComposerMouseState) -> bool {
    &&& s.input_enabled
    &&& !s.history_search_active
    &&& match s.last_textarea_area {
        Some(a) => a.width > 0 && a.height > 0,
        None => false,
    }
}

/// Only the left button acts: a press of another button is ignored and, once the text area
/// is drawn and takes input, leaves the routing state as it was; only left presses, drags
/// and releases reach hit testing, and only a left press dismisses the selection.
pub proof fn law_only_the_left_button_acts(s: ComposerMouseState, e: MouseEvent)
    ensures
        (e.kind matches MouseEventKind::Down(b) && b != MouseButton::Left) ==> {
            &&& route_of(s, e).0 == MouseRoute::Ignored
            &&& takes_mouse_input(s) ==> route_of(s, e).1 == s.mouse_drag_active
        },
        route_of(s, e).0 is HitTest ==> e.kind == MouseEventKind::Down(MouseButton::Left) || e.kind
            == MouseEventKind::Drag(MouseButton::Left) || e.kind == MouseEventKind::Up(MouseButton::Left),
        route_of(s, e).0 is DismissSelection ==> e.kind == MouseEventKind::Down(MouseButton::Left),
{
}

/// Dismisses the selection after a press outside the text area: handled exactly when a
/// selection was highlighted.
pub fn dismiss_selection(textarea: &mut TextArea) -> (r: ComposerMouseOutcome)
    requires
        old(textarea)@.wf(),
    ensures
        final(textarea)@.wf(),
        final(textarea)@ == (TextAreaView { selection: None, ..old(textarea)@ }),
        r == if selection_range_of(old(textarea)@) is Some {
            ComposerMouseOutcome::Handled
        } else {
            ComposerMouseOutcome::Ignored
        },
{
    let had_selection = textarea.selection_range().is_some();
    textarea.clear_selection();
    if had_selection {
        ComposerMouseOutcome::Handled
    } else {
        ComposerMouseOutcome::Ignored
    }
}

/// Whether `outcome` reports the selection of `v` when a release finishes it: the selected
/// text when a non-empty range is highlighted, else just "handled".
pub open spec fn reports_finished_selection(outcome: ComposerMouseOutcome, v: TextAreaView) -> bool {
    match selection_range_of(v) {
        Some(x) => outcome matches ComposerMouseOutcome::SelectionFinished(s) && s@ == decode_utf8(
            v.text.subrange(x.0, x.1),
        ),
        None => outcome == ComposerMouseOutcome::Handled,
    }
}

/// What the composer must do after a hit test: report `outcome`; when `activity` is set,
/// the event counts as user activity (clear the remote image selection, reset the footer
/// mode, refresh popups).
pub struct HitTestResult {
    pub outcome: ComposerMouseOutcome,
    pub activity: bool,
}

impl ComposerMouseState {
    /// Applies a hit test routed by [`ComposerMouseState::route_mouse_event`], after any
    /// buffered paste input was flushed (`did_flush_paste`). A press clears the selection
    /// first. When the position misses every visible line, a release still finishes the
    /// selection and the event counts as handled only if a flush happened; otherwise a
    /// press starts a drag, a release ends it and reports the finished selection.
    pub fn apply_hit_test(
        &mut self,
        textarea: &mut TextArea,
        area: Rect,
        position: Position,
        update: MouseSelectionUpdate,
        lines: &[Range<usize>],
        scroll: u16,
        did_flush_paste: bool,
    ) -> (r: HitTestResult)
        requires
            old(textarea)@.wf(),
            wrapped_lines_ok(old(textarea)@.text, lines@),
        ensures
            final(textarea)@.wf(),
            ({
                let v0 = if update == MouseSelectionUpdate::Begin {
                    TextAreaView { selection: None, ..old(textarea)@ }
                } else {
                    old(textarea)@
                };
                match after_hit(v0, area, lines@, scroll, position, update) {
                    Some(v) => {
                        &&& final(textarea)@ == v
                        &&& r.activity
                        &&& final(self).mouse_drag_active == if update == MouseSelectionUpdate::Begin {
                            true
                        } else if update == MouseSelectionUpdate::Release {
                            false
                        } else {
                            old(self).mouse_drag_active
                        }
                        &&& if update == MouseSelectionUpdate::Release {
                            reports_finished_selection(r.outcome, v)
                        } else {
                            r.outcome == ComposerMouseOutcome::Handled
                        }
                    },
                    None => {
                        &&& !r.activity
                        &&& if update == MouseSelectionUpdate::Release {
                            &&& final(textarea)@ == finished(v0)
                            &&& !final(self).mouse_drag_active
                            &&& reports_finished_selection(r.outcome, finished(v0))
                        } else {
                            &&& final(textarea)@ == v0
                            &&& final(self).mouse_drag_active == old(self).mouse_drag_active
                            &&& r.outcome == if did_flush_paste {
                                ComposerMouseOutcome::Handled
                            } else {
                                ComposerMouseOutcome::Ignored
                            }
                        }
                    },
                }
            }),
            final(self).input_enabled == old(self).input_enabled,
            final(self).history_search_active == old(self).history_search_active,
            final(self).last_textarea_area == old(self).last_textarea_area,
    {
        let is_down = update == MouseSelectionUpdate::Begin;
        let is_up = update == MouseSelectionUpdate::Release;
        if is_down {
            textarea.clear_selection();
        }
        let hit = textarea.set_cursor_from_screen_position(area, lines, scroll, position, update);
        if !hit {
            if is_up {
                self.mouse_drag_active = false;
                textarea.finish_selection();
                return HitTestResult { outcome: finished_selection(textarea.selected_text()), activity: false };
            }
            let outcome = if did_flush_paste {
                ComposerMouseOutcome::Handled
            } else {
                ComposerMouseOutcome::Ignored
            };
            return HitTestResult { outcome, activity: false };
        }
        if is_down {
            self.mouse_drag_active = true;
        } else if is_up {
            self.mouse_drag_active = false;
        }
        let outcome = if is_up {
            finished_selection(textarea.selected_text())
        } else {
            ComposerMouseOutcome::Handled
        };
        HitTestResult { outcome, activity: true }
    }
}

} // verus!
