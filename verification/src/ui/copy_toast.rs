//! Feedback toast for copying the composer selection to the clipboard.
//!
//! Times are milliseconds on a monotonic clock that the caller reads.

use vstd::prelude::*;

use crate::ui::geometry::{Rect, sat_add, sat_sub};

verus! {

/// How long a toast stays visible, in milliseconds.
pub const TOAST_DURATION_MS: u64 = 1800;

/// Whether the copy succeeded.
#[derive(Clone, Copy, Debug, PartialEq, Eq, Structural)]
pub enum CopyToastKind {
    Success,
    Error,
}

/// A toast and the time it disappears.
#[derive(Clone, Copy, Debug, PartialEq, Eq, Structural)]
pub struct CopyToast {
    pub kind: CopyToastKind,
    pub expires_at: u64,
}

/// The text a toast shows.
pub open spec fn toast_label(kind: CopyToastKind) -> Seq<char> {
    match kind {
        CopyToastKind::Success => "Copied"@,
        CopyToastKind::Error => "Copy failed"@,
    }
}

impl CopyToast {
    /// A success toast shown from `now`.
    pub fn success(now: u64) -> (t: CopyToast)
        requires
            now + TOAST_DURATION_MS <= u64::MAX,
        ensures
            t == (CopyToast { kind: CopyToastKind::Success, expires_at: (now + TOAST_DURATION_MS) as u64 }),
    {
        CopyToast { kind: CopyToastKind::Success, expires_at: now + TOAST_DURATION_MS }
    }

    /// A failure toast shown from `now`.
    pub fn error(now: u64) -> (t: CopyToast)
        requires
            now + TOAST_DURATION_MS <= u64::MAX,
        ensures
            t == (CopyToast { kind: CopyToastKind::Error, expires_at: (now + TOAST_DURATION_MS) as u64 }),
    {
        CopyToast { kind: CopyToastKind::Error, expires_at: now + TOAST_DURATION_MS }
    }

    /// Whether the toast is still shown at `now`.
    pub fn is_visible(&self, now: u64) -> (r: bool)
        ensures
            r == (now < self.expires_at),
    {
        now < self.expires_at
    }

    /// The text the toast shows.
    pub fn label(&self) -> (r: &'static str)
        ensures
            r@ == toast_label(self.kind),
    {
        match self.kind {
            CopyToastKind::Success => "Copied",
            CopyToastKind::Error => "Copy failed",
        }
    }
}

/// Where a toast is drawn inside `area`: one row at the top, right-aligned, holding the
/// label padded by a space on each side (narrowed to leave at least one free column);
/// nothing when the area is narrower than eight columns or has no rows.
pub open spec fn toast_area_of(kind: CopyToastKind, area: Rect) -> Option<Rect> {
    if area.width < 8 || area.height == 0 {
        None
    } else {
        let line_width: int = toast_label(kind).len() as int + 2;
        let avail: int = if area.width - 1 >= 1 {
            area.width - 1
        } else {
            1
        };
        let width: int = if line_width <= avail {
            line_width
        } else {
            avail
        };
        let x = sat_sub(area.right_edge(), width as u16);
        Some(Rect { x, y: area.y, width: (sat_add(x, width as u16) - x) as u16, height: (sat_add(area.y, 1) - area.y) as u16 })
    }
}

/// Where `toast` is drawn inside `area`, if anywhere.
pub fn toast_area(toast: &CopyToast, area: Rect) -> (r: Option<Rect>)
    ensures
        r == toast_area_of(toast.kind, area),
{
    if area.width < 8 || area.height == 0 {
        return None;
    }
    let label_width: u16 = match toast.kind {
        CopyToastKind::Success => 6,
        CopyToastKind::Error => 11,
    };
    proof {
        reveal_strlit("Copied");
        reveal_strlit("Copy failed");
    }
    let line_width = label_width + 2;
    let avail = if area.width - 1 >= 1 {
        area.width - 1
    } else {
        1
    };
    let width = if line_width <= avail {
        line_width
    } else {
        avail
    };
    let x = area.right().saturating_sub(width);
    Some(Rect::new(x, area.y, width, 1))
}

/// What the host must do after a toast change: schedule a frame after a delay, and/or
/// redraw now.
#[derive(Clone, Copy, Debug, PartialEq, Eq, Structural)]
pub struct ToastEffects {
    pub schedule_frame_in: Option<u64>,
    pub redraw: bool,
}

/// The copy-feedback state of the chat widget: the current toast and the clipboard lease
/// that keeps the copied text alive.
pub struct CopyFeedback<L> {
    pub toast: Option<CopyToast>,
    pub clipboard_lease: Option<L>,
}

impl<L> CopyFeedback<L> {
    /// No toast and no lease.
    pub fn new() -> (r: CopyFeedback<L>)
        ensures
            r.toast is None,
            r.clipboard_lease is None,
    {
        CopyFeedback { toast: None, clipboard_lease: None }
    }

    /// The toast to draw at `now`, if one is visible.
    pub fn visible_toast(&self, now: u64) -> (r: Option<CopyToast>)
        ensures
            r == match self.toast {
                Some(t) => if now < t.expires_at {
                    Some(t)
                } else {
                    None
                },
                None => None,
            },
    {
        match self.toast {
            Some(t) => if t.is_visible(now) {
                Some(t)
            } else {
                None
            },
            None => None,
        }
    }

    /// Before drawing at `now`: keep a visible toast and ask for a frame when it expires, or
    /// drop an expired toast and redraw.
    pub fn expire_copy_toast(&mut self, now: u64) -> (fx: ToastEffects)
        ensures
            final(self).clipboard_lease == old(self).clipboard_lease,
            match old(self).toast {
                None => final(self).toast is None && fx == (ToastEffects { schedule_frame_in: None, redraw: false }),
                Some(t) => if now < t.expires_at {
                    final(self).toast == Some(t) && fx == (ToastEffects {
                        schedule_frame_in: Some((t.expires_at - now) as u64),
                        redraw: false,
                    })
                } else {
                    final(self).toast is None && fx == (ToastEffects { schedule_frame_in: None, redraw: true })
                },
            },
    {
        match self.toast {
            None => ToastEffects { schedule_frame_in: None, redraw: false },
            Some(t) => {
                if t.is_visible(now) {
                    ToastEffects { schedule_frame_in: Some(t.expires_at - now), redraw: false }
                } else {
                    self.toast = None;
                    ToastEffects { schedule_frame_in: None, redraw: true }
                }
            },
        }
    }

    /// Shows the success toast from `now`.
    pub fn show_copy_success_toast(&mut self, now: u64) -> (fx: ToastEffects)
        requires
            now + TOAST_DURATION_MS <= u64::MAX,
        ensures
            final(self).toast == Some(CopyToast { kind: CopyToastKind::Success, expires_at: (now + TOAST_DURATION_MS) as u64 }),
            final(self).clipboard_lease == old(self).clipboard_lease,
            fx == (ToastEffects { schedule_frame_in: Some(TOAST_DURATION_MS), redraw: true }),
    {
        self.toast = Some(CopyToast::success(now));
        ToastEffects { schedule_frame_in: Some(TOAST_DURATION_MS), redraw: true }
    }

    /// Shows the failure toast from `now`.
    pub fn show_copy_error_toast(&mut self, now: u64) -> (fx: ToastEffects)
        requires
            now + TOAST_DURATION_MS <= u64::MAX,
        ensures
            final(self).toast == Some(CopyToast { kind: CopyToastKind::Error, expires_at: (now + TOAST_DURATION_MS) as u64 }),
            final(self).clipboard_lease == old(self).clipboard_lease,
            fx == (ToastEffects { schedule_frame_in: Some(TOAST_DURATION_MS), redraw: true }),
    {
        self.toast = Some(CopyToast::error(now));
        ToastEffects { schedule_frame_in: Some(TOAST_DURATION_MS), redraw: true }
    }

    /// Records the outcome of a clipboard write made at `now`: on success keep its lease and
    /// show the success toast, on failure show the failure toast.
    pub fn copy_composer_text_with(&mut self, now: u64, outcome: Result<Option<L>, String>) -> (fx: ToastEffects)
        requires
            now + TOAST_DURATION_MS <= u64::MAX,
        ensures
            fx == (ToastEffects { schedule_frame_in: Some(TOAST_DURATION_MS), redraw: true }),
            match outcome {
                Ok(lease) => final(self).clipboard_lease == lease && final(self).toast == Some(
                    CopyToast { kind: CopyToastKind::Success, expires_at: (now + TOAST_DURATION_MS) as u64 },
                ),
                Err(_) => final(self).clipboard_lease == old(self).clipboard_lease && final(self).toast == Some(
                    CopyToast { kind: CopyToastKind::Error, expires_at: (now + TOAST_DURATION_MS) as u64 },
                ),
            },
    {
        match outcome {
            Ok(lease) => {
                self.clipboard_lease = lease;
                self.show_copy_success_toast(now)
            },
            Err(_) => self.show_copy_error_toast(now),
        }
    }
}

} // verus!
