//! Terminal-cell rectangles and positions.

use vstd::prelude::*;

verus! {

/// A terminal cell coordinate.
#[derive(Clone, Copy, Debug, PartialEq, Eq, Structural)]
pub struct Position {
    pub x: u16,
    pub y: u16,
}

/// A rectangle of terminal cells.
#[derive(Clone, Copy, Debug, PartialEq, Eq, Structural)]
pub struct Rect {
    pub x: u16,
    pub y: u16,
    pub width: u16,
    pub height: u16,
}

/// `a + b`, saturating at `u16::MAX`.
pub open spec fn sat_add(a: u16, b: u16) -> u16 {
    if a + b > u16::MAX {
        u16::MAX
    } else {
        (a + b) as u16
    }
}

/// `a - b`, saturating at zero.
pub open spec fn sat_sub(a: u16, b: u16) -> u16 {
    if a >= b {
        (a - b) as u16
    } else {
        0
    }
}

impl Rect {
    /// A rectangle at `(x, y)`; the size is clamped so that the far edges fit in `u16`.
    pub fn new(x: u16, y: u16, width: u16, height: u16) -> (r: Rect)
        ensures
            r == (Rect { x, y, width: (sat_add(x, width) - x) as u16, height: (sat_add(y, height) - y) as u16 }),
    {
        let width = x.saturating_add(width) - x;
        let height = y.saturating_add(height) - y;
        Rect { x, y, width, height }
    }

    /// The first column right of the rectangle (saturating).
    pub open spec fn right_edge(self) -> u16 {
        sat_add(self.x, self.width)
    }

    /// The first row below the rectangle (saturating).
    pub open spec fn bottom_edge(self) -> u16 {
        sat_add(self.y, self.height)
    }

    /// Whether `p` lies inside the rectangle.
    pub open spec fn holds(self, p: Position) -> bool {
        p.x >= self.x && p.x < self.right_edge() && p.y >= self.y && p.y < self.bottom_edge()
    }

    /// The first column right of the rectangle (saturating).
    pub fn right(&self) -> (r: u16)
        ensures
            r == self.right_edge(),
    {
        self.x.saturating_add(self.width)
    }

    /// The first row below the rectangle (saturating).
    pub fn bottom(&self) -> (r: u16)
        ensures
            r == self.bottom_edge(),
    {
        self.y.saturating_add(self.height)
    }

    /// Whether the rectangle covers no cell.
    pub fn is_empty(&self) -> (r: bool)
        ensures
            r == (self.width == 0 || self.height == 0),
    {
        self.width == 0 || self.height == 0
    }

    /// Whether `p` lies inside the rectangle.
    pub fn contains(&self, p: Position) -> (r: bool)
        ensures
            r == self.holds(p),
    {
        p.x >= self.x && p.x < self.right() && p.y >= self.y && p.y < self.bottom()
    }
}

} // verus!
