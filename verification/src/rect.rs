//! Rectangles of terminal cells.
use vstd::prelude::*;

verus! {

/// `width` by `height` cells, the top left one at column `x` and row `y`.
#[derive(Clone, Copy, Debug, PartialEq, Eq, Structural)]
pub struct Rect {
    pub x: u16,
    pub y: u16,
    pub width: u16,
    pub height: u16,
}

/// The smaller of `a + b` and the largest `u16`.
pub open spec fn add_capped(a: u16, b: u16) -> u16 {
    if a + b > u16::MAX {
        u16::MAX
    } else {
        (a + b) as u16
    }
}

/// The larger of `a - b` and zero.
pub open spec fn sub_floored(a: u16, b: u16) -> u16 {
    if a < b {
        0
    } else {
        (a - b) as u16
    }
}

/// The larger of `a` and one.
pub open spec fn at_least_one(a: u16) -> u16 {
    if a == 0 {
        1
    } else {
        a
    }
}

pub open spec fn min_u16(a: u16, b: u16) -> u16 {
    if a <= b {
        a
    } else {
        b
    }
}

pub fn max_one(a: u16) -> (r: u16)
    ensures
        r == at_least_one(a),
{
    if a == 0 {
        1
    } else {
        a
    }
}

impl Rect {
    /// No rectangle: nothing at the top left.
    pub open spec fn zero() -> Rect {
        Rect { x: 0, y: 0, width: 0, height: 0 }
    }

    /// No cell of the rectangle lies beyond the largest column or row.
    pub open spec fn fits(self) -> bool {
        self.x + self.width <= u16::MAX && self.y + self.height <= u16::MAX
    }

    /// The rectangle of that size, cut off at the largest column and row.
    pub open spec fn cut(x: u16, y: u16, width: u16, height: u16) -> Rect {
        Rect {
            x,
            y,
            width: (add_capped(x, width) - x) as u16,
            height: (add_capped(y, height) - y) as u16,
        }
    }

    /// The cell at column `point.0` and row `point.1` is one of the rectangle's.
    pub open spec fn holds(self, point: (u16, u16)) -> bool {
        self.x <= point.0 < self.x + self.width && self.y <= point.1 < self.y + self.height
    }

    /// Each cell of `other` is one of the rectangle's too.
    pub open spec fn covers(self, other: Rect) -> bool {
        ||| other.width == 0
        ||| other.height == 0
        ||| {
            &&& self.x <= other.x
            &&& self.y <= other.y
            &&& add_capped(other.x, other.width) <= add_capped(self.x, self.width)
            &&& add_capped(other.y, other.height) <= add_capped(self.y, self.height)
        }
    }

    pub fn new(x: u16, y: u16, width: u16, height: u16) -> (rect: Rect)
        ensures
            rect == Rect::cut(x, y, width, height),
            rect.fits(),
    {
        Rect { x, y, width: x.saturating_add(width) - x, height: y.saturating_add(height) - y }
    }

    /// The row below the last one, or the largest row.
    pub fn bottom(&self) -> (bottom: u16)
        ensures
            bottom == add_capped(self.y, self.height),
    {
        self.y.saturating_add(self.height)
    }
}

/// Tells whether `point` lies in `rect`.
pub fn contains(rect: Rect, point: (u16, u16)) -> (inside: bool)
    ensures
        inside == rect.holds(point),
{
    point.0 >= rect.x && point.0 - rect.x < rect.width && point.1 >= rect.y && point.1 - rect.y
        < rect.height
}

} // verus!
