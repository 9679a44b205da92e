use vstd::prelude::*;

verus! {

/// An axis-aligned rectangle with inclusive corners, used for carved rooms.
#[derive(Clone, Copy, PartialEq, Eq, Structural, Debug)]
pub struct Rect {
    pub x1: i32,
    pub y1: i32,
    pub x2: i32,
    pub y2: i32,
}

impl Rect {
    /// The closed rectangles overlap.
    pub open spec fn spec_intersect(self, other: Rect) -> bool {
        self.x1 <= other.x2 && self.x2 >= other.x1 && self.y1 <= other.y2 && self.y2 >= other.y1
    }

    /// The cells carved to floor for this room: the lower/left edges are excluded.
    pub open spec fn interior_contains(self, x: int, y: int) -> bool {
        self.x1 < x <= self.x2 && self.y1 < y <= self.y2
    }

    pub open spec fn spec_center(self) -> (int, int) {
        ((self.x1 + self.x2) / 2, (self.y1 + self.y2) / 2)
    }

    pub fn new(x: i32, y: i32, w: i32, h: i32) -> (r: Rect)
        requires
            0 <= x,
            0 <= y,
            0 <= w,
            0 <= h,
            x + w <= i32::MAX,
            y + h <= i32::MAX,
        ensures
            r.x1 == x,
            r.y1 == y,
            r.x2 == x + w,
            r.y2 == y + h,
    {
        Rect { x1: x, y1: y, x2: x + w, y2: y + h }
    }

    pub fn intersect(&self, other: &Rect) -> (r: bool)
        ensures
            r == self.spec_intersect(*other),
    {
        self.x1 <= other.x2 && self.x2 >= other.x1 && self.y1 <= other.y2 && self.y2 >= other.y1
    }

    /// The integer midpoint of the rectangle.
    pub fn center(&self) -> (c: (i32, i32))
        requires
            0 <= self.x1 <= self.x2,
            0 <= self.y1 <= self.y2,
            self.x1 + self.x2 <= i32::MAX,
            self.y1 + self.y2 <= i32::MAX,
        ensures
            c.0 == self.spec_center().0,
            c.1 == self.spec_center().1,
    {
        ((self.x1 + self.x2) / 2, (self.y1 + self.y2) / 2)
    }
}

} // verus!
