use vstd::prelude::*;
use crate::map::DungeonMap;

verus! {

/// Half of a value, rounded toward zero (as integer division does).
pub open spec fn half(a: int) -> int {
    if a >= 0 {
        a / 2
    } else {
        -((-a) / 2)
    }
}

/// An axis-aligned rectangle of tiles, `(x1, y1)` to `(x2, y2)`.
#[derive(Clone, Copy, Debug, PartialEq, Eq, Structural)]
pub struct Rect {
    pub x1: i32,
    pub x2: i32,
    pub y1: i32,
    pub y2: i32,
}

impl Rect {
    /// Two rectangles overlap, boundaries included.
    pub open spec fn overlaps(self, other: Rect) -> bool {
        self.x1 <= other.x2 && self.x2 >= other.x1 && self.y1 <= other.y2 && self.y2 >= other.y1
    }

    pub open spec fn center_spec(self) -> (int, int) {
        (half(self.x1 + self.x2), half(self.y1 + self.y2))
    }

    /// All four corners lie on a `w` by `h` grid.
    pub open spec fn within(self, w: int, h: int) -> bool {
        0 <= self.x1 < w && 0 <= self.x2 < w && 0 <= self.y1 < h && 0 <= self.y2 < h
    }

    pub fn new(x: i32, y: i32, w: i32, h: i32) -> (r: Rect)
        requires
            i32::MIN <= x + w <= i32::MAX,
            i32::MIN <= y + h <= i32::MAX,
        ensures
            r.x1 == x,
            r.y1 == y,
            r.x2 == x + w,
            r.y2 == y + h,
    {
        Rect { x1: x, y1: y, x2: x + w, y2: y + h }
    }

    pub fn intersect(&self, other: &Rect) -> (r: bool)
        ensures
            r == self.overlaps(*other),
    {
        self.x1 <= other.x2 && self.x2 >= other.x1 && self.y1 <= other.y2 && self.y2 >= other.y1
    }

    pub fn center(&self) -> (r: (i32, i32))
        ensures
            r.0 == self.center_spec().0,
            r.1 == self.center_spec().1,
    {
        let sx: i64 = self.x1 as i64 + self.x2 as i64;
        let sy: i64 = self.y1 as i64 + self.y2 as i64;
        ((sx / 2) as i32, (sy / 2) as i32)
    }

    /// Some corner of the rectangle lies off the map.
    pub fn out_of_bounds(&self, map: &DungeonMap) -> (r: bool)
        ensures
            r == !self.within(map.width as int, map.height as int),
    {
        let corners: [(i32, i32); 4] = [
            (self.x1, self.y1),
            (self.x1, self.y2),
            (self.x2, self.y1),
            (self.x2, self.y2),
        ];
        let mut outside = false;
        let mut i: usize = 0;
        while i < 4
            invariant
                i <= 4,
                corners@ == seq![(self.x1, self.y1), (self.x1, self.y2), (self.x2, self.y1), (self.x2, self.y2)],
                outside == exists|j: int|
                    0 <= j < i && {
                        let c = #[trigger] corners@[j];
                        c.0 < 0 || c.0 >= map.width || c.1 < 0 || c.1 >= map.height
                    },
            decreases 4 - i,
        {
            let c = corners[i];
            if c.0 < 0 || c.0 >= map.width || c.1 < 0 || c.1 >= map.height {
                outside = true;
            }
            i = i + 1;
        }
        proof {
            if !self.within(map.width as int, map.height as int) {
                if self.x1 < 0 || self.x1 >= map.width || self.y1 < 0 || self.y1 >= map.height {
                    assert(corners@[0] == (self.x1, self.y1));
                } else if self.y2 < 0 || self.y2 >= map.height {
                    assert(corners@[1] == (self.x1, self.y2));
                } else {
                    assert(corners@[2] == (self.x2, self.y1));
                }
            }
        }
        outside
    }
}

} // verus!
