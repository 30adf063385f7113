use vstd::prelude::*;

verus! {

/// Declares the outside grid point: two public `i32` coordinates, `x` and `y`.
#[verifier::external_type_specification]
pub struct ExPoint(rltk::Point);

/// An axis-aligned rectangle of tiles, given by two opposite corners.
#[derive(Clone, Copy, Debug, PartialEq, Eq, Structural)]
pub struct Rect {
    pub x1: i32,
    pub y1: i32,
    pub x2: i32,
    pub y2: i32,
}

impl Rect {
    /// The rectangle with corner `(x, y)`, `w` tiles wide and `h` tiles high.
    pub fn new(x: i32, y: i32, w: i32, h: i32) -> (r: Rect)
        requires
            i32::MIN <= x + w <= i32::MAX,
            i32::MIN <= y + h <= i32::MAX,
        ensures
            r == (Rect { x1: x, y1: y, x2: (x + w) as i32, y2: (y + h) as i32 }),
    {
        Rect { x1: x, y1: y, x2: x + w, y2: y + h }
    }

    /// Whether the two rectangles share a tile or an edge.
    pub fn intersect(&self, other: &Rect) -> (b: bool)
        ensures
            b == (self.x1 <= other.x2 && self.x2 >= other.x1 && self.y1 <= other.y2 && self.y2
                >= other.y1),
    {
        self.x1 <= other.x2 && self.x2 >= other.x1 && self.y1 <= other.y2 && self.y2 >= other.y1
    }

    /// The middle tile, each coordinate rounded toward zero.
    pub fn center(&self) -> (c: (i32, i32))
        ensures
            c.0 == Self::half(self.x1 + self.x2),
            c.1 == Self::half(self.y1 + self.y2),
    {
        let sx: i64 = self.x1 as i64 + self.x2 as i64;
        let sy: i64 = self.y1 as i64 + self.y2 as i64;
        ((sx / 2) as i32, (sy / 2) as i32)
    }

    /// Half of `n`, rounded toward zero.
    pub open spec fn half(n: int) -> int {
        if n >= 0 {
            n / 2
        } else {
            -((-n) / 2)
        }
    }
}

} // verus!
