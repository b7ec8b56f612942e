use vstd::prelude::*;
use crate::point::{Point, COORD_MAX, lemma_mul_bound};

verus! {

/// An affine map of the plane with integer coefficients:
/// `(x, y) -> (m11 x + m12 y + dx, m21 x + m22 y + dy)`.
#[derive(Clone, Copy, Debug, PartialEq, Eq, Structural)]
pub struct Transform2D {
    pub m11: i64,
    pub m12: i64,
    pub m21: i64,
    pub m22: i64,
    pub dx: i64,
    pub dy: i64,
}

impl Transform2D {
    /// Every coefficient lies within `[-COORD_MAX, COORD_MAX]`.
    pub open spec fn wf(&self) -> bool {
        -COORD_MAX <= self.m11 <= COORD_MAX && -COORD_MAX <= self.m12 <= COORD_MAX && -COORD_MAX
            <= self.m21 <= COORD_MAX && -COORD_MAX <= self.m22 <= COORD_MAX && -COORD_MAX
            <= self.dx <= COORD_MAX && -COORD_MAX <= self.dy <= COORD_MAX
    }

    /// The x coordinate of the image of `(x, y)`.
    pub open spec fn image_x(&self, x: int, y: int) -> int {
        self.m11 * x + self.m12 * y + self.dx
    }

    /// The y coordinate of the image of `(x, y)`.
    pub open spec fn image_y(&self, x: int, y: int) -> int {
        self.m21 * x + self.m22 * y + self.dy
    }

    /// The map moves every point by `(dx, dy)`.
    pub open spec fn is_translation(&self) -> bool {
        self.m11 == 1 && self.m12 == 0 && self.m21 == 0 && self.m22 == 1
    }

    /// The map scales each axis by a positive factor and then translates:
    /// `(x, y) -> (m11 x + dx, m22 y + dy)` with `m11, m22 > 0`.
    pub open spec fn is_axis_scaling(&self) -> bool {
        self.m11 > 0 && self.m12 == 0 && self.m21 == 0 && self.m22 > 0
    }

    /// The image of every point of `v` lies within the coordinate range.
    pub open spec fn keeps_in_range(&self, v: Seq<Point>) -> bool {
        forall|k: int|
            0 <= k < v.len() ==> -COORD_MAX <= #[trigger] self.image_x(v[k].x as int, v[k].y as int)
                <= COORD_MAX && -COORD_MAX <= self.image_y(v[k].x as int, v[k].y as int)
                <= COORD_MAX
    }

    /// `w` is the image of `v`, point by point.
    pub open spec fn maps(&self, v: Seq<Point>, w: Seq<Point>) -> bool {
        &&& w.len() == v.len()
        &&& forall|k: int|
            0 <= k < v.len() ==> (#[trigger] w[k]).x == self.image_x(v[k].x as int, v[k].y as int)
                && w[k].y == self.image_y(v[k].x as int, v[k].y as int)
    }

    pub fn new(m11: i64, m12: i64, m21: i64, m22: i64, dx: i64, dy: i64) -> (r: Transform2D)
        ensures
            r == (Transform2D { m11, m12, m21, m22, dx, dy }),
    {
        Transform2D { m11, m12, m21, m22, dx, dy }
    }

    /// The map that changes nothing.
    pub fn identity() -> (r: Transform2D)
        ensures
            r == (Transform2D { m11: 1, m12: 0, m21: 0, m22: 1, dx: 0, dy: 0 }),
    {
        Transform2D { m11: 1, m12: 0, m21: 0, m22: 1, dx: 0, dy: 0 }
    }

    /// The map that moves every point by `(dx, dy)`.
    pub fn translation(dx: i64, dy: i64) -> (r: Transform2D)
        ensures
            r == (Transform2D { m11: 1, m12: 0, m21: 0, m22: 1, dx, dy }),
            r.is_translation(),
    {
        Transform2D { m11: 1, m12: 0, m21: 0, m22: 1, dx, dy }
    }

    /// The image of `p`.
    pub fn apply_to_pos(&self, p: Point) -> (r: Point)
        requires
            self.wf(),
            p.in_range(),
        ensures
            r.x == self.image_x(p.x as int, p.y as int),
            r.y == self.image_y(p.x as int, p.y as int),
    {
        proof {
            let m = COORD_MAX as int;
            lemma_mul_bound(self.m11 as int, p.x as int, m, m);
            lemma_mul_bound(self.m12 as int, p.y as int, m, m);
            lemma_mul_bound(self.m21 as int, p.x as int, m, m);
            lemma_mul_bound(self.m22 as int, p.y as int, m, m);
        }
        Point { x: self.m11 * p.x + self.m12 * p.y + self.dx, y: self.m21 * p.x + self.m22 * p.y + self.dy }
    }
}

} // verus!
