use vstd::prelude::*;

verus! {

/// Largest magnitude of a vertex coordinate that a polygon holds.
pub const COORD_MAX: i64 = 1_000_000;

/// A point with integer coordinates.
#[derive(Clone, Copy, Debug, PartialEq, Eq, Structural)]
pub struct Point {
    pub x: i64,
    pub y: i64,
}

/// A point with rational coordinates `(x / den, y / den)`.
#[derive(Clone, Copy, Debug)]
pub struct RatPoint {
    pub x: i128,
    pub y: i128,
    pub den: i128,
}

impl Point {
    pub fn new(x: i64, y: i64) -> (r: Point)
        ensures
            r.x == x,
            r.y == y,
    {
        Point { x, y }
    }

    /// Both coordinates lie within `[-COORD_MAX, COORD_MAX]`.
    pub open spec fn in_range(&self) -> bool {
        -COORD_MAX <= self.x <= COORD_MAX && -COORD_MAX <= self.y <= COORD_MAX
    }

    pub fn is_in_range(&self) -> (r: bool)
        ensures
            r == self.in_range(),
    {
        -COORD_MAX <= self.x && self.x <= COORD_MAX && -COORD_MAX <= self.y && self.y
            <= COORD_MAX
    }

    /// This point as a rational point with denominator one.
    pub fn to_rat(&self) -> (r: RatPoint)
        ensures
            r.x == self.x,
            r.y == self.y,
            r.den == 1,
    {
        RatPoint { x: self.x as i128, y: self.y as i128, den: 1 }
    }
}

impl RatPoint {
    /// A rational point; `None` unless `den` is positive.
    pub fn new(x: i128, y: i128, den: i128) -> (r: Option<RatPoint>)
        ensures
            den > 0 <==> r is Some,
            r matches Some(p) ==> p.x == x && p.y == y && p.den == den,
    {
        if den > 0 {
            Some(RatPoint { x, y, den })
        } else {
            None
        }
    }

    /// Whether `self` and `o` denote the same point of the plane.
    pub open spec fn same_point(&self, o: &RatPoint) -> bool {
        self.x * o.den == o.x * self.den && self.y * o.den == o.y * self.den
    }

    /// Numerators and denominator small enough for exact comparison.
    pub open spec fn bounded(&self) -> bool {
        0 < self.den <= RAT_DEN_MAX && -RAT_NUM_MAX <= self.x <= RAT_NUM_MAX && -RAT_NUM_MAX
            <= self.y <= RAT_NUM_MAX
    }

    /// Exact comparison of two bounded rational points.
    pub fn same_as(&self, o: &RatPoint) -> (r: bool)
        requires
            self.bounded(),
            o.bounded(),
        ensures
            r == self.same_point(o),
    {
        proof {
            lemma_mul_bound(self.x as int, o.den as int, RAT_NUM_MAX as int, RAT_DEN_MAX as int);
            lemma_mul_bound(o.x as int, self.den as int, RAT_NUM_MAX as int, RAT_DEN_MAX as int);
            lemma_mul_bound(self.y as int, o.den as int, RAT_NUM_MAX as int, RAT_DEN_MAX as int);
            lemma_mul_bound(o.y as int, self.den as int, RAT_NUM_MAX as int, RAT_DEN_MAX as int);
        }
        self.x * o.den == o.x * self.den && self.y * o.den == o.y * self.den
    }
}

/// Bound on the numerators of the rational points the library computes.
pub const RAT_NUM_MAX: i128 = 100_000_000_000_000_000_000;

/// Bound on the denominators of the rational points the library computes.
pub const RAT_DEN_MAX: i128 = 10_000_000_000_000;

/// `|a| <= x` and `|b| <= y` bound `|a * b|` by `x * y`.
pub proof fn lemma_mul_bound(a: int, b: int, x: int, y: int)
    requires
        -x <= a <= x,
        -y <= b <= y,
    ensures
        -(x * y) <= a * b <= x * y,
{
    assert(-(x * y) <= a * b <= x * y) by (nonlinear_arith)
        requires
            -x <= a <= x,
            -y <= b <= y,
    ;
}

} // verus!
