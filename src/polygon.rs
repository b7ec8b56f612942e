use vstd::prelude::*;
use crate::transform::Transform2D;
use vstd::arithmetic::div_mod::{lemma_small_mod, lemma_mod_add_multiples_vanish};
use crate::point::{Point, RatPoint, COORD_MAX, RAT_NUM_MAX, RAT_DEN_MAX, lemma_mul_bound};

verus! {

/// 2D cross product of `(ux, uy)` and `(vx, vy)`.
pub open spec fn cross(ux: int, uy: int, vx: int, vy: int) -> int {
    ux * vy - uy * vx
}

/// The denominator of the intersection of lines `ab` and `cd`: the normal of
/// `cd` dotted with the direction of `ab`. Zero when the two are parallel.
pub open spec fn seg_den(a: Point, b: Point, c: Point, d: Point) -> int {
    -(d.y - c.y) * (b.x - a.x) + (d.x - c.x) * (b.y - a.y)
}

/// The numerator of the parameter `t` along `ab` at which it meets line `cd`.
pub open spec fn seg_num(a: Point, b: Point, c: Point, d: Point) -> int {
    -(-(d.y - c.y) * (a.x - c.x) + (d.x - c.x) * (a.y - c.y))
}

/// `|seg_den|`.
pub open spec fn seg_den_abs(a: Point, b: Point, c: Point, d: Point) -> int {
    if seg_den(a, b, c, d) > 0 { seg_den(a, b, c, d) } else { -seg_den(a, b, c, d) }
}

/// `seg_num` over the positive denominator `seg_den_abs`.
pub open spec fn seg_num_norm(a: Point, b: Point, c: Point, d: Point) -> int {
    if seg_den(a, b, c, d) > 0 { seg_num(a, b, c, d) } else { -seg_num(a, b, c, d) }
}

/// Numerator of the x coordinate of `a + t (b - a)` over `seg_den_abs`.
pub open spec fn seg_px(a: Point, b: Point, c: Point, d: Point) -> int {
    a.x * seg_den_abs(a, b, c, d) + seg_num_norm(a, b, c, d) * (b.x - a.x)
}

/// Numerator of the y coordinate of `a + t (b - a)` over `seg_den_abs`.
pub open spec fn seg_py(a: Point, b: Point, c: Point, d: Point) -> int {
    a.y * seg_den_abs(a, b, c, d) + seg_num_norm(a, b, c, d) * (b.y - a.y)
}

/// Projection of `p - c` onto `d - c`, scaled by `seg_den_abs`.
pub open spec fn seg_proj(a: Point, b: Point, c: Point, d: Point) -> int {
    (seg_px(a, b, c, d) - c.x * seg_den_abs(a, b, c, d)) * (d.x - c.x) + (seg_py(a, b, c, d)
        - c.y * seg_den_abs(a, b, c, d)) * (d.y - c.y)
}

/// Squared length of `cd`.
pub open spec fn len2(c: Point, d: Point) -> int {
    (d.x - c.x) * (d.x - c.x) + (d.y - c.y) * (d.y - c.y)
}

/// The point where the bounded segments `ab` and `cd` meet, both ends
/// included; `None` when they are parallel (or one of them is a single point)
/// or when they do not meet.
pub open spec fn segment_intersection(a: Point, b: Point, c: Point, d: Point) -> Option<RatPoint> {
    let den = seg_den_abs(a, b, c, d);
    let num = seg_num_norm(a, b, c, d);
    let s = seg_proj(a, b, c, d);
    if seg_den(a, b, c, d) == 0 {
        None
    } else if !(0 <= num <= den) {
        None
    } else if !(0 <= s <= den * len2(c, d)) {
        None
    } else {
        Some(
            RatPoint {
                x: seg_px(a, b, c, d) as i128,
                y: seg_py(a, b, c, d) as i128,
                den: den as i128,
            },
        )
    }
}

/// Intersection of the bounded segments `ab` and `cd`, ends included.
pub fn segments_intersect(a: Point, b: Point, c: Point, d: Point) -> (r: Option<RatPoint>)
    requires
        a.in_range(),
        b.in_range(),
        c.in_range(),
        d.in_range(),
    ensures
        r == segment_intersection(a, b, c, d),
        r matches Some(p) ==> p.bounded(),
{
    let ghost m: int = COORD_MAX as int;
    let abx = b.x as i128 - a.x as i128;
    let aby = b.y as i128 - a.y as i128;
    let cdx = d.x as i128 - c.x as i128;
    let cdy = d.y as i128 - c.y as i128;
    let acx = a.x as i128 - c.x as i128;
    let acy = a.y as i128 - c.y as i128;
    let nx = -cdy;
    let ny = cdx;
    proof {
        lemma_mul_bound(nx as int, abx as int, 2 * m, 2 * m);
        lemma_mul_bound(ny as int, aby as int, 2 * m, 2 * m);
        lemma_mul_bound(nx as int, acx as int, 2 * m, 2 * m);
        lemma_mul_bound(ny as int, acy as int, 2 * m, 2 * m);
    }
    let den = nx * abx + ny * aby;
    let num = -(nx * acx + ny * acy);
    if den == 0 {
        return None;
    }
    let (den, num) = if den > 0 { (den, num) } else { (-den, -num) };
    if !(0 <= num && num <= den) {
        return None;
    }
    proof {
        lemma_mul_bound(a.x as int, den as int, m, 8 * m * m);
        lemma_mul_bound(a.y as int, den as int, m, 8 * m * m);
        lemma_mul_bound(num as int, abx as int, 8 * m * m, 2 * m);
        lemma_mul_bound(num as int, aby as int, 8 * m * m, 2 * m);
        lemma_mul_bound(c.x as int, den as int, m, 8 * m * m);
        lemma_mul_bound(c.y as int, den as int, m, 8 * m * m);
    }
    let px = a.x as i128 * den + num * abx;
    let py = a.y as i128 * den + num * aby;
    let qx = px - c.x as i128 * den;
    let qy = py - c.y as i128 * den;
    proof {
        lemma_mul_bound(qx as int, cdx as int, 32 * m * m * m, 2 * m);
        lemma_mul_bound(qy as int, cdy as int, 32 * m * m * m, 2 * m);
        lemma_mul_bound(cdx as int, cdx as int, 2 * m, 2 * m);
        lemma_mul_bound(cdy as int, cdy as int, 2 * m, 2 * m);
    }
    let s = qx * cdx + qy * cdy;
    let l2 = cdx * cdx + cdy * cdy;
    proof {
        lemma_mul_bound(den as int, l2 as int, 8_000_000_000_000, 8_000_000_000_000);
    }
    if !(0 <= s && s <= den * l2) {
        return None;
    }
    Some(RatPoint { x: px, y: py, den })
}

/// The candidate intersection of edge `i` with edge `j` of the closed polygon `v`.
pub open spec fn edge_pair_intersection(v: Seq<Point>, i: int, j: int) -> Option<RatPoint> {
    let n = v.len() as int;
    segment_intersection(v[i], v[(i + 1) % n], v[j], v[(j + 1) % n])
}

/// Some point of `found` is the same point of the plane as `p`.
pub open spec fn has_same_point(found: Seq<RatPoint>, p: RatPoint) -> bool {
    exists|k: int| 0 <= k < found.len() && (#[trigger] found[k]).same_point(&p)
}

/// `found` with `cand` appended, unless it is absent or already present.
pub open spec fn record_point(found: Seq<RatPoint>, cand: Option<RatPoint>) -> Seq<RatPoint> {
    match cand {
        Some(p) => if has_same_point(found, p) { found } else { found.push(p) },
        None => found,
    }
}

/// Scan of edge `i` against the edges `j, j+1, .., n-1`, skipping the edge
/// adjacent to `i` through the wrap-around.
pub open spec fn scan_edge(v: Seq<Point>, i: int, j: int, found: Seq<RatPoint>) -> Seq<RatPoint>
    decreases v.len() - j,
{
    if j >= v.len() {
        found
    } else {
        let next = if (j + 1) % (v.len() as int) == i {
            found
        } else {
            record_point(found, edge_pair_intersection(v, i, j))
        };
        scan_edge(v, i, j + 1, next)
    }
}

/// Scan of the edges `i, i+1, .., n-1`, each against the later non-adjacent ones.
pub open spec fn scan_edges(v: Seq<Point>, i: int, found: Seq<RatPoint>) -> Seq<RatPoint>
    decreases v.len() - i,
{
    if i >= v.len() {
        found
    } else {
        scan_edges(v, i + 1, scan_edge(v, i, i + 2, found))
    }
}

/// The self-intersection points of the closed polygon `v`, each point once,
/// in the order of discovery; none with fewer than four vertices.
pub open spec fn intersections_of(v: Seq<Point>) -> Seq<RatPoint> {
    if v.len() < 4 {
        Seq::empty()
    } else {
        scan_edges(v, 0, Seq::empty())
    }
}

pub open spec fn all_in_range(v: Seq<Point>) -> bool {
    forall|k: int| 0 <= k < v.len() ==> (#[trigger] v[k]).in_range()
}

pub open spec fn all_bounded(v: Seq<RatPoint>) -> bool {
    forall|k: int| 0 <= k < v.len() ==> (#[trigger] v[k]).bounded()
}

/// Whether `found` holds a point equal to `p`.
fn holds_same_point(found: &Vec<RatPoint>, p: &RatPoint) -> (r: bool)
    requires
        all_bounded(found@),
        p.bounded(),
    ensures
        r == has_same_point(found@, *p),
{
    let mut k: usize = 0;
    while k < found.len()
        invariant
            all_bounded(found@),
            p.bounded(),
            k <= found.len(),
            forall|m: int| 0 <= m < k ==> !(#[trigger] found@[m]).same_point(p),
        decreases found.len() - k,
    {
        if found[k].same_as(p) {
            return true;
        }
        k += 1;
    }
    false
}

/// Computes `intersections_of(v)`.
fn compute_intersections(v: &Vec<Point>) -> (r: Vec<RatPoint>)
    requires
        all_in_range(v@),
    ensures
        r@ == intersections_of(v@),
        all_bounded(r@),
{
    let mut found: Vec<RatPoint> = Vec::new();
    let n = v.len();
    if n < 4 {
        return found;
    }
    let mut i: usize = 0;
    while i < n
        invariant
            n == v.len(),
            n >= 4,
            all_in_range(v@),
            i <= n,
            scan_edges(v@, i as int, found@) == intersections_of(v@),
            all_bounded(found@),
        decreases n - i,
    {
        let a = v[i];
        let b = v[(i + 1) % n];
        let mut j: usize = if n - i > 2 { i + 2 } else { n };
        while j < n
            invariant
                n == v.len(),
                n >= 4,
                all_in_range(v@),
                i < n,
                a == v@[i as int],
                b == v@[(i + 1) % (n as int)],
                scan_edges(v@, i + 1, scan_edge(v@, i as int, j as int, found@))
                    == intersections_of(v@),
                all_bounded(found@),
            decreases n - j,
        {
            if (j + 1) % n != i {
                let c = v[j];
                let d = v[(j + 1) % n];
                if let Some(p) = segments_intersect(a, b, c, d) {
                    if !holds_same_point(&found, &p) {
                        found.push(p);
                    }
                }
            }
            j += 1;
        }
        i += 1;
    }
    found
}

/// The turn at vertex `i + 1` of the closed polygon `v`: the cross product of
/// the edge into it with the edge out of it.
pub open spec fn turn(v: Seq<Point>, i: int) -> int {
    let n = v.len() as int;
    let p1 = v[i];
    let p2 = v[(i + 1) % n];
    let p3 = v[(i + 2) % n];
    cross(p2.x - p1.x, p2.y - p1.y, p3.x - p2.x, p3.y - p2.y)
}

/// At least three vertices, and no two turns of opposite sign; straight
/// turns count for neither side.
pub open spec fn is_convex_spec(v: Seq<Point>) -> bool {
    &&& v.len() >= 3
    &&& !exists|i: int, j: int|
        0 <= i < v.len() && 0 <= j < v.len() && #[trigger] turn(v, i) > 0 && #[trigger] turn(v, j)
            < 0
}

/// The edge from `vi` to `vj` crosses the ray from `(x, y)` towards `+x`:
/// exactly one end lies above the ray, and the edge meets the ray's line to
/// the right of `(x, y)`.
pub open spec fn crosses_ray(vi: Point, vj: Point, x: int, y: int) -> bool {
    &&& (vi.y > y) != (vj.y > y)
    &&& if vj.y > vi.y {
        (x - vi.x) * (vj.y - vi.y) < (vj.x - vi.x) * (y - vi.y)
    } else {
        (x - vi.x) * (vj.y - vi.y) > (vj.x - vi.x) * (y - vi.y)
    }
}

/// How many of the edges `0 .. k` of the closed polygon `v` cross the ray
/// from `(x, y)` towards `+x`.
pub open spec fn crossing_count(v: Seq<Point>, x: int, y: int, k: int) -> nat
    decreases k,
{
    if k <= 0 {
        0
    } else {
        crossing_count(v, x, y, k - 1) + if crosses_ray(v[k - 1], v[k % (v.len() as int)], x, y) {
            1nat
        } else {
            0nat
        }
    }
}

/// Whether the shape `v` holds `(x, y)`: for one vertex, that point alone; for
/// two, the segment between them, ends included; for more, the points of odd
/// crossing parity.
pub open spec fn contains_spec(v: Seq<Point>, x: int, y: int) -> bool {
    if v.len() == 0 {
        false
    } else if v.len() == 1 {
        v[0].x == x && v[0].y == y
    } else if v.len() == 2 {
        let p1 = v[0];
        let p2 = v[1];
        let dot = (x - p1.x) * (p2.x - p1.x) + (y - p1.y) * (p2.y - p1.y);
        &&& cross(p2.x - p1.x, p2.y - p1.y, x - p1.x, y - p1.y) == 0
        &&& 0 <= dot <= len2(p1, p2)
    } else {
        crossing_count(v, x, y, v.len() as int) % 2 == 1
    }
}

/// Sum of the x coordinates of the first `k` points of `v`.
pub open spec fn sum_x(v: Seq<Point>, k: int) -> int
    decreases k,
{
    if k <= 0 { 0 } else { sum_x(v, k - 1) + v[k - 1].x }
}

/// Sum of the y coordinates of the first `k` points of `v`.
pub open spec fn sum_y(v: Seq<Point>, k: int) -> int
    decreases k,
{
    if k <= 0 { 0 } else { sum_y(v, k - 1) + v[k - 1].y }
}

/// A polygon: vertices in winding order, edges between consecutive vertices
/// and, from three vertices on, from the last back to the first. A single
/// point and a single segment count as polygons too.
#[derive(Clone, Debug)]
pub struct Polygon {
    vertexes: Vec<Point>,
    intersections: Vec<RatPoint>,
}

impl View for Polygon {
    type V = Seq<Point>;

    closed spec fn view(&self) -> Seq<Point> {
        self.vertexes@
    }
}

impl Polygon {
    /// The cached self-intersection points.
    pub closed spec fn intersection_points(&self) -> Seq<RatPoint> {
        self.intersections@
    }

    /// At least one vertex, all in range, and the cache equal to the
    /// self-intersections of the vertices.
    pub open spec fn wf(&self) -> bool {
        &&& self@.len() >= 1
        &&& all_in_range(self@)
        &&& self.intersection_points() == intersections_of(self@)
        &&& all_bounded(self.intersection_points())
    }

    /// A polygon of the one vertex `(x, y)`.
    pub fn new(x: i64, y: i64) -> (r: Polygon)
        requires
            (Point { x, y }).in_range(),
        ensures
            r.wf(),
            r@ == seq![Point { x, y }],
            r.intersection_points() == Seq::<RatPoint>::empty(),
    {
        let mut vertexes: Vec<Point> = Vec::new();
        vertexes.push(Point::new(x, y));
        Polygon { vertexes, intersections: Vec::new() }
    }

    /// A polygon of the one vertex `pos`.
    pub fn from_pos(pos: Point) -> (r: Polygon)
        requires
            pos.in_range(),
        ensures
            r.wf(),
            r@ == seq![pos],
            r.intersection_points() == Seq::<RatPoint>::empty(),
    {
        Self::new(pos.x, pos.y)
    }

    /// Appends the vertex `(x, y)` and recomputes the self-intersections.
    pub fn add_vertex(&mut self, x: i64, y: i64)
        requires
            old(self).wf(),
            (Point { x, y }).in_range(),
        ensures
            final(self).wf(),
            final(self)@ == old(self)@.push(Point { x, y }),
            final(self).intersection_points() == intersections_of(final(self)@),
    {
        self.vertexes.push(Point::new(x, y));
        self.update_intersections();
    }

    /// Appends the vertex `pos` and recomputes the self-intersections.
    pub fn add_vertex_pos(&mut self, pos: Point)
        requires
            old(self).wf(),
            pos.in_range(),
        ensures
            final(self).wf(),
            final(self)@ == old(self)@.push(pos),
            final(self).intersection_points() == intersections_of(final(self)@),
    {
        self.add_vertex(pos.x, pos.y);
    }

    fn update_intersections(&mut self)
        requires
            old(self)@.len() >= 1,
            all_in_range(old(self)@),
        ensures
            final(self).wf(),
            final(self)@ == old(self)@,
    {
        self.intersections = compute_intersections(&self.vertexes);
    }

    /// Maps every vertex through `transform`, all or none: when some image
    /// would leave the coordinate range, nothing changes and the result is
    /// `false`. The self-intersections are then those of the new vertices,
    /// which for an invertible map are the images of the old ones.
    pub fn apply_transform(&mut self, transform: Transform2D) -> (r: bool)
        requires
            old(self).wf(),
            transform.wf(),
        ensures
            final(self).wf(),
            r == transform.keeps_in_range(old(self)@),
            r ==> transform.maps(old(self)@, final(self)@),
            !r ==> *final(self) == *old(self),
    {
        let mut moved: Vec<Point> = Vec::new();
        let mut k: usize = 0;
        while k < self.vertexes.len()
            invariant
                self.wf(),
                transform.wf(),
                k <= self@.len(),
                transform.keeps_in_range(self@.subrange(0, k as int)),
                transform.maps(self@.subrange(0, k as int), moved@),
                all_in_range(moved@),
            decreases self@.len() - k,
        {
            let q = transform.apply_to_pos(self.vertexes[k]);
            if !q.is_in_range() {
                assert(self@.subrange(0, k as int + 1)[k as int] == self@[k as int]);
                return false;
            }
            moved.push(q);
            k += 1;
        }
        assert(self@.subrange(0, self@.len() as int) == self@);
        self.vertexes = moved;
        self.update_intersections();
        true
    }

    /// Whether the polygon is a single point.
    pub fn is_vertex(&self) -> (r: bool)
        ensures
            r == (self@.len() == 1),
    {
        self.vertexes.len() == 1
    }

    /// Whether the polygon is a single segment.
    pub fn is_edge(&self) -> (r: bool)
        ensures
            r == (self@.len() == 2),
    {
        self.vertexes.len() == 2
    }

    /// Whether no two turns along the boundary have opposite signs; never
    /// for fewer than three vertices.
    pub fn is_convex(&self) -> (r: bool)
        requires
            self.wf(),
        ensures
            r == is_convex_spec(self@),
            self@.len() < 3 ==> !r,
    {
        let n = self.vertexes.len();
        if n < 3 {
            return false;
        }
        let ghost v = self@;
        let mut sign: i8 = 0;
        let mut i: usize = 0;
        while i < n
            invariant
                n == v.len(),
                v == self@,
                n >= 3,
                all_in_range(v),
                i <= n,
                -1 <= sign <= 1,
                sign == 0 ==> forall|k: int| 0 <= k < i ==> #[trigger] turn(v, k) == 0,
                sign == 1 ==> forall|k: int| 0 <= k < i ==> #[trigger] turn(v, k) >= 0,
                sign == -1 ==> forall|k: int| 0 <= k < i ==> #[trigger] turn(v, k) <= 0,
                sign == 1 ==> exists|k: int| 0 <= k < i && #[trigger] turn(v, k) > 0,
                sign == -1 ==> exists|k: int| 0 <= k < i && #[trigger] turn(v, k) < 0,
            decreases n - i,
        {
            let p1 = self.vertexes[i];
            let p2 = self.vertexes[(i + 1) % n];
            let i2: usize = if n - i > 2 { i + 2 } else { 2 - (n - i) };
            proof {
                if n - i > 2 {
                    lemma_small_mod((i + 2) as nat, n as nat);
                } else {
                    lemma_mod_add_multiples_vanish(i2 as int, n as int);
                    lemma_small_mod(i2 as nat, n as nat);
                }
            }
            let p3 = self.vertexes[i2];
            let ux = p2.x - p1.x;
            let uy = p2.y - p1.y;
            let wx = p3.x - p2.x;
            let wy = p3.y - p2.y;
            proof {
                let m = 2 * COORD_MAX as int;
                lemma_mul_bound(ux as int, wy as int, m, m);
                lemma_mul_bound(uy as int, wx as int, m, m);
            }
            let cross_product = ux * wy - uy * wx;
            assert(cross_product == turn(v, i as int));
            if cross_product != 0 {
                let current: i8 = if cross_product > 0 { 1 } else { -1 };
                if sign == 0 {
                    sign = current;
                } else if sign != current {
                    return false;
                }
            }
            i += 1;
        }
        true
    }

    /// Whether the polygon holds the point `(x, y)`.
    pub fn contains(&self, x: i64, y: i64) -> (r: bool)
        requires
            self.wf(),
        ensures
            r == contains_spec(self@, x as int, y as int),
    {
        let n = self.vertexes.len();
        let ghost v = self@;
        let big: i128 = 10_000_000_000_000_000_000;
        let two_m: i128 = 2 * COORD_MAX as i128;
        if n == 1 {
            self.vertexes[0].x == x && self.vertexes[0].y == y
        } else if n == 2 {
            let p1 = self.vertexes[0];
            let p2 = self.vertexes[1];
            let ux = p2.x as i128 - p1.x as i128;
            let uy = p2.y as i128 - p1.y as i128;
            let qx = x as i128 - p1.x as i128;
            let qy = y as i128 - p1.y as i128;
            proof {
                lemma_mul_bound(ux as int, qy as int, two_m as int, big as int);
                lemma_mul_bound(uy as int, qx as int, two_m as int, big as int);
                lemma_mul_bound(ux as int, ux as int, two_m as int, two_m as int);
                lemma_mul_bound(uy as int, uy as int, two_m as int, two_m as int);
                lemma_mul_bound(qx as int, ux as int, big as int, two_m as int);
                lemma_mul_bound(qy as int, uy as int, big as int, two_m as int);
            }
            let cross_product = ux * qy - uy * qx;
            if cross_product != 0 {
                return false;
            }
            let dot = qx * ux + qy * uy;
            dot >= 0 && dot <= ux * ux + uy * uy
        } else {
            let mut inside = false;
            let mut i: usize = 0;
            while i < n
                invariant
                    n == v.len(),
                    v == self@,
                    n >= 3,
                    all_in_range(v),
                    i <= n,
                    big == 10_000_000_000_000_000_000,
                    two_m == 2 * COORD_MAX,
                    inside == (crossing_count(v, x as int, y as int, i as int) % 2 == 1),
                decreases n - i,
            {
                let j = (i + 1) % n;
                let vi = self.vertexes[i];
                let vj = self.vertexes[j];
                if (vi.y > y) != (vj.y > y) {
                    let dy = vj.y as i128 - vi.y as i128;
                    let qx = x as i128 - vi.x as i128;
                    let qy = y as i128 - vi.y as i128;
                    let ex = vj.x as i128 - vi.x as i128;
                    proof {
                        lemma_mul_bound(qx as int, dy as int, big as int, two_m as int);
                        lemma_mul_bound(ex as int, qy as int, two_m as int, big as int);
                    }
                    let lhs = qx * dy;
                    let rhs = ex * qy;
                    let crossing = if dy > 0 { lhs < rhs } else { lhs > rhs };
                    if crossing {
                        inside = !inside;
                    }
                }
                i += 1;
            }
            inside
        }
    }

    /// Whether the polygon holds the point `pos`.
    pub fn contains_pos(&self, pos: Point) -> (r: bool)
        requires
            self.wf(),
        ensures
            r == contains_spec(self@, pos.x as int, pos.y as int),
    {
        self.contains(pos.x, pos.y)
    }

    /// The mean of the vertices: `(sum of x, sum of y) / vertex count`.
    pub fn get_center(&self) -> (r: RatPoint)
        requires
            self.wf(),
        ensures
            r.x == sum_x(self@, self@.len() as int),
            r.y == sum_y(self@, self@.len() as int),
            r.den == self@.len(),
    {
        let n = self.vertexes.len();
        let ghost v = self@;
        let mut sx: i128 = 0;
        let mut sy: i128 = 0;
        let mut k: usize = 0;
        while k < n
            invariant
                n == v.len(),
                v == self@,
                all_in_range(v),
                k <= n,
                sx == sum_x(v, k as int),
                sy == sum_y(v, k as int),
                -(k * COORD_MAX) <= sx <= k * COORD_MAX,
                -(k * COORD_MAX) <= sy <= k * COORD_MAX,
            decreases n - k,
        {
            sx = sx + self.vertexes[k].x as i128;
            sy = sy + self.vertexes[k].y as i128;
            k += 1;
        }
        RatPoint { x: sx, y: sy, den: n as i128 }
    }

    /// The vertices in winding order.
    pub fn vertexes(&self) -> (r: &[Point])
        ensures
            r@ == self@,
    {
        self.vertexes.as_slice()
    }

    /// The self-intersection points, in the order they were found.
    pub fn intersections(&self) -> (r: &[RatPoint])
        ensures
            r@ == self.intersection_points(),
    {
        self.intersections.as_slice()
    }
}

} // verus!
