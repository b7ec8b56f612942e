use vstd::prelude::*;
use crate::point::{Point, RatPoint, COORD_MAX, lemma_mul_bound};
use crate::polygon::{
    intersections_of, scan_edges, scan_edge, record_point, has_same_point,
    contains_spec, cross, crossing_count, crosses_ray, segment_intersection, seg_den, seg_den_abs,
    seg_num, seg_num_norm, seg_px, seg_py, seg_proj, len2,
};
use crate::transform::Transform2D;
use vstd::arithmetic::mul::lemma_mul_is_distributive_sub;

verus! {

/// Two segments that share an endpoint `q` and are not parallel meet exactly
/// at `q`: the bounds on both segments include their ends.
pub proof fn lemma_shared_endpoint_intersection(a: Point, b: Point, c: Point, d: Point, q: Point)
    requires
        a.in_range(),
        b.in_range(),
        c.in_range(),
        d.in_range(),
        q == a || q == b,
        q == c || q == d,
        seg_den(a, b, c, d) != 0,
    ensures
        segment_intersection(a, b, c, d) matches Some(p) && p.den > 0 && p.x == q.x * p.den
            && p.y == q.y * p.den,
{
    let m: int = 2_000_000;
    let den = seg_den(a, b, c, d);
    let num = seg_num(a, b, c, d);
    let dd = seg_den_abs(a, b, c, d);
    let (abx, aby) = (b.x - a.x, b.y - a.y);
    let (cdx, cdy) = (d.x - c.x, d.y - c.y);
    lemma_mul_bound(-cdy, abx, m, m);
    lemma_mul_bound(cdx, aby, m, m);
    lemma_mul_bound(q.x as int, dd, COORD_MAX as int, 8_000_000_000_000);
    lemma_mul_bound(q.y as int, dd, COORD_MAX as int, 8_000_000_000_000);
    // the normal of `cd` is orthogonal to `cd`
    assert(-cdy * cdx + cdx * cdy == 0) by (nonlinear_arith);
    if q == a {
        if q == c {
            assert(num == 0) by (nonlinear_arith)
                requires
                    a == c,
                    num == -(-(d.y - c.y) * (a.x - c.x) + (d.x - c.x) * (a.y - c.y)),
            ;
        } else {
            assert(num == 0) by (nonlinear_arith)
                requires
                    a == d,
                    num == -(-(d.y - c.y) * (a.x - c.x) + (d.x - c.x) * (a.y - c.y)),
            ;
        }
    } else {
        if q == c {
            assert(num == den) by (nonlinear_arith)
                requires
                    b == c,
                    num == -(-(d.y - c.y) * (a.x - c.x) + (d.x - c.x) * (a.y - c.y)),
                    den == -(d.y - c.y) * (b.x - a.x) + (d.x - c.x) * (b.y - a.y),
            ;
        } else {
            assert(num == den) by (nonlinear_arith)
                requires
                    b == d,
                    num == -(-(d.y - c.y) * (a.x - c.x) + (d.x - c.x) * (a.y - c.y)),
                    den == -(d.y - c.y) * (b.x - a.x) + (d.x - c.x) * (b.y - a.y),
            ;
        }
    }
    let px = seg_px(a, b, c, d);
    let py = seg_py(a, b, c, d);
    assert(px == q.x * dd && py == q.y * dd) by (nonlinear_arith)
        requires
            dd > 0,
            q == a || q == b,
            q == a ==> seg_num_norm(a, b, c, d) == 0,
            q != a ==> seg_num_norm(a, b, c, d) == dd,
            px == a.x * dd + seg_num_norm(a, b, c, d) * (b.x - a.x),
            py == a.y * dd + seg_num_norm(a, b, c, d) * (b.y - a.y),
    ;
    let s = seg_proj(a, b, c, d);
    assert(s == (q.x - c.x) * dd * cdx + (q.y - c.y) * dd * cdy) by (nonlinear_arith)
        requires
            px == q.x * dd,
            py == q.y * dd,
            s == (px - c.x * dd) * (d.x - c.x) + (py - c.y * dd) * (d.y - c.y),
            cdx == d.x - c.x,
            cdy == d.y - c.y,
    ;
    if q == c {
        assert(s == 0) by (nonlinear_arith)
            requires
                q == c,
                s == (q.x - c.x) * dd * cdx + (q.y - c.y) * dd * cdy,
        ;
    } else {
        assert(s == dd * len2(c, d)) by (nonlinear_arith)
            requires
                q == d,
                s == (q.x - c.x) * dd * cdx + (q.y - c.y) * dd * cdy,
                cdx == d.x - c.x,
                cdy == d.y - c.y,
        ;
    }
    assert(len2(c, d) >= 0) by (nonlinear_arith);
    assert(dd * len2(c, d) >= 0) by (nonlinear_arith)
        requires
            dd > 0,
            len2(c, d) >= 0,
    ;
}

/// Moving a shape and a point by the same map does not change whether the
/// shape holds the point, for every map that scales each axis by a positive
/// factor and then translates (translations among them).
pub proof fn lemma_contains_axis_scaling(v: Seq<Point>, w: Seq<Point>, t: Transform2D, x: int, y: int)
    requires
        t.is_axis_scaling(),
        t.maps(v, w),
    ensures
        contains_spec(v, x, y) == contains_spec(w, t.image_x(x, y), t.image_y(x, y)),
{
    let n = v.len() as int;
    let sx = t.m11 as int;
    let sy = t.m22 as int;
    let x2 = t.image_x(x, y);
    let y2 = t.image_y(x, y);
    assert(x2 == sx * x + t.dx && y2 == sy * y + t.dy);
    assert forall|k: int| 0 <= k < n implies w[k].x == sx * v[k].x + t.dx && w[k].y == sy * v[k].y
        + t.dy by {
        assert(w[k].x == t.image_x(v[k].x as int, v[k].y as int));
    }
    if n == 1 {
        assert((w[0].x == x2) == (v[0].x == x)) by (nonlinear_arith)
            requires
                sx > 0,
                w[0].x == sx * v[0].x + t.dx,
                x2 == sx * x + t.dx,
        ;
        assert((w[0].y == y2) == (v[0].y == y)) by (nonlinear_arith)
            requires
                sy > 0,
                w[0].y == sy * v[0].y + t.dy,
                y2 == sy * y + t.dy,
        ;
    } else if n == 2 {
        lemma_segment_axis_scaling(
            v[1].x - v[0].x,
            v[1].y - v[0].y,
            x - v[0].x,
            y - v[0].y,
            sx,
            sy,
        );
        assert(w[1].x - w[0].x == sx * (v[1].x - v[0].x)) by (nonlinear_arith)
            requires
                w[0].x == sx * v[0].x + t.dx,
                w[1].x == sx * v[1].x + t.dx,
        ;
        assert(w[1].y - w[0].y == sy * (v[1].y - v[0].y)) by (nonlinear_arith)
            requires
                w[0].y == sy * v[0].y + t.dy,
                w[1].y == sy * v[1].y + t.dy,
        ;
        assert(x2 - w[0].x == sx * (x - v[0].x)) by (nonlinear_arith)
            requires
                w[0].x == sx * v[0].x + t.dx,
                x2 == sx * x + t.dx,
        ;
        assert(y2 - w[0].y == sy * (y - v[0].y)) by (nonlinear_arith)
            requires
                w[0].y == sy * v[0].y + t.dy,
                y2 == sy * y + t.dy,
        ;
    } else if n >= 3 {
        lemma_crossing_count_axis_scaling(v, w, t, x, y, n);
    }
}

/// The segment test of a two-vertex shape, on the segment `u` and the point
/// `q` (both relative to the first vertex), keeps its answer when the x
/// coordinates are scaled by `sx > 0` and the y coordinates by `sy > 0`.
proof fn lemma_segment_axis_scaling(ux: int, uy: int, qx: int, qy: int, sx: int, sy: int)
    requires
        sx > 0,
        sy > 0,
    ensures
        ({
            let c1 = cross(ux, uy, qx, qy);
            let d1 = qx * ux + qy * uy;
            let l1 = ux * ux + uy * uy;
            let c2 = cross(sx * ux, sy * uy, sx * qx, sy * qy);
            let d2 = (sx * qx) * (sx * ux) + (sy * qy) * (sy * uy);
            let l2 = (sx * ux) * (sx * ux) + (sy * uy) * (sy * uy);
            (c1 == 0 && 0 <= d1 <= l1) == (c2 == 0 && 0 <= d2 <= l2)
        }),
{
    let c1 = cross(ux, uy, qx, qy);
    let d1 = qx * ux + qy * uy;
    let l1 = ux * ux + uy * uy;
    let c2 = cross(sx * ux, sy * uy, sx * qx, sy * qy);
    let d2 = (sx * qx) * (sx * ux) + (sy * qy) * (sy * uy);
    let l2 = (sx * ux) * (sx * ux) + (sy * uy) * (sy * uy);
    lemma_scaled_product(sx, ux, sy, qy);
    lemma_scaled_product(sy, uy, sx, qx);
    assert(sy * sx == sx * sy) by (nonlinear_arith);
    lemma_mul_is_distributive_sub(sx * sy, ux * qy, uy * qx);
    assert(sx * sy > 0) by (nonlinear_arith)
        requires
            sx > 0,
            sy > 0,
    ;
    assert((c2 == 0) == (c1 == 0)) by (nonlinear_arith)
        requires
            c2 == sx * sy * c1,
            sx * sy > 0,
    ;
    if c1 == 0 {
        if ux == 0 && uy == 0 {
            assert(d1 == 0 && l1 == 0 && d2 == 0 && l2 == 0) by (nonlinear_arith)
                requires
                    ux == 0,
                    uy == 0,
                    d1 == qx * ux + qy * uy,
                    l1 == ux * ux + uy * uy,
                    d2 == (sx * qx) * (sx * ux) + (sy * qy) * (sy * uy),
                    l2 == (sx * ux) * (sx * ux) + (sy * uy) * (sy * uy),
            ;
        } else {
            // `q` is a multiple of `u`, so `d / l` is the same on both sides
            lemma_scaled_product(sx, ux, sy, qy);
            lemma_scaled_product(sy, uy, sx, qx);
            assert(sy * sx == sx * sy) by (nonlinear_arith);
            assert((sx * sy) * (ux * qy) == (sx * sy) * (uy * qx));
            lemma_collinear_ratio(ux, uy, qx, qy);
            lemma_collinear_ratio(sx * ux, sy * uy, sx * qx, sy * qy);
            lemma_scaled_product(sx, ux, 1, d2);
            lemma_scaled_product(sx, qx, 1, l2);
            lemma_scaled_product(sy, uy, 1, d2);
            lemma_scaled_product(sy, qy, 1, l2);
            lemma_cancel(sx, ux * d2, qx * l2);
            lemma_cancel(sy, uy * d2, qy * l2);
            assert(d2 * l1 == d1 * l2) by (nonlinear_arith)
                requires
                    ux != 0 || uy != 0,
                    ux * d2 == qx * l2,
                    uy * d2 == qy * l2,
                    ux * d1 == qx * l1,
                    uy * d1 == qy * l1,
            ;
            assert(l1 > 0 && l2 > 0) by (nonlinear_arith)
                requires
                    ux != 0 || uy != 0,
                    sx > 0,
                    sy > 0,
                    l1 == ux * ux + uy * uy,
                    l2 == (sx * ux) * (sx * ux) + (sy * uy) * (sy * uy),
            ;
            assert((0 <= d1) == (0 <= d2)) by (nonlinear_arith)
                requires
                    d2 * l1 == d1 * l2,
                    l1 > 0,
                    l2 > 0,
            ;
            assert((d1 <= l1) == (d2 <= l2)) by (nonlinear_arith)
                requires
                    d2 * l1 == d1 * l2,
                    l1 > 0,
                    l2 > 0,
            ;
        }
    }
}

proof fn lemma_crossing_count_axis_scaling(
    v: Seq<Point>,
    w: Seq<Point>,
    t: Transform2D,
    x: int,
    y: int,
    k: int,
)
    requires
        t.is_axis_scaling(),
        t.maps(v, w),
        v.len() >= 1,
        0 <= k <= v.len(),
    ensures
        crossing_count(v, x, y, k) == crossing_count(w, t.image_x(x, y), t.image_y(x, y), k),
    decreases k,
{
    if k > 0 {
        lemma_crossing_count_axis_scaling(v, w, t, x, y, k - 1);
        let n = v.len() as int;
        let i = k - 1;
        let j = k % n;
        assert(0 <= j < n);
        assert(w[i].x == t.image_x(v[i].x as int, v[i].y as int));
        assert(w[j].x == t.image_x(v[j].x as int, v[j].y as int));
        lemma_crosses_ray_axis_scaling(v[i], v[j], w[i], w[j], x, y, t);
    }
}

proof fn lemma_crosses_ray_axis_scaling(
    vi: Point,
    vj: Point,
    wi: Point,
    wj: Point,
    x: int,
    y: int,
    t: Transform2D,
)
    requires
        t.is_axis_scaling(),
        wi.x == t.image_x(vi.x as int, vi.y as int),
        wi.y == t.image_y(vi.x as int, vi.y as int),
        wj.x == t.image_x(vj.x as int, vj.y as int),
        wj.y == t.image_y(vj.x as int, vj.y as int),
    ensures
        crosses_ray(vi, vj, x, y) == crosses_ray(wi, wj, t.image_x(x, y), t.image_y(x, y)),
{
    let sx = t.m11 as int;
    let sy = t.m22 as int;
    let x2 = t.image_x(x, y);
    let y2 = t.image_y(x, y);
    assert((wi.y > y2) == (vi.y > y) && (wj.y > y2) == (vj.y > y) && (wj.y > wi.y) == (vj.y
        > vi.y)) by (nonlinear_arith)
        requires
            sy > 0,
            wi.y == sy * vi.y + t.dy,
            wj.y == sy * vj.y + t.dy,
            y2 == sy * y + t.dy,
    ;
    let lhs = (x - vi.x) * (vj.y - vi.y);
    let rhs = (vj.x - vi.x) * (y - vi.y);
    let lhs2 = (x2 - wi.x) * (wj.y - wi.y);
    let rhs2 = (wj.x - wi.x) * (y2 - wi.y);
    lemma_mul_is_distributive_sub(sx, x, vi.x as int);
    lemma_mul_is_distributive_sub(sx, vj.x as int, vi.x as int);
    lemma_mul_is_distributive_sub(sy, vj.y as int, vi.y as int);
    lemma_mul_is_distributive_sub(sy, y, vi.y as int);
    lemma_scaled_product(sx, x - vi.x, sy, vj.y - vi.y);
    lemma_scaled_product(sx, vj.x - vi.x, sy, y - vi.y);
    assert((lhs2 < rhs2) == (lhs < rhs) && (lhs2 > rhs2) == (lhs > rhs)) by (nonlinear_arith)
        requires
            sx > 0,
            sy > 0,
            lhs2 == sx * sy * lhs,
            rhs2 == sx * sy * rhs,
    ;
}

proof fn lemma_scaled_product(s: int, a: int, r: int, b: int)
    ensures
        (s * a) * (r * b) == (s * r) * (a * b),
{
    assert((s * a) * (r * b) == (s * r) * (a * b)) by (nonlinear_arith);
}

proof fn lemma_cancel(s: int, a: int, b: int)
    requires
        s > 0,
        s * a == s * b,
    ensures
        a == b,
{
    assert(a == b) by (nonlinear_arith)
        requires
            s > 0,
            s * a == s * b,
    ;
}

/// When `(qx, qy)` is parallel to `(ux, uy)`, the dot product of the two
/// relates to `|u|^2` as `q` relates to `u`.
proof fn lemma_collinear_ratio(ux: int, uy: int, qx: int, qy: int)
    requires
        ux * qy == uy * qx,
    ensures
        ux * (qx * ux + qy * uy) == qx * (ux * ux + uy * uy),
        uy * (qx * ux + qy * uy) == qy * (ux * ux + uy * uy),
{
    assert(ux * (qx * ux + qy * uy) == qx * (ux * ux + uy * uy)) by (nonlinear_arith)
        requires
            ux * qy == uy * qx,
    ;
    assert(uy * (qx * ux + qy * uy) == qy * (ux * ux + uy * uy)) by (nonlinear_arith)
        requires
            ux * qy == uy * qx,
    ;
}

/// No two points of `s` are the same point of the plane.
pub open spec fn pairwise_distinct(s: Seq<RatPoint>) -> bool {
    forall|i: int, j: int|
        #![trigger s[i], s[j]]
        0 <= i < j < s.len() ==> !s[i].same_point(&s[j])
}

/// The self-intersection points of a polygon hold each point of the plane
/// at most once.
pub proof fn lemma_intersections_distinct(v: Seq<Point>)
    ensures
        pairwise_distinct(intersections_of(v)),
{
    if v.len() >= 4 {
        lemma_scan_edges_distinct(v, 0, Seq::empty());
    }
}

proof fn lemma_record_distinct(found: Seq<RatPoint>, cand: Option<RatPoint>)
    requires
        pairwise_distinct(found),
    ensures
        pairwise_distinct(record_point(found, cand)),
{
    if let Some(p) = cand {
        if !has_same_point(found, p) {
            let r = found.push(p);
            assert forall|i: int, j: int|
                #![trigger r[i], r[j]]
                0 <= i < j < r.len() implies !r[i].same_point(&r[j]) by {
                if j == found.len() {
                    assert(r[i] == found[i]);
                }
            }
        }
    }
}

proof fn lemma_scan_edge_distinct(v: Seq<Point>, i: int, j: int, found: Seq<RatPoint>)
    requires
        pairwise_distinct(found),
    ensures
        pairwise_distinct(scan_edge(v, i, j, found)),
    decreases v.len() - j,
{
    if j < v.len() {
        if (j + 1) % (v.len() as int) == i {
            lemma_scan_edge_distinct(v, i, j + 1, found);
        } else {
            let next = record_point(found, crate::polygon::edge_pair_intersection(v, i, j));
            lemma_record_distinct(found, crate::polygon::edge_pair_intersection(v, i, j));
            lemma_scan_edge_distinct(v, i, j + 1, next);
        }
    }
}

proof fn lemma_scan_edges_distinct(v: Seq<Point>, i: int, found: Seq<RatPoint>)
    requires
        pairwise_distinct(found),
    ensures
        pairwise_distinct(scan_edges(v, i, found)),
    decreases v.len() - i,
{
    if i < v.len() {
        lemma_scan_edge_distinct(v, i, i + 2, found);
        lemma_scan_edges_distinct(v, i + 1, scan_edge(v, i, i + 2, found));
    }
}

} // verus!
