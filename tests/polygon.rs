use athenian::point::{Point, RatPoint};
use athenian::polygon::{segments_intersect, Polygon};
use athenian::transform::Transform2D;

fn polygon_of(points: &[(i64, i64)]) -> Polygon {
    let mut p = Polygon::new(points[0].0, points[0].1);
    for &(x, y) in &points[1..] {
        p.add_vertex(x, y);
    }
    p
}

fn rat(x: i128, y: i128, den: i128) -> RatPoint {
    RatPoint::new(x, y, den).unwrap()
}

#[test]
fn square_is_convex() {
    assert!(polygon_of(&[(0, 0), (10, 0), (10, 10), (0, 10)]).is_convex());
}

#[test]
fn triangle_is_convex() {
    assert!(polygon_of(&[(0, 0), (1000, 0), (500, 866)]).is_convex());
}

#[test]
fn pentagon_is_convex() {
    let p = polygon_of(&[(0, 1000), (-951, 309), (-588, -809), (588, -809), (951, 309)]);
    assert!(p.is_convex());
}

#[test]
fn clockwise_square_is_convex() {
    assert!(polygon_of(&[(0, 0), (0, 10), (10, 10), (10, 0)]).is_convex());
}

#[test]
fn l_shape_is_not_convex() {
    let p = polygon_of(&[(0, 0), (2, 0), (2, 1), (1, 1), (1, 2), (0, 2)]);
    assert!(!p.is_convex());
}

#[test]
fn collinear_vertex_keeps_convexity() {
    assert!(polygon_of(&[(0, 0), (5, 0), (10, 0), (10, 10), (0, 10)]).is_convex());
}

#[test]
fn fewer_than_three_vertices_never_convex() {
    assert!(!Polygon::new(1, 1).is_convex());
    assert!(!polygon_of(&[(0, 0), (3, 4)]).is_convex());
}

#[test]
fn bowtie_has_one_intersection() {
    let p = polygon_of(&[(0, 0), (1, 1), (1, 0), (0, 1)]);
    let found = p.intersections();
    assert_eq!(found.len(), 1);
    assert!(found[0].same_as(&rat(1, 1, 2)));
}

#[test]
fn convex_quadrilateral_has_no_intersections() {
    let p = polygon_of(&[(0, 0), (1, 0), (1, 1), (0, 1)]);
    assert_eq!(p.intersections().len(), 0);
}

#[test]
fn second_crossing_grows_the_cache() {
    let mut p = polygon_of(&[(0, 0), (2, 2), (2, 0), (0, 2)]);
    assert_eq!(p.intersections().len(), 1);
    p.add_vertex(1, -1);
    let found = p.intersections();
    assert_eq!(found.len(), 2);
    assert!(found[0].same_as(&rat(1, 1, 1)));
    assert!(found[1].same_as(&rat(1, 1, 2)));
}

#[test]
fn few_vertices_have_no_intersections() {
    let p = polygon_of(&[(0, 0), (2, 2), (2, 0)]);
    assert_eq!(p.intersections().len(), 0);
}

#[test]
fn shared_end_of_first_and_start_of_second() {
    let r = segments_intersect(Point::new(0, 0), Point::new(2, 2), Point::new(2, 2), Point::new(4, 0));
    assert!(r.unwrap().same_as(&rat(2, 2, 1)));
}

#[test]
fn shared_start_points() {
    let r = segments_intersect(Point::new(0, 0), Point::new(2, 0), Point::new(0, 0), Point::new(0, 3));
    assert!(r.unwrap().same_as(&rat(0, 0, 1)));
}

#[test]
fn shared_end_points() {
    let r = segments_intersect(Point::new(0, 0), Point::new(2, 0), Point::new(5, 5), Point::new(2, 0));
    assert!(r.unwrap().same_as(&rat(2, 0, 1)));
}

#[test]
fn parallel_segments_do_not_intersect() {
    let r = segments_intersect(Point::new(0, 0), Point::new(2, 0), Point::new(0, 1), Point::new(2, 1));
    assert!(r.is_none());
    let collinear =
        segments_intersect(Point::new(0, 0), Point::new(1, 0), Point::new(1, 0), Point::new(2, 0));
    assert!(collinear.is_none());
}

#[test]
fn first_segment_is_bounded() {
    let r = segments_intersect(Point::new(0, 0), Point::new(1, 0), Point::new(3, -1), Point::new(3, 1));
    assert!(r.is_none());
}

#[test]
fn second_segment_is_bounded() {
    let r = segments_intersect(Point::new(0, 0), Point::new(4, 0), Point::new(2, 1), Point::new(2, 3));
    assert!(r.is_none());
}

#[test]
fn crossing_segments_meet_inside() {
    let r = segments_intersect(Point::new(0, 0), Point::new(4, 4), Point::new(0, 4), Point::new(4, 0));
    assert!(r.unwrap().same_as(&rat(2, 2, 1)));
}

#[test]
fn single_vertex_contains_only_itself() {
    let p = Polygon::new(2, 3);
    assert!(p.contains(2, 3));
    assert!(!p.contains(2, 4));
    assert!(!p.contains(3, 3));
    assert!(p.contains_pos(Point::new(2, 3)));
}

#[test]
fn segment_contains_points_between_ends() {
    let p = polygon_of(&[(0, 0), (2, 0)]);
    assert!(p.contains(1, 0));
    assert!(p.contains(0, 0));
    assert!(p.contains(2, 0));
    assert!(!p.contains(1, 1));
    assert!(!p.contains(3, 0));
    assert!(!p.contains(-1, 0));
}

#[test]
fn square_contains_interior_points() {
    let p = polygon_of(&[(0, 0), (4, 0), (4, 4), (0, 4)]);
    assert!(p.contains(1, 1));
    assert!(p.contains(3, 2));
    assert!(!p.contains(5, 5));
    assert!(!p.contains(-1, 2));
    assert!(!p.contains(2, 6));
}

#[test]
fn l_shape_notch_is_outside() {
    let p = polygon_of(&[(0, 0), (4, 0), (4, 2), (2, 2), (2, 4), (0, 4)]);
    assert!(p.contains(1, 3));
    assert!(p.contains(3, 1));
    assert!(!p.contains(3, 3));
}

#[test]
fn bowtie_containment_by_parity() {
    let p = polygon_of(&[(0, 0), (4, 4), (4, 0), (0, 4)]);
    assert!(p.contains(3, 2));
    assert!(p.contains(1, 2));
    assert!(!p.contains(2, 3));
}

#[test]
fn unit_square_center() {
    let c = polygon_of(&[(0, 0), (1, 0), (1, 1), (0, 1)]).get_center();
    assert_eq!((c.x, c.y, c.den), (2, 2, 4));
    assert!(c.same_as(&rat(1, 1, 2)));
}

#[test]
fn single_vertex_center() {
    let c = Polygon::new(-7, 9).get_center();
    assert!(c.same_as(&rat(-7, 9, 1)));
}

#[test]
fn shape_classification() {
    let mut p = Polygon::new(0, 0);
    assert!(p.is_vertex());
    assert!(!p.is_edge());
    p.add_vertex_pos(Point::new(1, 0));
    assert!(!p.is_vertex());
    assert!(p.is_edge());
    p.add_vertex(1, 1);
    assert!(!p.is_vertex());
    assert!(!p.is_edge());
    assert_eq!(p.vertexes(), &[Point::new(0, 0), Point::new(1, 0), Point::new(1, 1)][..]);
}

#[test]
fn from_pos_builds_a_point() {
    let p = Polygon::from_pos(Point::new(4, 5));
    assert_eq!(p.vertexes(), &[Point::new(4, 5)][..]);
    assert!(p.intersections().is_empty());
}

#[test]
fn transform_moves_every_vertex() {
    let mut p = polygon_of(&[(0, 0), (1, 0), (0, 1)]);
    let t = Transform2D::new(2, 0, 1, 3, 5, -1);
    assert!(p.apply_transform(t));
    assert_eq!(p.vertexes(), &[Point::new(5, -1), Point::new(7, 0), Point::new(5, 2)][..]);
}

#[test]
fn transform_moves_intersections() {
    let mut p = polygon_of(&[(0, 0), (1, 1), (1, 0), (0, 1)]);
    assert!(p.apply_transform(Transform2D::translation(1, 1)));
    assert_eq!(p.intersections().len(), 1);
    assert!(p.intersections()[0].same_as(&rat(3, 3, 2)));
}

#[test]
fn transform_out_of_range_changes_nothing() {
    let mut p = polygon_of(&[(0, 0), (2, 3)]);
    let t = Transform2D::new(1_000_000, 0, 0, 1, 0, 0);
    assert!(!p.apply_transform(t));
    assert_eq!(p.vertexes(), &[Point::new(0, 0), Point::new(2, 3)][..]);
}

#[test]
fn identity_transform_keeps_vertices() {
    let mut p = polygon_of(&[(0, 0), (2, 3), (5, 1)]);
    assert!(p.apply_transform(Transform2D::identity()));
    assert_eq!(p.vertexes(), &[Point::new(0, 0), Point::new(2, 3), Point::new(5, 1)][..]);
}

#[test]
fn containment_survives_translation() {
    let p = polygon_of(&[(0, 0), (4, 0), (4, 4), (0, 4)]);
    let t = Transform2D::translation(5, -3);
    let mut moved = p.clone();
    assert!(moved.apply_transform(t));
    for &(x, y) in &[(1, 1), (5, 5), (0, 0), (4, 2), (2, 4), (-1, 2)] {
        let q = t.apply_to_pos(Point::new(x, y));
        assert_eq!(p.contains(x, y), moved.contains_pos(q));
    }
}

#[test]
fn containment_survives_scaling() {
    let p = polygon_of(&[(0, 0), (4, 0), (4, 4), (0, 4)]);
    let t = Transform2D::new(2, 0, 0, 3, 1, 1);
    let mut moved = p.clone();
    assert!(moved.apply_transform(t));
    for &(x, y) in &[(1, 1), (3, 2), (5, 5), (-1, 2)] {
        let q = t.apply_to_pos(Point::new(x, y));
        assert_eq!(p.contains(x, y), moved.contains_pos(q));
    }
}

#[test]
fn rational_point_needs_positive_denominator() {
    assert!(RatPoint::new(1, 1, 0).is_none());
    assert!(RatPoint::new(1, 1, -2).is_none());
    assert!(RatPoint::new(1, 1, 2).is_some());
    assert!(!rat(1, 1, 2).same_as(&rat(1, 2, 2)));
}

#[test]
fn point_range_check() {
    assert!(Point::new(1_000_000, -1_000_000).is_in_range());
    assert!(!Point::new(1_000_001, 0).is_in_range());
    assert_eq!(Point::new(3, 4).to_rat().den, 1);
}
