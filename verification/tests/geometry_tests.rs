//! Exercises the planar geometry primitives on concrete values.

use levelcore::geometry::{
    point_closest_to_segment, point_too_close_to_segment, project_onto_i2, segments_cross,
    signed_polygon_area_2d,
};
use levelcore::math::IVec2;

fn p(x: i32, y: i32) -> IVec2 {
    IVec2 { x, y }
}

#[test]
fn crossing_diagonals() {
    assert!(segments_cross((p(0, 0), p(2, 2)), (p(0, 2), p(2, 0))));
}

#[test]
fn crossing_is_symmetric() {
    let a = (p(0, 0), p(2, 2));
    let b = (p(0, 2), p(2, 0));
    assert_eq!(segments_cross(a, b), segments_cross(b, a));
    let c = (p(5, 5), p(6, 6));
    assert_eq!(segments_cross(a, c), segments_cross(c, a));
}

#[test]
fn touching_endpoint_counts_as_crossing() {
    assert!(segments_cross((p(0, 0), p(2, 0)), (p(2, 0), p(2, 2))));
}

#[test]
fn collinear_overlap_does_not_cross() {
    // Parallel directions: exactly zero cross product, even with overlap.
    assert!(!segments_cross((p(0, 0), p(4, 0)), (p(2, 0), p(6, 0))));
    assert!(!segments_cross((p(2, 0), p(6, 0)), (p(0, 0), p(4, 0))));
}

#[test]
fn disjoint_segments_do_not_cross() {
    assert!(!segments_cross((p(0, 0), p(1, 0)), (p(3, 3), p(4, 3))));
}

#[test]
fn square_area_is_positive_counter_clockwise() {
    let square = vec![p(0, 0), p(4, 0), p(4, 4), p(0, 4)];
    // Twice the enclosed area of the unit-4 square.
    assert_eq!(signed_polygon_area_2d(&square), 32);
    let reversed = vec![p(0, 4), p(4, 4), p(4, 0), p(0, 0)];
    assert_eq!(signed_polygon_area_2d(&reversed), -32);
}

#[test]
fn tiny_outlines_have_zero_area() {
    assert_eq!(signed_polygon_area_2d(&vec![p(1, 1)]), 0);
    assert_eq!(signed_polygon_area_2d(&vec![p(1, 1), p(3, 5)]), 0);
}

#[test]
fn projection_on_axis_segment() {
    // Projecting (3, 5) onto the x axis segment lands at (3, 0).
    let r = project_onto_i2(p(3, 5), (p(0, 0), p(10, 0)));
    assert!(r.den > 0);
    assert_eq!(r.nx, 3 * r.den);
    assert_eq!(r.ny, 0);
}

#[test]
fn closest_point_clamps_to_endpoint() {
    // The closest segment point to (15, 5) is the endpoint (10, 0).
    let r = point_closest_to_segment(p(15, 5), (p(0, 0), p(10, 0)));
    assert!(r.den > 0);
    assert_eq!(r.nx, 10 * r.den);
    assert_eq!(r.ny, 0);
}

#[test]
fn half_unit_proximity_is_exact() {
    // (2, 1) is about 0.485 from the segment (0,0)-(4,1): too close.
    assert!(point_too_close_to_segment(p(2, 1), p(0, 0), p(4, 1)));
    // (2, 2) is well clear of the same segment.
    assert!(!point_too_close_to_segment(p(2, 2), p(0, 0), p(4, 1)));
    // A point at distance exactly 1 is clear.
    assert!(!point_too_close_to_segment(p(2, 1), p(0, 0), p(4, 0)));
}
