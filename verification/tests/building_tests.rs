//! Exercises the building outline validator on concrete outlines.

use levelcore::building::{
    close_outline, is_corner_too_sharp, next_point_is_valid, Building, BuildingValidity, Corner,
};
use levelcore::math::IVec2;

fn p(x: i32, y: i32) -> IVec2 {
    IVec2 { x, y }
}

fn square() -> Vec<IVec2> {
    vec![p(0, 0), p(4, 0), p(4, 4), p(0, 4)]
}

#[test]
fn square_outline_is_valid() {
    let b = Building::new(0, square());
    assert!(b.is_valid(BuildingValidity::default()));
}

#[test]
fn reversed_square_is_invalid() {
    // Clockwise: negative signed area.
    let b = Building::new(0, vec![p(0, 4), p(4, 4), p(4, 0), p(0, 0)]);
    assert!(!b.is_valid(BuildingValidity::default()));
}

#[test]
fn point_near_edge_is_invalid() {
    // (2, 1) is within half a unit of the non-incident edge (0,0)-(4,1).
    let b = Building::new(0, vec![p(0, 0), p(4, 1), p(4, 4), p(0, 4), p(2, 1)]);
    assert!(!b.is_valid(BuildingValidity::default()));
}

#[test]
fn crossing_outline_is_invalid() {
    // A bowtie: edges (0,0)-(4,4) and (4,0)-(0,4) cross.
    let b = Building::new(0, vec![p(0, 0), p(4, 4), p(4, 0), p(0, 4)]);
    assert!(!b.is_valid(BuildingValidity::default()));
}

#[test]
fn validity_is_repeatable() {
    // Pure function of its input: asking twice answers the same.
    let b = Building::new(0, square());
    let first = b.is_valid(BuildingValidity::default());
    let second = b.is_valid(BuildingValidity::default());
    assert_eq!(first, second);
    assert!(first);
}

#[test]
fn single_point_follows_options() {
    let b = Building { floor_y: 0, outline: vec![p(1, 1)] };
    assert!(!b.is_valid(BuildingValidity::default()));
    assert!(b.is_valid(BuildingValidity { allow_one_point: true, allow_two_points: false }));
}

#[test]
fn two_points_follow_options() {
    let b = Building { floor_y: 0, outline: vec![p(1, 1), p(3, 1)] };
    assert!(!b.is_valid(BuildingValidity::default()));
    assert!(b.is_valid(BuildingValidity { allow_one_point: false, allow_two_points: true }));
}

#[test]
fn narrow_corner_is_too_sharp() {
    assert!(is_corner_too_sharp(Corner { a: p(10, 0), pivot: p(0, 0), b: p(10, 1) }));
}

#[test]
fn right_angle_is_not_too_sharp() {
    assert!(!is_corner_too_sharp(Corner { a: p(1, 0), pivot: p(0, 0), b: p(0, 1) }));
}

#[test]
fn degenerate_corner_is_not_reported_sharp() {
    assert!(!is_corner_too_sharp(Corner { a: p(0, 0), pivot: p(0, 0), b: p(5, 5) }));
}

#[test]
fn building_accessors() {
    let b = Building::new(7, square());
    assert_eq!(b.floor_y(), 7);
    assert_eq!(b.points().len(), 4);
    assert_eq!(b.points()[2], p(4, 4));
}

#[test]
fn next_point_simple_cases() {
    // With at most one point placed, anything goes.
    assert!(next_point_is_valid(&vec![], p(0, 0)));
    assert!(next_point_is_valid(&vec![p(0, 0)], p(4, 0)));
    // Closing back onto the only other point is rejected.
    assert!(!next_point_is_valid(&vec![p(0, 0), p(4, 0)], p(0, 0)));
    // A regular continuation is fine.
    assert!(next_point_is_valid(&vec![p(0, 0), p(4, 0)], p(4, 4)));
}

#[test]
fn next_point_rejects_revisits_and_contact() {
    // Revisiting a placed point that is not the first is rejected.
    assert!(!next_point_is_valid(&vec![p(0, 0), p(4, 0), p(4, 4)], p(4, 0)));
    // A candidate on an existing edge is rejected by the thickness rule.
    assert!(!next_point_is_valid(&vec![p(0, 0), p(4, 0), p(4, 4)], p(2, 0)));
    // Closing a healthy loop onto the first point is accepted.
    assert!(next_point_is_valid(&vec![p(0, 0), p(4, 0), p(4, 4), p(0, 4)], p(0, 0)));
}

#[test]
fn close_outline_keeps_counter_clockwise() {
    let b = close_outline(0, square());
    assert_eq!(b.points().as_slice(), square().as_slice());
}

#[test]
fn close_outline_reverses_clockwise() {
    let b = close_outline(2, vec![p(0, 4), p(4, 4), p(4, 0), p(0, 0)]);
    assert_eq!(b.floor_y(), 2);
    assert_eq!(b.points().as_slice(), square().as_slice());
}
