//! Exercises the half-space convex-solid kernel on concrete solids.

use levelcore::csg::{ConvexHull, CuttingPlane};
use levelcore::math::IVec3;

fn p(x: i32, y: i32, z: i32) -> IVec3 {
    IVec3 { x, y, z }
}

#[test]
fn test_convex_hull() {
    let points = vec![p(3, 2, 1), p(7, 17, 12), p(5, 4, 7), p(5, 5, 5)];
    let hull = ConvexHull::from_points(&points);
    let hull = hull.unwrap();

    for q in &points {
        assert!(hull.signed_distance(*q) == 0);
    }
}

#[test]
fn from_points_interior_is_negative() {
    let points = vec![p(0, 0, 0), p(8, 0, 0), p(0, 8, 0), p(0, 0, 8)];
    let hull = ConvexHull::from_points(&points).unwrap();
    assert!(hull.signed_distance(p(1, 1, 1)) < 0);
    assert!(hull.signed_distance(p(8, 8, 8)) > 0);
}

#[test]
fn from_points_rejects_coplanar_input() {
    // All points in the z = 0 plane bound no volume.
    let points = vec![p(0, 0, 0), p(4, 0, 0), p(0, 4, 0), p(4, 4, 0)];
    assert!(ConvexHull::from_points(&points).is_none());
}

#[test]
fn from_triangle_gives_plane_through_points() {
    let tri = [p(0, 0, 0), p(4, 0, 0), p(0, 4, 0)];
    let plane = CuttingPlane::from_triangle(tri).unwrap();
    for q in &tri {
        assert_eq!(plane.signed_distance(*q), 0);
    }
    assert!(plane.signed_distance(p(0, 0, 5)) != 0);
}

#[test]
fn from_triangle_rejects_collinear_points() {
    assert!(CuttingPlane::from_triangle([p(0, 0, 0), p(1, 1, 1), p(3, 3, 3)]).is_none());
    assert!(CuttingPlane::from_triangle([p(2, 2, 2), p(2, 2, 2), p(5, 0, 0)]).is_none());
}

#[test]
fn flipped_negates_the_side() {
    let plane = CuttingPlane::from_triangle([p(0, 0, 0), p(4, 0, 0), p(0, 4, 0)]).unwrap();
    let q = p(1, 1, 3);
    assert_eq!(plane.flipped().signed_distance(q), -plane.signed_distance(q));
}

#[test]
fn parallel_planes_do_not_intersect() {
    let a = CuttingPlane::from_triangle([p(0, 0, 0), p(4, 0, 0), p(0, 4, 0)]).unwrap();
    let b = CuttingPlane::from_triangle([p(0, 0, 2), p(4, 0, 2), p(0, 4, 2)]).unwrap();
    assert!(a.intersection_plane(&b).is_none());
}

#[test]
fn plane_pair_meets_in_a_line_on_both() {
    let a = CuttingPlane::from_triangle([p(0, 0, 0), p(4, 0, 0), p(0, 4, 0)]).unwrap();
    let b = CuttingPlane::from_triangle([p(0, 0, 0), p(0, 4, 0), p(0, 0, 4)]).unwrap();
    let line = a.intersection_plane(&b).unwrap();
    // The intersection of the z = 0 and x = 0 planes is the y axis.
    assert!(line.point.den > 0);
    assert_eq!(line.point.nx, 0);
    assert_eq!(line.point.nz, 0);
    assert_eq!(line.direction.x, 0);
    assert!(line.direction.y != 0);
    assert_eq!(line.direction.z, 0);
}

#[test]
fn line_meets_third_plane_in_a_point() {
    let a = CuttingPlane::from_triangle([p(0, 0, 0), p(4, 0, 0), p(0, 4, 0)]).unwrap();
    let b = CuttingPlane::from_triangle([p(0, 0, 0), p(0, 4, 0), p(0, 0, 4)]).unwrap();
    let c = CuttingPlane::from_triangle([p(0, 0, 0), p(0, 0, 4), p(4, 0, 0)]).unwrap();
    let line = a.intersection_plane(&b).unwrap();
    let pt = c.intersection_line(&line).unwrap();
    // All three planes pass through the origin.
    assert!(pt.den > 0);
    assert_eq!(pt.nx, 0);
    assert_eq!(pt.ny, 0);
    assert_eq!(pt.nz, 0);
}

#[test]
fn line_parallel_to_plane_has_no_meeting() {
    let a = CuttingPlane::from_triangle([p(0, 0, 0), p(4, 0, 0), p(0, 4, 0)]).unwrap();
    let b = CuttingPlane::from_triangle([p(0, 0, 0), p(0, 4, 0), p(0, 0, 4)]).unwrap();
    // The y axis is parallel to (in fact inside) the x = 0 plane.
    let line = a.intersection_plane(&b).unwrap();
    assert!(b.intersection_line(&line).is_none());
}

#[test]
fn simplify_drops_redundant_plane() {
    let points = vec![p(0, 0, 0), p(8, 0, 0), p(0, 8, 0), p(0, 0, 8)];
    let hull = ConvexHull::from_points(&points).unwrap();
    // A tetrahedron needs exactly four supporting planes.
    assert_eq!(hull.planes.len(), 4);
    let vertices = hull.vertices();
    // Each of the four corners appears once per generating triple.
    assert_eq!(vertices.len(), 4);
    let again = hull.simplify().unwrap();
    assert_eq!(again.planes.len(), 4);
}
