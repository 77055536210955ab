//! The half-space convex-solid kernel: a convex solid represented as an
//! intersection of half-spaces ("cutting planes"), with vertex derivation
//! by triple-plane intersection, redundant-plane removal, and construction
//! from raw point sets.
//!
//! Everything is computed with exact integer and rational arithmetic. A
//! plane stores an integer point and an unnormalized integer normal (a
//! cross product of edge vectors), so a "signed distance" here is the true
//! signed distance scaled by the positive length of that normal: its sign
//! and zeroes — all any caller ever branches on — are exact. Where a
//! floating-point kernel would use a small tolerance for robustness, the
//! comparisons here are exact zero tests: only genuinely degenerate
//! inputs (truly collinear triangles, truly parallel planes) are
//! rejected, and near-degenerate but sound integer inputs are accepted.

use vstd::prelude::*;
use vstd::arithmetic::mul::{
    lemma_mul_is_associative, lemma_mul_is_commutative, lemma_mul_is_distributive_add,
    lemma_mul_is_distributive_sub,
};
use crate::math::{IVec3, LVec3, dot3, mul64, mul128};
use crate::math::lemma_mul_bound;

verus! {

/// Magnitude bound on the coordinates the kernel accepts; keeps every
/// intermediate product of the vertex derivation inside 128 bits.
pub const HULL_COORD_LIMIT: i32 = 512;

/// Magnitude bound on a well-formed plane normal: twice the squared
/// coordinate diameter, the largest a triangle cross product can get.
pub const NORMAL_LIMIT: i64 = 2_097_152;

/// A point whose coordinates the kernel accepts.
pub open spec fn hull_point_ok(p: IVec3) -> bool {
    &&& -HULL_COORD_LIMIT <= p.x <= HULL_COORD_LIMIT
    &&& -HULL_COORD_LIMIT <= p.y <= HULL_COORD_LIMIT
    &&& -HULL_COORD_LIMIT <= p.z <= HULL_COORD_LIMIT
}

/// A bounded normal vector.
pub open spec fn normal_ok(n: LVec3) -> bool {
    &&& -NORMAL_LIMIT <= n.x <= NORMAL_LIMIT
    &&& -NORMAL_LIMIT <= n.y <= NORMAL_LIMIT
    &&& -NORMAL_LIMIT <= n.z <= NORMAL_LIMIT
}

/// An oriented plane defining a half-space: the points at nonnegative
/// scaled signed distance are outside.
#[derive(Copy, Clone, PartialEq, Eq, Structural, Debug)]
pub struct CuttingPlane {
    pub point: IVec3,
    /// An outward-facing (unnormalized) normal.
    pub normal: LVec3,
}

/// A 3D point with exact rational coordinates `(nx, ny, nz) / den`.
#[derive(Copy, Clone, PartialEq, Eq, Structural, Debug)]
pub struct RatPoint3 {
    pub nx: i128,
    pub ny: i128,
    pub nz: i128,
    pub den: i128,
}

impl RatPoint3 {
    /// A well-formed rational point has a positive denominator.
    pub open spec fn wf(self) -> bool {
        self.den > 0
    }
}

/// A rational point small enough for the exact side computations: what
/// the vertex derivation can produce.
pub open spec fn rat_bounded(v: RatPoint3) -> bool {
    &&& -0x10000000000000000000000000 <= v.nx <= 0x10000000000000000000000000
    &&& -0x10000000000000000000000000 <= v.ny <= 0x10000000000000000000000000
    &&& -0x10000000000000000000000000 <= v.nz <= 0x10000000000000000000000000
    &&& -0x40000000000000000000000 <= v.den <= 0x40000000000000000000000
}

/// An infinite bidirectional line with a rational base point and an
/// integer direction.
#[derive(Copy, Clone, PartialEq, Eq, Structural, Debug)]
pub struct InfiniteLine {
    pub point: RatPoint3,
    pub direction: LVec3,
}

impl CuttingPlane {
    /// A kernel-acceptable plane: bounded base point, bounded nonzero
    /// normal.
    pub open spec fn wf(self) -> bool {
        &&& hull_point_ok(self.point)
        &&& normal_ok(self.normal)
        &&& !(self.normal.x == 0 && self.normal.y == 0 && self.normal.z == 0)
    }
}

/// The scaled signed distance of integer point `q` to the plane:
/// `(q - point) . normal`. Positive outside, negative inside, zero on the
/// plane; the scale factor is the positive length of the normal.
pub open spec fn plane_sd(pl: CuttingPlane, q: IVec3) -> int {
    dot3(
        q.x - pl.point.x,
        q.y - pl.point.y,
        q.z - pl.point.z,
        pl.normal.x as int,
        pl.normal.y as int,
        pl.normal.z as int,
    )
}

/// `point . normal` for the plane: the right-hand side of its equation.
pub open spec fn plane_b(pl: CuttingPlane) -> int {
    dot3(
        pl.point.x as int,
        pl.point.y as int,
        pl.point.z as int,
        pl.normal.x as int,
        pl.normal.y as int,
        pl.normal.z as int,
    )
}

/// The numerator of the scaled signed distance of the rational point `v`
/// to the plane, over the positive denominator `v.den`: zero exactly when
/// `v` lies on the plane, negative exactly when it is inside.
pub open spec fn plane_side_num(pl: CuttingPlane, v: RatPoint3) -> int {
    v.nx * (pl.normal.x as int) + v.ny * (pl.normal.y as int) + v.nz * (pl.normal.z as int)
        - v.den * plane_b(pl)
}

/// The x component of the cross product of the two edge vectors of a
/// triangle `(p0, p1, p2)`.
pub open spec fn tri_normal_x(p0: IVec3, p1: IVec3, p2: IVec3) -> int {
    (p1.y - p0.y) * (p2.z - p0.z) - (p1.z - p0.z) * (p2.y - p0.y)
}

/// The y component of the triangle normal.
pub open spec fn tri_normal_y(p0: IVec3, p1: IVec3, p2: IVec3) -> int {
    (p1.z - p0.z) * (p2.x - p0.x) - (p1.x - p0.x) * (p2.z - p0.z)
}

/// The z component of the triangle normal.
pub open spec fn tri_normal_z(p0: IVec3, p1: IVec3, p2: IVec3) -> int {
    (p1.x - p0.x) * (p2.y - p0.y) - (p1.y - p0.y) * (p2.x - p0.x)
}

/// A vector is orthogonal to its cross product with any other vector.
#[verifier::rlimit(100)]
proof fn lemma_cross_perp_first(ax: int, ay: int, az: int, bx: int, by: int, bz: int)
    by (nonlinear_arith)
    ensures
        ax * (ay * bz - az * by) + ay * (az * bx - ax * bz) + az * (ax * by - ay * bx) == 0,
{
}

/// A dot product with the zero vector is zero.
proof fn lemma_zero_dot(nx: int, ny: int, nz: int, a: int, b: int, c: int)
    by (nonlinear_arith)
    requires
        a == 0,
        b == 0,
        c == 0,
    ensures
        a * nx + b * ny + c * nz == 0,
{
}

/// The other vector is orthogonal to the cross product as well.
#[verifier::rlimit(100)]
proof fn lemma_cross_perp_second(ax: int, ay: int, az: int, bx: int, by: int, bz: int)
    by (nonlinear_arith)
    ensures
        bx * (ay * bz - az * by) + by * (az * bx - ax * bz) + bz * (ax * by - ay * bx) == 0,
{
}

proof fn lemma_expand_product(a: int, b: int, c: int, d: int, e: int)
    ensures
        (a * b - c * d) * e == a * (b * e) - c * (d * e),
{
    lemma_mul_is_distributive_sub(e, a * b, c * d);
    lemma_mul_is_commutative(a * b - c * d, e);
    lemma_mul_is_commutative(a * b, e);
    lemma_mul_is_commutative(c * d, e);
    lemma_mul_is_associative(a, b, e);
    lemma_mul_is_associative(c, d, e);
}

proof fn lemma_swap_product(a: int, b: int, c: int)
    ensures
        a * (b * c) == b * (a * c),
{
    lemma_mul_is_associative(a, b, c);
    lemma_mul_is_commutative(a, b);
    lemma_mul_is_associative(b, a, c);
}

proof fn lemma_flip_sign(my: int, mz: int, py: int, pz: int)
    by (nonlinear_arith)
    ensures
        my * (-pz) - mz * (-py) == py * mz - pz * my,
{
}

proof fn lemma_triple_rotate(
    px: int, py: int, pz: int,
    mx: int, my: int, mz: int,
    wx: int, wy: int, wz: int,
)
    ensures
        (py * mz - pz * my) * wx + (pz * mx - px * mz) * wy + (px * my - py * mx) * wz
            == px * (my * wz - mz * wy) + py * (mz * wx - mx * wz) + pz * (mx * wy - my * wx),
{
    lemma_expand_product(py, mz, pz, my, wx);
    lemma_expand_product(pz, mx, px, mz, wy);
    lemma_expand_product(px, my, py, mx, wz);
    lemma_mul_is_distributive_sub(px, my * wz, mz * wy);
    lemma_mul_is_distributive_sub(py, mz * wx, mx * wz);
    lemma_mul_is_distributive_sub(pz, mx * wy, my * wx);
}

/// One component of `m x n1` for `m = b2*n1 - b1*n2`: the `n1` parts
/// cancel and the component collapses onto `b1` times the matching
/// component of `n1 x n2`.
proof fn lemma_m_cross_first(n1a: int, n1b: int, n2a: int, n2b: int, b1: int, b2: int)
    ensures
        (b2 * n1a - b1 * n2a) * n1b - (b2 * n1b - b1 * n2b) * n1a
            == b1 * (n1a * n2b - n1b * n2a),
{
    lemma_expand_product(b2, n1a, b1, n2a, n1b);
    lemma_expand_product(b2, n1b, b1, n2b, n1a);
    lemma_mul_is_distributive_sub(b1, n1a * n2b, n1b * n2a);
    lemma_mul_is_commutative(n1a, n1b);
    assert(b1 * (n2a * n1b) == b1 * (n1b * n2a)) by {
        lemma_mul_is_commutative(n2a, n1b);
    }
    assert(b1 * (n2b * n1a) == b1 * (n1a * n2b)) by {
        lemma_mul_is_commutative(n2b, n1a);
    }
}

/// One component of `m x n2` for `m = b2*n1 - b1*n2`: the `n2` parts
/// cancel and the component collapses onto `b2` times the matching
/// component of `n1 x n2`.
proof fn lemma_m_cross_second(n1a: int, n1b: int, n2a: int, n2b: int, b1: int, b2: int)
    ensures
        (b2 * n1a - b1 * n2a) * n2b - (b2 * n1b - b1 * n2b) * n2a
            == b2 * (n1a * n2b - n1b * n2a),
{
    lemma_expand_product(b2, n1a, b1, n2a, n2b);
    lemma_expand_product(b2, n1b, b1, n2b, n2a);
    lemma_mul_is_distributive_sub(b2, n1a * n2b, n1b * n2a);
    lemma_mul_is_commutative(n2a, n2b);
    assert(b2 * (n1a * n2b) == b2 * (n1a * n2b)) by {
    }
    assert(b1 * (n2a * n2b) == b1 * (n2b * n2a)) by {
        lemma_mul_is_commutative(n2a, n2b);
    }
}

/// The closed-form meeting point of two planes satisfies both plane
/// equations exactly: dotted with either normal it yields the squared
/// direction length times that plane's right-hand side.
proof fn lemma_pair_meets(
    n1x: int, n1y: int, n1z: int,
    n2x: int, n2y: int, n2z: int,
    b1: int, b2: int,
)
    ensures
        ({
            let px = n1y * n2z - n1z * n2y;
            let py = n1z * n2x - n1x * n2z;
            let pz = n1x * n2y - n1y * n2x;
            let mx = b2 * n1x - b1 * n2x;
            let my = b2 * n1y - b1 * n2y;
            let mz = b2 * n1z - b1 * n2z;
            let xx = my * (-pz) - mz * (-py);
            let xy = mz * (-px) - mx * (-pz);
            let xz = mx * (-py) - my * (-px);
            let den = px * px + py * py + pz * pz;
            &&& xx * n1x + xy * n1y + xz * n1z == den * b1
            &&& xx * n2x + xy * n2y + xz * n2z == den * b2
        }),
{
    let px = n1y * n2z - n1z * n2y;
    let py = n1z * n2x - n1x * n2z;
    let pz = n1x * n2y - n1y * n2x;
    let mx = b2 * n1x - b1 * n2x;
    let my = b2 * n1y - b1 * n2y;
    let mz = b2 * n1z - b1 * n2z;
    let xx = my * (-pz) - mz * (-py);
    let xy = mz * (-px) - mx * (-pz);
    let xz = mx * (-py) - my * (-px);
    let den = px * px + py * py + pz * pz;

    // X is the cross product of the direction with m.
    assert(xx == py * mz - pz * my) by {
        lemma_flip_sign(my, mz, py, pz);
    }
    assert(xy == pz * mx - px * mz) by {
        lemma_flip_sign(mz, mx, pz, px);
    }
    assert(xz == px * my - py * mx) by {
        lemma_flip_sign(mx, my, px, py);
    }

    // Rotate X . n into the direction dotted with m x n, for each normal.
    lemma_triple_rotate(px, py, pz, mx, my, mz, n1x, n1y, n1z);
    lemma_triple_rotate(px, py, pz, mx, my, mz, n2x, n2y, n2z);

    // m x n1 collapses onto b1 times the direction.
    assert(my * n1z - mz * n1y == b1 * px) by {
        lemma_m_cross_first(n1y, n1z, n2y, n2z, b1, b2);
    }
    assert(mz * n1x - mx * n1z == b1 * py) by {
        lemma_m_cross_first(n1z, n1x, n2z, n2x, b1, b2);
    }
    assert(mx * n1y - my * n1x == b1 * pz) by {
        lemma_m_cross_first(n1x, n1y, n2x, n2y, b1, b2);
    }

    // m x n2 collapses onto b2 times the direction.
    assert(my * n2z - mz * n2y == b2 * px) by {
        lemma_m_cross_second(n1y, n1z, n2y, n2z, b1, b2);
    }
    assert(mz * n2x - mx * n2z == b2 * py) by {
        lemma_m_cross_second(n1z, n1x, n2z, n2x, b1, b2);
    }
    assert(mx * n2y - my * n2x == b2 * pz) by {
        lemma_m_cross_second(n1x, n1y, n2x, n2y, b1, b2);
    }

    // Collect b * |direction|^2 on each side.
    assert(px * (b1 * px) == b1 * (px * px)) by {
        lemma_swap_product(px, b1, px);
    }
    assert(py * (b1 * py) == b1 * (py * py)) by {
        lemma_swap_product(py, b1, py);
    }
    assert(pz * (b1 * pz) == b1 * (pz * pz)) by {
        lemma_swap_product(pz, b1, pz);
    }
    assert(px * (b2 * px) == b2 * (px * px)) by {
        lemma_swap_product(px, b2, px);
    }
    assert(py * (b2 * py) == b2 * (py * py)) by {
        lemma_swap_product(py, b2, py);
    }
    assert(pz * (b2 * pz) == b2 * (pz * pz)) by {
        lemma_swap_product(pz, b2, pz);
    }
    assert(xx * n1x + xy * n1y + xz * n1z == den * b1) by {
        lemma_mul_is_distributive_add(b1, px * px, py * py);
        lemma_mul_is_distributive_add(b1, px * px + py * py, pz * pz);
        lemma_mul_is_commutative(b1, den);
    }
    assert(xx * n2x + xy * n2y + xz * n2z == den * b2) by {
        lemma_mul_is_distributive_add(b2, px * px, py * py);
        lemma_mul_is_distributive_add(b2, px * px + py * py, pz * pz);
        lemma_mul_is_commutative(b2, den);
    }
}

impl CuttingPlane {
    /// Flips the normal of the plane, swapping its inside and outside.
    pub fn flipped(self) -> (r: CuttingPlane)
        requires
            self.wf(),
        ensures
            r.point == self.point,
            r.normal.x == -self.normal.x,
            r.normal.y == -self.normal.y,
            r.normal.z == -self.normal.z,
            r.wf(),
    {
        CuttingPlane {
            point: self.point,
            normal: LVec3 { x: -self.normal.x, y: -self.normal.y, z: -self.normal.z },
        }
    }

    /// Scaled signed distance to a point: positive outside the half-space,
    /// negative inside, zero on the plane.
    pub fn signed_distance(&self, point: IVec3) -> (r: i128)
        requires
            self.wf(),
            hull_point_ok(point),
        ensures
            r == plane_sd(*self, point),
    {
        let dx: i64 = point.x as i64 - self.point.x as i64;
        let dy: i64 = point.y as i64 - self.point.y as i64;
        let dz: i64 = point.z as i64 - self.point.z as i64;
        let px: i128 = mul64(dx, self.normal.x);
        let py: i128 = mul64(dy, self.normal.y);
        let pz: i128 = mul64(dz, self.normal.z);
        proof {
            lemma_mul_bound(dx as int, self.normal.x as int, 0x800, NORMAL_LIMIT as int);
            lemma_mul_bound(dy as int, self.normal.y as int, 0x800, NORMAL_LIMIT as int);
            lemma_mul_bound(dz as int, self.normal.z as int, 0x800, NORMAL_LIMIT as int);
        }
        px + py + pz
    }

    /// Returns the plane containing the three points, with normal the
    /// cross product of the triangle's edge vectors, or nothing when the
    /// points are collinear (including coincident points): the cross
    /// product is then exactly zero.
    pub fn from_triangle(points: [IVec3; 3]) -> (r: Option<CuttingPlane>)
        requires
            hull_point_ok(points[0]),
            hull_point_ok(points[1]),
            hull_point_ok(points[2]),
        ensures
            ({
                let nx = tri_normal_x(points[0], points[1], points[2]);
                let ny = tri_normal_y(points[0], points[1], points[2]);
                let nz = tri_normal_z(points[0], points[1], points[2]);
                &&& (r is Some <==> !(nx == 0 && ny == 0 && nz == 0))
                &&& r matches Some(pl) ==> {
                    &&& pl.point == points[0]
                    &&& pl.normal.x == nx && pl.normal.y == ny && pl.normal.z == nz
                    &&& pl.wf()
                    &&& plane_sd(pl, points[0]) == 0
                    &&& plane_sd(pl, points[1]) == 0
                    &&& plane_sd(pl, points[2]) == 0
                }
            }),
    {
        let p0 = points[0];
        let p1 = points[1];
        let p2 = points[2];
        let ax: i64 = p1.x as i64 - p0.x as i64;
        let ay: i64 = p1.y as i64 - p0.y as i64;
        let az: i64 = p1.z as i64 - p0.z as i64;
        let bx: i64 = p2.x as i64 - p0.x as i64;
        let by: i64 = p2.y as i64 - p0.y as i64;
        let bz: i64 = p2.z as i64 - p0.z as i64;
        proof {
            lemma_mul_bound(ay as int, bz as int, 0x400, 0x400);
            lemma_mul_bound(az as int, by as int, 0x400, 0x400);
            lemma_mul_bound(az as int, bx as int, 0x400, 0x400);
            lemma_mul_bound(ax as int, bz as int, 0x400, 0x400);
            lemma_mul_bound(ax as int, by as int, 0x400, 0x400);
            lemma_mul_bound(ay as int, bx as int, 0x400, 0x400);
        }
        let nx: i64 = (mul64(ay, bz) - mul64(az, by)) as i64;
        let ny: i64 = (mul64(az, bx) - mul64(ax, bz)) as i64;
        let nz: i64 = (mul64(ax, by) - mul64(ay, bx)) as i64;

        if nx == 0 && ny == 0 && nz == 0 {
            return None;
        }
        let pl = CuttingPlane { point: p0, normal: LVec3 { x: nx, y: ny, z: nz } };
        proof {
            lemma_cross_perp_first(ax as int, ay as int, az as int, bx as int, by as int, bz as int);
            lemma_cross_perp_second(ax as int, ay as int, az as int, bx as int, by as int, bz as int);
            lemma_zero_dot(
                nx as int, ny as int, nz as int,
                p0.x - p0.x, p0.y - p0.y, p0.z - p0.z,
            );
            assert(plane_sd(pl, p0) == 0);
            assert(plane_sd(pl, p1) == 0);
            assert(plane_sd(pl, p2) == 0);
        }
        Some(pl)
    }

    /// Computes the intersection of two planes: a line directed along the
    /// cross product of the two normals, through the closed-form solution
    /// of the two plane equations. Exactly when the planes are parallel or
    /// coincide (cross product exactly zero) there is no line; otherwise
    /// the returned point provably satisfies both plane equations, the
    /// consistency condition of the construction.
    pub fn intersection_plane(&self, other: &CuttingPlane) -> (r: Option<InfiniteLine>)
        requires
            self.wf(),
            other.wf(),
        ensures
            ({
                let px = cross3l_x(self.normal, other.normal);
                let py = cross3l_y(self.normal, other.normal);
                let pz = cross3l_z(self.normal, other.normal);
                &&& (r is Some <==> !(px == 0 && py == 0 && pz == 0))
                &&& r matches Some(l) ==> {
                    &&& l.direction.x == px && l.direction.y == py && l.direction.z == pz
                    &&& l.point.wf()
                    &&& l.point.den == px * px + py * py + pz * pz
                    &&& plane_side_num(*self, l.point) == 0
                    &&& plane_side_num(*other, l.point) == 0
                }
            }),
    {
        let n1 = self.normal;
        let n2 = other.normal;
        proof {
            lemma_mul_bound(n1.y as int, n2.z as int, NORMAL_LIMIT as int, NORMAL_LIMIT as int);
            lemma_mul_bound(n1.z as int, n2.y as int, NORMAL_LIMIT as int, NORMAL_LIMIT as int);
            lemma_mul_bound(n1.z as int, n2.x as int, NORMAL_LIMIT as int, NORMAL_LIMIT as int);
            lemma_mul_bound(n1.x as int, n2.z as int, NORMAL_LIMIT as int, NORMAL_LIMIT as int);
            lemma_mul_bound(n1.x as int, n2.y as int, NORMAL_LIMIT as int, NORMAL_LIMIT as int);
            lemma_mul_bound(n1.y as int, n2.x as int, NORMAL_LIMIT as int, NORMAL_LIMIT as int);
        }
        let perpx: i128 = mul64(n1.y, n2.z) - mul64(n1.z, n2.y);
        let perpy: i128 = mul64(n1.z, n2.x) - mul64(n1.x, n2.z);
        let perpz: i128 = mul64(n1.x, n2.y) - mul64(n1.y, n2.x);
        if perpx == 0 && perpy == 0 && perpz == 0 {
            return None;
        }

        // b1 = p1 . n1 and b2 = p2 . n2, the right-hand sides.
        let b1: i128 = self.rhs();
        let b2: i128 = other.rhs();

        // m = b2 * n1 - b1 * n2 spans the solution with the direction.
        proof {
            lemma_mul_bound(b2 as int, n1.x as int, 0x2_0000_0000, NORMAL_LIMIT as int);
            lemma_mul_bound(b2 as int, n1.y as int, 0x2_0000_0000, NORMAL_LIMIT as int);
            lemma_mul_bound(b2 as int, n1.z as int, 0x2_0000_0000, NORMAL_LIMIT as int);
            lemma_mul_bound(b1 as int, n2.x as int, 0x2_0000_0000, NORMAL_LIMIT as int);
            lemma_mul_bound(b1 as int, n2.y as int, 0x2_0000_0000, NORMAL_LIMIT as int);
            lemma_mul_bound(b1 as int, n2.z as int, 0x2_0000_0000, NORMAL_LIMIT as int);
        }
        let mx: i128 = mul128(b2, n1.x as i128) - mul128(b1, n2.x as i128);
        let my: i128 = mul128(b2, n1.y as i128) - mul128(b1, n2.y as i128);
        let mz: i128 = mul128(b2, n1.z as i128) - mul128(b1, n2.z as i128);

        // The intersection point is m x (-perp) / |perp|^2.
        proof {
            lemma_mul_bound(my as int, -(perpz as int), 0x80_0000_0000_0000, 0x1000_0000_0000);
            lemma_mul_bound(mz as int, -(perpy as int), 0x80_0000_0000_0000, 0x1000_0000_0000);
            lemma_mul_bound(mz as int, -(perpx as int), 0x80_0000_0000_0000, 0x1000_0000_0000);
            lemma_mul_bound(mx as int, -(perpz as int), 0x80_0000_0000_0000, 0x1000_0000_0000);
            lemma_mul_bound(mx as int, -(perpy as int), 0x80_0000_0000_0000, 0x1000_0000_0000);
            lemma_mul_bound(my as int, -(perpx as int), 0x80_0000_0000_0000, 0x1000_0000_0000);
            lemma_mul_bound(perpx as int, perpx as int, 0x1000_0000_0000, 0x1000_0000_0000);
            lemma_mul_bound(perpy as int, perpy as int, 0x1000_0000_0000, 0x1000_0000_0000);
            lemma_mul_bound(perpz as int, perpz as int, 0x1000_0000_0000, 0x1000_0000_0000);
        }
        let ix: i128 = mul128(my, -perpz) - mul128(mz, -perpy);
        let iy: i128 = mul128(mz, -perpx) - mul128(mx, -perpz);
        let iz: i128 = mul128(mx, -perpy) - mul128(my, -perpx);
        let den: i128 = mul128(perpx, perpx) + mul128(perpy, perpy) + mul128(perpz, perpz);
        proof {
            assert(den > 0) by (nonlinear_arith)
                requires
                    den == perpx * perpx + perpy * perpy + perpz * perpz,
                    !(perpx == 0 && perpy == 0 && perpz == 0),
            ;
        }
        let candidate = RatPoint3 { nx: ix, ny: iy, nz: iz, den };
        proof {
            assert(rat_bounded(candidate));
            assert(0 < candidate.den);

            // The solution satisfies both plane equations exactly: the
            // construction's consistency condition, proved rather than
            // checked.
            lemma_pair_meets(
                n1.x as int, n1.y as int, n1.z as int,
                n2.x as int, n2.y as int, n2.z as int,
                b1 as int, b2 as int,
            );
            assert(plane_side_num(*self, candidate) == 0);
            assert(plane_side_num(*other, candidate) == 0);
            assert(perpx as int == cross3l_x(n1, n2));
            assert(perpy as int == cross3l_y(n1, n2));
            assert(perpz as int == cross3l_z(n1, n2));
        }
        Some(InfiniteLine {
            point: candidate,
            direction: LVec3 { x: perpx as i64, y: perpy as i64, z: perpz as i64 },
        })
    }

    /// `point . normal`, the plane equation's right-hand side.
    fn rhs(&self) -> (r: i128)
        requires
            self.wf(),
        ensures
            r == plane_b(*self),
            -0x2_0000_0000 <= r <= 0x2_0000_0000,
    {
        proof {
            lemma_mul_bound(self.point.x as int, self.normal.x as int, 0x400, NORMAL_LIMIT as int);
            lemma_mul_bound(self.point.y as int, self.normal.y as int, 0x400, NORMAL_LIMIT as int);
            lemma_mul_bound(self.point.z as int, self.normal.z as int, 0x400, NORMAL_LIMIT as int);
        }
        mul64(self.point.x as i64, self.normal.x) + mul64(self.point.y as i64, self.normal.y)
            + mul64(self.point.z as i64, self.normal.z)
    }

    /// The side of the plane a bounded rational point lies on: the sign of
    /// the returned value classifies it, zero meaning exactly on the plane.
    fn side_of(&self, v: &RatPoint3) -> (r: i128)
        requires
            self.wf(),
            rat_bounded(*v),
        ensures
            r == plane_side_num(*self, *v),
    {
        let b: i128 = self.rhs();
        proof {
            lemma_mul_bound(
                v.nx as int,
                self.normal.x as int,
                0x10000000000000000000000000,
                NORMAL_LIMIT as int,
            );
            lemma_mul_bound(
                v.ny as int,
                self.normal.y as int,
                0x10000000000000000000000000,
                NORMAL_LIMIT as int,
            );
            lemma_mul_bound(
                v.nz as int,
                self.normal.z as int,
                0x10000000000000000000000000,
                NORMAL_LIMIT as int,
            );
            lemma_mul_bound(
                v.den as int,
                b as int,
                0x40000000000000000000000,
                0x2_0000_0000,
            );
        }
        let sx: i128 = v.nx * (self.normal.x as i128);
        let sy: i128 = v.ny * (self.normal.y as i128);
        let sz: i128 = v.nz * (self.normal.z as i128);
        sx + sy + sz - v.den * b
    }
}

/// Whether `pt` lies on the line: the difference to the line's base point
/// (over a common denominator) is parallel to the direction.
pub open spec fn on_line_spec(l: InfiniteLine, pt: RatPoint3) -> bool {
    let dx = pt.nx * l.point.den - l.point.nx * pt.den;
    let dy = pt.ny * l.point.den - l.point.ny * pt.den;
    let dz = pt.nz * l.point.den - l.point.nz * pt.den;
    &&& dy * (l.direction.z as int) - dz * (l.direction.y as int) == 0
    &&& dz * (l.direction.x as int) - dx * (l.direction.z as int) == 0
    &&& dx * (l.direction.y as int) - dy * (l.direction.x as int) == 0
}

/// Bound on the direction of a line the kernel accepts: what a cross
/// product of two well-formed normals can reach.
pub const DIRECTION_LIMIT: i64 = 0x1000_0000_0000;

/// A value representable in 128 bits.
pub open spec fn fits_i128(v: int) -> bool {
    i128::MIN <= v <= i128::MAX
}

/// Whether every intermediate of the exact line-plane meeting computation
/// stays in 128 bits: the one further condition, besides a nonzero
/// direction-normal dot product, under which the meeting point is
/// returned.
pub open spec fn line_meet_fits(pl: CuttingPlane, l: InfiniteLine) -> bool {
    let nx = pl.normal.x as int;
    let ny = pl.normal.y as int;
    let nz = pl.normal.z as int;
    let b = plane_b(pl);
    let dn = (l.direction.x as int) * nx + (l.direction.y as int) * ny
        + (l.direction.z as int) * nz;
    let lpn = l.point.nx * nx + l.point.ny * ny + l.point.nz * nz;
    let tn = b * l.point.den - lpn;
    let den0 = l.point.den * dn;
    let x0 = l.point.nx * dn + (l.direction.x as int) * tn;
    let x1 = l.point.ny * dn + (l.direction.y as int) * tn;
    let x2 = l.point.nz * dn + (l.direction.z as int) * tn;
    &&& fits_i128(l.point.nx * nx)
    &&& fits_i128(l.point.ny * ny)
    &&& fits_i128(l.point.nz * nz)
    &&& fits_i128(l.point.nx * nx + l.point.ny * ny)
    &&& fits_i128(lpn)
    &&& fits_i128(b * l.point.den)
    &&& fits_i128(tn)
    &&& fits_i128(den0)
    &&& fits_i128(l.point.nx * dn)
    &&& fits_i128((l.direction.x as int) * tn)
    &&& fits_i128(x0)
    &&& fits_i128(l.point.ny * dn)
    &&& fits_i128((l.direction.y as int) * tn)
    &&& fits_i128(x1)
    &&& fits_i128(l.point.nz * dn)
    &&& fits_i128((l.direction.z as int) * tn)
    &&& fits_i128(x2)
    &&& (den0 < 0 ==> fits_i128(-x0) && fits_i128(-x1) && fits_i128(-x2) && fits_i128(-den0))
}

/// Distributing a product of a two-term sum over a factor.
proof fn lemma_expand_sum(a: int, b: int, c: int, d: int, e: int)
    ensures
        (a * b + c * d) * e == a * (b * e) + c * (d * e),
{
    lemma_mul_is_distributive_add(e, a * b, c * d);
    lemma_mul_is_commutative(a * b + c * d, e);
    lemma_mul_is_commutative(a * b, e);
    lemma_mul_is_commutative(c * d, e);
    lemma_mul_is_associative(a, b, e);
    lemma_mul_is_associative(c, d, e);
}

/// Negation moves out of a product.
proof fn lemma_neg_times(a: int, b: int)
    by (nonlinear_arith)
    ensures
        (-a) * b == -(a * b),
        a * (-b) == -(a * b),
{
}

/// A product of a positive and a nonzero factor is nonzero.
proof fn lemma_nonzero_product(a: int, b: int)
    by (nonlinear_arith)
    requires
        a > 0,
        b != 0,
    ensures
        a * b != 0,
        b > 0 ==> a * b > 0,
        b < 0 ==> a * b < 0,
{
}

/// The exact line-plane meeting point, before sign normalization,
/// satisfies the plane equation, and its difference to the line's base
/// point is the direction scaled by `tn * lden`.
proof fn lemma_line_meet(
    nx: int, ny: int, nz: int, b: int,
    dx: int, dy: int, dz: int,
    lnx: int, lny: int, lnz: int, lden: int,
)
    ensures
        ({
            let dn = dx * nx + dy * ny + dz * nz;
            let lpn = lnx * nx + lny * ny + lnz * nz;
            let tn = b * lden - lpn;
            let den0 = lden * dn;
            let x0 = lnx * dn + dx * tn;
            let x1 = lny * dn + dy * tn;
            let x2 = lnz * dn + dz * tn;
            &&& x0 * nx + x1 * ny + x2 * nz == den0 * b
            &&& x0 * lden - lnx * den0 == dx * (tn * lden)
            &&& x1 * lden - lny * den0 == dy * (tn * lden)
            &&& x2 * lden - lnz * den0 == dz * (tn * lden)
        }),
{
    let dn = dx * nx + dy * ny + dz * nz;
    let lpn = lnx * nx + lny * ny + lnz * nz;
    let tn = b * lden - lpn;
    let den0 = lden * dn;
    let x0 = lnx * dn + dx * tn;
    let x1 = lny * dn + dy * tn;
    let x2 = lnz * dn + dz * tn;

    // Plane equation: each component of X dotted with the normal splits
    // into a base-point part and a direction part.
    lemma_expand_sum(lnx, dn, dx, tn, nx);
    lemma_expand_sum(lny, dn, dy, tn, ny);
    lemma_expand_sum(lnz, dn, dz, tn, nz);
    lemma_swap_product(lnx, dn, nx);
    lemma_swap_product(lny, dn, ny);
    lemma_swap_product(lnz, dn, nz);
    lemma_swap_product(dx, tn, nx);
    lemma_swap_product(dy, tn, ny);
    lemma_swap_product(dz, tn, nz);
    lemma_mul_is_distributive_add(dn, lnx * nx, lny * ny);
    lemma_mul_is_distributive_add(dn, lnx * nx + lny * ny, lnz * nz);
    lemma_mul_is_distributive_add(tn, dx * nx, dy * ny);
    lemma_mul_is_distributive_add(tn, dx * nx + dy * ny, dz * nz);
    assert(x0 * nx + x1 * ny + x2 * nz == dn * lpn + tn * dn);
    assert(tn * dn == (b * lden) * dn - lpn * dn) by {
        lemma_mul_is_commutative(tn, dn);
        lemma_mul_is_distributive_sub(dn, b * lden, lpn);
        lemma_mul_is_commutative(dn, b * lden);
        lemma_mul_is_commutative(dn, lpn);
    }
    assert(dn * lpn == lpn * dn) by {
        lemma_mul_is_commutative(dn, lpn);
    }
    assert((b * lden) * dn == den0 * b) by {
        lemma_mul_is_commutative(b, lden);
        lemma_mul_is_associative(lden, b, dn);
        lemma_mul_is_commutative(b, dn);
        lemma_mul_is_associative(lden, dn, b);
    }

    // On the line: the common-denominator difference to the base point is
    // the direction scaled by tn * lden.
    lemma_expand_sum(lnx, dn, dx, tn, lden);
    lemma_expand_sum(lny, dn, dy, tn, lden);
    lemma_expand_sum(lnz, dn, dz, tn, lden);
    assert(lnx * (dn * lden) == lnx * den0) by {
        lemma_mul_is_commutative(dn, lden);
    }
    assert(lny * (dn * lden) == lny * den0) by {
        lemma_mul_is_commutative(dn, lden);
    }
    assert(lnz * (dn * lden) == lnz * den0) by {
        lemma_mul_is_commutative(dn, lden);
    }
}

impl CuttingPlane {
    /// Returns the intersection of the plane with the line: the meeting
    /// point satisfies the plane equation and lies on the line exactly,
    /// by construction. There is no meeting exactly when the line is
    /// parallel to the plane (direction-normal dot product exactly zero),
    /// which includes a line lying within it, or when an intermediate of
    /// the exact computation would leave the 128-bit range.
    pub fn intersection_line(&self, line: &InfiniteLine) -> (r: Option<RatPoint3>)
        requires
            self.wf(),
            line.point.wf(),
            -DIRECTION_LIMIT <= line.direction.x <= DIRECTION_LIMIT,
            -DIRECTION_LIMIT <= line.direction.y <= DIRECTION_LIMIT,
            -DIRECTION_LIMIT <= line.direction.z <= DIRECTION_LIMIT,
        ensures
            ({
                let dn = dot3(
                    line.direction.x as int,
                    line.direction.y as int,
                    line.direction.z as int,
                    self.normal.x as int,
                    self.normal.y as int,
                    self.normal.z as int,
                );
                &&& (r is Some <==> dn != 0 && line_meet_fits(*self, *line))
                &&& r matches Some(pt) ==> {
                    &&& pt.wf()
                    &&& plane_side_num(*self, pt) == 0
                    &&& on_line_spec(*line, pt)
                }
            }),
    {
        proof {
            lemma_mul_bound(
                line.direction.x as int,
                self.normal.x as int,
                DIRECTION_LIMIT as int,
                NORMAL_LIMIT as int,
            );
            lemma_mul_bound(
                line.direction.y as int,
                self.normal.y as int,
                DIRECTION_LIMIT as int,
                NORMAL_LIMIT as int,
            );
            lemma_mul_bound(
                line.direction.z as int,
                self.normal.z as int,
                DIRECTION_LIMIT as int,
                NORMAL_LIMIT as int,
            );
        }
        let dn: i128 = mul64(line.direction.x, self.normal.x)
            + mul64(line.direction.y, self.normal.y) + mul64(line.direction.z, self.normal.z);
        if dn == 0 {
            return None;
        }
        let b: i128 = self.rhs();
        let lp = line.point;

        // t = (b * den - lp_num . n) / (den * dn); the meeting point is
        // lp + direction * t over the denominator den * dn.
        let nxn = match lp.nx.checked_mul(self.normal.x as i128) {
            Some(v) => v,
            None => {
                return None;
            }
        };
        let nyn = match lp.ny.checked_mul(self.normal.y as i128) {
            Some(v) => v,
            None => {
                return None;
            }
        };
        let nzn = match lp.nz.checked_mul(self.normal.z as i128) {
            Some(v) => v,
            None => {
                return None;
            }
        };
        let s1 = match nxn.checked_add(nyn) {
            Some(v) => v,
            None => {
                return None;
            }
        };
        let lpn = match s1.checked_add(nzn) {
            Some(v) => v,
            None => {
                return None;
            }
        };
        let bden = match b.checked_mul(lp.den) {
            Some(v) => v,
            None => {
                return None;
            }
        };
        let tn = match bden.checked_sub(lpn) {
            Some(v) => v,
            None => {
                return None;
            }
        };
        let den0 = match lp.den.checked_mul(dn) {
            Some(v) => v,
            None => {
                return None;
            }
        };
        let xs = match self.meet_component(lp.nx, dn, line.direction.x, tn) {
            Some(v) => v,
            None => {
                return None;
            }
        };
        let ys = match self.meet_component(lp.ny, dn, line.direction.y, tn) {
            Some(v) => v,
            None => {
                return None;
            }
        };
        let zs = match self.meet_component(lp.nz, dn, line.direction.z, tn) {
            Some(v) => v,
            None => {
                return None;
            }
        };
        proof {
            lemma_line_meet(
                self.normal.x as int, self.normal.y as int, self.normal.z as int, b as int,
                line.direction.x as int, line.direction.y as int, line.direction.z as int,
                lp.nx as int, lp.ny as int, lp.nz as int, lp.den as int,
            );
            lemma_nonzero_product(lp.den as int, dn as int);
        }
        let ghost scale = (tn as int) * (lp.den as int);
        if den0 > 0 {
            let pt = RatPoint3 { nx: xs, ny: ys, nz: zs, den: den0 };
            proof {
                Self::lemma_meet_point_ok(*self, *line, pt, scale);
            }
            Some(pt)
        } else {
            let fx = match 0i128.checked_sub(xs) {
                Some(v) => v,
                None => {
                    return None;
                }
            };
            let fy = match 0i128.checked_sub(ys) {
                Some(v) => v,
                None => {
                    return None;
                }
            };
            let fz = match 0i128.checked_sub(zs) {
                Some(v) => v,
                None => {
                    return None;
                }
            };
            let fd = match 0i128.checked_sub(den0) {
                Some(v) => v,
                None => {
                    return None;
                }
            };
            let pt = RatPoint3 { nx: fx, ny: fy, nz: fz, den: fd };
            proof {
                Self::lemma_meet_point_negated(*self, *line, xs as int, ys as int, zs as int,
                    den0 as int, pt, scale);
            }
            Some(pt)
        }
    }

    /// A meeting point with the raw positive denominator satisfies the
    /// plane equation and lies on the line.
    proof fn lemma_meet_point_ok(pl: CuttingPlane, l: InfiniteLine, pt: RatPoint3, scale: int)
        requires
            pl.wf(),
            pt.den > 0,
            pt.nx * (pl.normal.x as int) + pt.ny * (pl.normal.y as int)
                + pt.nz * (pl.normal.z as int) == pt.den * plane_b(pl),
            pt.nx * l.point.den - l.point.nx * pt.den == (l.direction.x as int) * scale,
            pt.ny * l.point.den - l.point.ny * pt.den == (l.direction.y as int) * scale,
            pt.nz * l.point.den - l.point.nz * pt.den == (l.direction.z as int) * scale,
        ensures
            pt.wf(),
            plane_side_num(pl, pt) == 0,
            on_line_spec(l, pt),
    {
        Self::lemma_scaled_direction_parallel(
            l,
            (l.direction.x as int) * scale,
            (l.direction.y as int) * scale,
            (l.direction.z as int) * scale,
            scale,
        );
    }

    /// The sign-flipped meeting point satisfies the plane equation and
    /// lies on the line as well.
    proof fn lemma_meet_point_negated(
        pl: CuttingPlane,
        l: InfiniteLine,
        x0: int, x1: int, x2: int, d0: int,
        pt: RatPoint3,
        scale: int,
    )
        requires
            pl.wf(),
            d0 < 0,
            pt.nx == -x0 && pt.ny == -x1 && pt.nz == -x2 && pt.den == -d0,
            x0 * (pl.normal.x as int) + x1 * (pl.normal.y as int) + x2 * (pl.normal.z as int)
                == d0 * plane_b(pl),
            x0 * l.point.den - l.point.nx * d0 == (l.direction.x as int) * scale,
            x1 * l.point.den - l.point.ny * d0 == (l.direction.y as int) * scale,
            x2 * l.point.den - l.point.nz * d0 == (l.direction.z as int) * scale,
        ensures
            pt.wf(),
            plane_side_num(pl, pt) == 0,
            on_line_spec(l, pt),
    {
        lemma_neg_times(x0, pl.normal.x as int);
        lemma_neg_times(x1, pl.normal.y as int);
        lemma_neg_times(x2, pl.normal.z as int);
        lemma_neg_times(d0, plane_b(pl));
        lemma_neg_times(x0, l.point.den as int);
        lemma_neg_times(x1, l.point.den as int);
        lemma_neg_times(x2, l.point.den as int);
        lemma_neg_times(l.point.nx as int, d0);
        lemma_neg_times(l.point.ny as int, d0);
        lemma_neg_times(l.point.nz as int, d0);
        assert(l.point.nx * (-d0) == -(l.point.nx * d0));
        assert(pt.nx * l.point.den - l.point.nx * pt.den
            == -((l.direction.x as int) * scale));
        assert(pt.ny * l.point.den - l.point.ny * pt.den
            == -((l.direction.y as int) * scale));
        assert(pt.nz * l.point.den - l.point.nz * pt.den
            == -((l.direction.z as int) * scale));
        lemma_neg_times(l.direction.x as int, scale);
        lemma_neg_times(l.direction.y as int, scale);
        lemma_neg_times(l.direction.z as int, scale);
        Self::lemma_scaled_direction_parallel(
            l,
            -((l.direction.x as int) * scale),
            -((l.direction.y as int) * scale),
            -((l.direction.z as int) * scale),
            -scale,
        );
    }

    /// A vector that is the line's direction scaled by any factor has a
    /// zero cross product with the direction.
    proof fn lemma_scaled_direction_parallel(l: InfiniteLine, vx: int, vy: int, vz: int, s: int)
        requires
            vx == (l.direction.x as int) * s,
            vy == (l.direction.y as int) * s,
            vz == (l.direction.z as int) * s,
        ensures
            vy * (l.direction.z as int) - vz * (l.direction.y as int) == 0,
            vz * (l.direction.x as int) - vx * (l.direction.z as int) == 0,
            vx * (l.direction.y as int) - vy * (l.direction.x as int) == 0,
    {
        let dx = l.direction.x as int;
        let dy = l.direction.y as int;
        let dz = l.direction.z as int;
        assert((dy * s) * dz == s * (dy * dz)) by {
            lemma_mul_is_commutative(dy, s);
            lemma_mul_is_associative(s, dy, dz);
        }
        assert((dz * s) * dy == s * (dz * dy)) by {
            lemma_mul_is_commutative(dz, s);
            lemma_mul_is_associative(s, dz, dy);
        }
        assert((dz * s) * dx == s * (dz * dx)) by {
            lemma_mul_is_commutative(dz, s);
            lemma_mul_is_associative(s, dz, dx);
        }
        assert((dx * s) * dz == s * (dx * dz)) by {
            lemma_mul_is_commutative(dx, s);
            lemma_mul_is_associative(s, dx, dz);
        }
        assert((dx * s) * dy == s * (dx * dy)) by {
            lemma_mul_is_commutative(dx, s);
            lemma_mul_is_associative(s, dx, dy);
        }
        assert((dy * s) * dx == s * (dy * dx)) by {
            lemma_mul_is_commutative(dy, s);
            lemma_mul_is_associative(s, dy, dx);
        }
        lemma_mul_is_commutative(dy, dz);
        lemma_mul_is_commutative(dz, dx);
        lemma_mul_is_commutative(dx, dy);
    }

    /// One coordinate numerator of the line-plane meeting point:
    /// `lp_num * dn + direction * tn`, if it stays in range.
    fn meet_component(&self, lpn: i128, dn: i128, dir: i64, tn: i128) -> (r: Option<i128>)
        ensures
            r matches Some(v) ==> v == lpn * dn + dir * tn,
            r is Some <==> fits_i128(lpn * dn) && fits_i128((dir as int) * tn)
                && fits_i128(lpn * dn + dir * tn),
    {
        let a = match lpn.checked_mul(dn) {
            Some(v) => v,
            None => {
                return None;
            }
        };
        let b = match (dir as i128).checked_mul(tn) {
            Some(v) => v,
            None => {
                return None;
            }
        };
        match a.checked_add(b) {
            Some(v) => Some(v),
            None => None,
        }
    }
}

/// The x component of the cross product of two 64-bit vectors.
pub open spec fn cross3l_x(a: LVec3, b: LVec3) -> int {
    (a.y as int) * (b.z as int) - (a.z as int) * (b.y as int)
}

/// The y component of the cross product of two 64-bit vectors.
pub open spec fn cross3l_y(a: LVec3, b: LVec3) -> int {
    (a.z as int) * (b.x as int) - (a.x as int) * (b.z as int)
}

/// The z component of the cross product of two 64-bit vectors.
pub open spec fn cross3l_z(a: LVec3, b: LVec3) -> int {
    (a.x as int) * (b.y as int) - (a.y as int) * (b.x as int)
}


/// A 3x3 determinant from its nine entries, row by row.
pub open spec fn det3x3(
    a1: int, a2: int, a3: int,
    b1: int, b2: int, b3: int,
    c1: int, c2: int, c3: int,
) -> int {
    a1 * (b2 * c3 - b3 * c2) - a2 * (b1 * c3 - b3 * c1) + a3 * (b1 * c2 - b2 * c1)
}

/// The determinant of the three plane normals: zero exactly when the
/// planes do not meet in a single point.
pub open spec fn plane_det(p1: CuttingPlane, p2: CuttingPlane, p3: CuttingPlane) -> int {
    det3x3(
        p1.normal.x as int, p1.normal.y as int, p1.normal.z as int,
        p2.normal.x as int, p2.normal.y as int, p2.normal.z as int,
        p3.normal.x as int, p3.normal.y as int, p3.normal.z as int,
    )
}

/// Cramer numerator of the x coordinate of the triple-plane meeting point.
pub open spec fn cram_x(p1: CuttingPlane, p2: CuttingPlane, p3: CuttingPlane) -> int {
    det3x3(
        plane_b(p1), p1.normal.y as int, p1.normal.z as int,
        plane_b(p2), p2.normal.y as int, p2.normal.z as int,
        plane_b(p3), p3.normal.y as int, p3.normal.z as int,
    )
}

/// Cramer numerator of the y coordinate.
pub open spec fn cram_y(p1: CuttingPlane, p2: CuttingPlane, p3: CuttingPlane) -> int {
    -det3x3(
        plane_b(p1), p1.normal.x as int, p1.normal.z as int,
        plane_b(p2), p2.normal.x as int, p2.normal.z as int,
        plane_b(p3), p3.normal.x as int, p3.normal.z as int,
    )
}

/// Cramer numerator of the z coordinate.
pub open spec fn cram_z(p1: CuttingPlane, p2: CuttingPlane, p3: CuttingPlane) -> int {
    det3x3(
        plane_b(p1), p1.normal.x as int, p1.normal.y as int,
        plane_b(p2), p2.normal.x as int, p2.normal.y as int,
        plane_b(p3), p3.normal.x as int, p3.normal.y as int,
    )
}

/// The meeting point of three planes with nonzero determinant, as a
/// rational point with positive denominator.
pub open spec fn cramer_point(p1: CuttingPlane, p2: CuttingPlane, p3: CuttingPlane) -> RatPoint3 {
    let d = plane_det(p1, p2, p3);
    if d > 0 {
        RatPoint3 {
            nx: cram_x(p1, p2, p3) as i128,
            ny: cram_y(p1, p2, p3) as i128,
            nz: cram_z(p1, p2, p3) as i128,
            den: d as i128,
        }
    } else {
        RatPoint3 {
            nx: (-cram_x(p1, p2, p3)) as i128,
            ny: (-cram_y(p1, p2, p3)) as i128,
            nz: (-cram_z(p1, p2, p3)) as i128,
            den: (-d) as i128,
        }
    }
}

/// The candidate point is weakly inside every half-space of the hull.
pub open spec fn rat_inside(planes: Seq<CuttingPlane>, v: RatPoint3) -> bool {
    forall|t: int| 0 <= t < planes.len() ==> plane_side_num(#[trigger] planes[t], v) <= 0
}

/// The candidate point lies exactly on at least one plane of the hull.
pub open spec fn rat_touches(planes: Seq<CuttingPlane>, v: RatPoint3) -> bool {
    exists|t: int| 0 <= t < planes.len() && plane_side_num(#[trigger] planes[t], v) == 0
}

/// A candidate is a hull vertex when it is inside all half-spaces and on
/// the hull boundary: the largest scaled signed distance is exactly zero.
pub open spec fn vertex_kept(planes: Seq<CuttingPlane>, v: RatPoint3) -> bool {
    rat_inside(planes, v) && rat_touches(planes, v)
}

/// The vertex candidates one plane triple `(i, j, k)` contributes.
pub open spec fn tri_candidate(planes: Seq<CuttingPlane>, i: int, j: int, k: int) -> Seq<RatPoint3> {
    if plane_det(planes[i], planes[j], planes[k]) == 0 {
        Seq::empty()
    } else {
        let v = cramer_point(planes[i], planes[j], planes[k]);
        if vertex_kept(planes, v) {
            seq![v]
        } else {
            Seq::empty()
        }
    }
}

/// Candidates of the triples `(i, j, k)` for `k < kmax`.
pub open spec fn cands_k(planes: Seq<CuttingPlane>, i: int, j: int, kmax: int) -> Seq<RatPoint3>
    decreases kmax,
{
    if kmax <= 0 {
        Seq::empty()
    } else {
        cands_k(planes, i, j, kmax - 1) + tri_candidate(planes, i, j, kmax - 1)
    }
}

/// Candidates of the triples `(i, j, k)` for `k < j < jmax`.
pub open spec fn cands_j(planes: Seq<CuttingPlane>, i: int, jmax: int) -> Seq<RatPoint3>
    decreases jmax,
{
    if jmax <= 0 {
        Seq::empty()
    } else {
        cands_j(planes, i, jmax - 1) + cands_k(planes, i, jmax - 1, jmax - 1)
    }
}

/// All vertex candidates of the hull, in the enumeration order of the
/// triple loop: ordered triples of distinct planes, the first index
/// largest.
pub open spec fn cands(planes: Seq<CuttingPlane>, imax: int) -> Seq<RatPoint3>
    decreases imax,
{
    if imax <= 0 {
        Seq::empty()
    } else {
        cands(planes, imax - 1) + cands_j(planes, imax - 1, imax - 1)
    }
}

/// How many of the computed vertices lie exactly on the plane.
pub open spec fn touch_count(vs: Seq<RatPoint3>, pl: CuttingPlane) -> int
    decreases vs.len(),
{
    if vs.len() == 0 {
        0
    } else {
        touch_count(vs.drop_last(), pl) + if plane_side_num(pl, vs.last()) == 0 {
            1int
        } else {
            0int
        }
    }
}

/// The planes retained by `simplify`: those touching at least three of
/// the computed vertices.
pub open spec fn kept_planes(s: Seq<CuttingPlane>, vs: Seq<RatPoint3>) -> Seq<CuttingPlane>
    decreases s.len(),
{
    if s.len() == 0 {
        s
    } else {
        let rest = kept_planes(s.drop_last(), vs);
        if touch_count(vs, s.last()) >= 3 {
            rest.push(s.last())
        } else {
            rest
        }
    }
}

/// The largest scaled signed distance of the point to any plane of the
/// (nonempty) set: negative strictly inside the solid, zero on its
/// boundary, positive outside. The per-plane scale factors differ, so the
/// magnitude is not a metric distance, but the sign and zeroes are exact.
pub open spec fn hull_sd(s: Seq<CuttingPlane>, q: IVec3) -> int
    decreases s.len(),
{
    if s.len() <= 1 {
        plane_sd(s[0], q)
    } else {
        let rest = hull_sd(s.drop_last(), q);
        let lastv = plane_sd(s.last(), q);
        if lastv > rest {
            lastv
        } else {
            rest
        }
    }
}

/// The maximum over the planes is nonpositive exactly when every plane
/// reports the point weakly inside.
pub proof fn lemma_hull_sd_nonpos(s: Seq<CuttingPlane>, q: IVec3)
    requires
        s.len() >= 1,
    ensures
        hull_sd(s, q) <= 0 <==> (forall|t: int| 0 <= t < s.len() ==> plane_sd(#[trigger] s[t], q) <= 0),
    decreases s.len(),
{
    if s.len() > 1 {
        lemma_hull_sd_nonpos(s.drop_last(), q);
        assert forall|t: int| 0 <= t < s.len() - 1
            implies s.drop_last()[t] == s[t] by {}
        if hull_sd(s, q) <= 0 {
            assert forall|t: int| 0 <= t < s.len() implies plane_sd(#[trigger] s[t], q) <= 0 by {
                if t < s.len() - 1 {
                    assert(plane_sd(s.drop_last()[t], q) <= 0);
                }
            }
        }
    }
}

/// One plane of an outline of half-spaces, built from point triples and
/// oriented outward: a convex solid as an intersection of half-spaces.
#[derive(Clone, Debug)]
pub struct ConvexHull {
    pub planes: Vec<CuttingPlane>,
}

impl ConvexHull {
    /// Every plane of the hull is kernel-acceptable.
    pub open spec fn wf(self) -> bool {
        forall|t: int| 0 <= t < self.planes@.len() ==> (#[trigger] self.planes@[t]).wf()
    }

    /// The signed distance to the hull: the maximum of the per-plane
    /// scaled signed distances. Negative in the interior, positive in the
    /// exterior, zero on an edge or face.
    pub fn signed_distance(&self, point: IVec3) -> (r: i128)
        requires
            self.wf(),
            self.planes@.len() >= 1,
            hull_point_ok(point),
        ensures
            r == hull_sd(self.planes@, point),
    {
        let mut best: i128 = self.planes[0].signed_distance(point);
        let mut t: usize = 1;
        proof {
            assert(self.planes@.take(1int).len() == 1);
            assert(self.planes@.take(1int)[0] == self.planes@[0]);
        }
        while t < self.planes.len()
            invariant
                self.wf(),
                hull_point_ok(point),
                1 <= t <= self.planes@.len(),
                best == hull_sd(self.planes@.take(t as int), point),
            decreases self.planes@.len() - t,
        {
            let v = self.planes[t].signed_distance(point);
            proof {
                let pre = self.planes@.take(t as int);
                let cur = self.planes@.take(t + 1);
                assert(cur.drop_last() =~= pre);
                assert(cur.last() == self.planes@[t as int]);
            }
            if v > best {
                best = v;
            }
            t = t + 1;
        }
        proof {
            assert(self.planes@.take(self.planes@.len() as int) =~= self.planes@);
        }
        best
    }

    /// The candidate vertex contributed by the plane triple `(i, j, k)`:
    /// the solution of the three plane equations, kept when it lies on the
    /// hull boundary.
    fn try_triple(&self, i: usize, j: usize, k: usize) -> (r: Option<RatPoint3>)
        requires
            self.wf(),
            i < self.planes@.len(),
            j < self.planes@.len(),
            k < self.planes@.len(),
        ensures
            ({
                let t = tri_candidate(self.planes@, i as int, j as int, k as int);
                &&& (r is Some <==> t.len() == 1)
                &&& (r matches Some(v) ==> t == seq![v] && rat_bounded(v) && v.wf())
            }),
    {
        let p1 = self.planes[i];
        let p2 = self.planes[j];
        let p3 = self.planes[k];
        let b1 = p1.rhs();
        let b2 = p2.rhs();
        let b3 = p3.rhs();
        let d = det3x3e(
            p1.normal.x as i128, p1.normal.y as i128, p1.normal.z as i128,
            p2.normal.x as i128, p2.normal.y as i128, p2.normal.z as i128,
            p3.normal.x as i128, p3.normal.y as i128, p3.normal.z as i128,
        );
        if d == 0 {
            return None;
        }
        let dx = det3x3e(
            b1, p1.normal.y as i128, p1.normal.z as i128,
            b2, p2.normal.y as i128, p2.normal.z as i128,
            b3, p3.normal.y as i128, p3.normal.z as i128,
        );
        let dyn0 = det3x3e(
            b1, p1.normal.x as i128, p1.normal.z as i128,
            b2, p2.normal.x as i128, p2.normal.z as i128,
            b3, p3.normal.x as i128, p3.normal.z as i128,
        );
        let dy = -dyn0;
        let dz = det3x3e(
            b1, p1.normal.x as i128, p1.normal.y as i128,
            b2, p2.normal.x as i128, p2.normal.y as i128,
            b3, p3.normal.x as i128, p3.normal.y as i128,
        );
        let v = if d > 0 {
            RatPoint3 { nx: dx, ny: dy, nz: dz, den: d }
        } else {
            RatPoint3 { nx: -dx, ny: -dy, nz: -dz, den: -d }
        };
        proof {
            assert(v == cramer_point(p1, p2, p3));
        }

        // Keep the point only when it is a vertex of the solid: weakly
        // inside every half-space and exactly on the boundary.
        let mut all_in = true;
        let mut touches = false;
        let mut t: usize = 0;
        while t < self.planes.len()
            invariant
                self.wf(),
                0 <= t <= self.planes@.len(),
                rat_bounded(v),
                v.wf(),
                all_in == (forall|u: int| 0 <= u < t
                    ==> plane_side_num(#[trigger] self.planes@[u], v) <= 0),
                touches == (exists|u: int| 0 <= u < t
                    && plane_side_num(#[trigger] self.planes@[u], v) == 0),
            decreases self.planes@.len() - t,
        {
            let side = self.planes[t].side_of(&v);
            if side > 0 {
                all_in = false;
            }
            if side == 0 {
                touches = true;
            }
            t = t + 1;
        }
        if all_in && touches {
            proof {
                assert(vertex_kept(self.planes@, v));
            }
            Some(v)
        } else {
            proof {
                assert(!vertex_kept(self.planes@, v));
            }
            None
        }
    }

    /// This slow method computes the vertices of the convex hull: every
    /// ordered triple of distinct planes is solved for its meeting point,
    /// and the points on the hull boundary are collected. Quadruple plane
    /// meetings contribute one candidate per triple.
    pub fn vertices(&self) -> (r: Vec<RatPoint3>)
        requires
            self.wf(),
        ensures
            r@ == cands(self.planes@, self.planes@.len() as int),
            forall|t: int| 0 <= t < r@.len() ==> (#[trigger] r@[t]).wf(),
            forall|t: int| 0 <= t < r@.len() ==> rat_bounded(#[trigger] r@[t]),
            forall|t: int| 0 <= t < r@.len() ==> vertex_kept(self.planes@, #[trigger] r@[t]),
    {
        let n = self.planes.len();
        let mut out: Vec<RatPoint3> = Vec::new();
        let mut i: usize = 0;
        while i < n
            invariant
                self.wf(),
                n == self.planes@.len(),
                0 <= i <= n,
                out@ == cands(self.planes@, i as int),
                forall|t: int| 0 <= t < out@.len() ==> (#[trigger] out@[t]).wf(),
                forall|t: int| 0 <= t < out@.len() ==> rat_bounded(#[trigger] out@[t]),
                forall|t: int| 0 <= t < out@.len() ==> vertex_kept(self.planes@, #[trigger] out@[t]),
            decreases n - i,
        {
            let mut j: usize = 0;
            while j < i
                invariant
                    self.wf(),
                    n == self.planes@.len(),
                    0 <= j <= i < n,
                    out@ == cands(self.planes@, i as int) + cands_j(self.planes@, i as int, j as int),
                    forall|t: int| 0 <= t < out@.len() ==> (#[trigger] out@[t]).wf(),
                    forall|t: int| 0 <= t < out@.len() ==> rat_bounded(#[trigger] out@[t]),
                    forall|t: int| 0 <= t < out@.len()
                        ==> vertex_kept(self.planes@, #[trigger] out@[t]),
                decreases i - j,
            {
                let mut k: usize = 0;
                while k < j
                    invariant
                        self.wf(),
                        n == self.planes@.len(),
                        0 <= k <= j < i < n,
                        out@ == cands(self.planes@, i as int)
                            + cands_j(self.planes@, i as int, j as int)
                            + cands_k(self.planes@, i as int, j as int, k as int),
                        forall|t: int| 0 <= t < out@.len() ==> (#[trigger] out@[t]).wf(),
                        forall|t: int| 0 <= t < out@.len() ==> rat_bounded(#[trigger] out@[t]),
                        forall|t: int| 0 <= t < out@.len()
                            ==> vertex_kept(self.planes@, #[trigger] out@[t]),
                    decreases j - k,
                {
                    let ghost pre = out@;
                    match self.try_triple(i, j, k) {
                        Some(v) => {
                            out.push(v);
                            proof {
                                assert(tri_candidate(self.planes@, i as int, j as int, k as int)
                                    =~= seq![v]);
                                assert(out@ =~= pre
                                    + tri_candidate(self.planes@, i as int, j as int, k as int));
                                assert(v.wf() && vertex_kept(self.planes@, v)) by {
                                    assert(tri_candidate(
                                        self.planes@, i as int, j as int, k as int)[0] == v);
                                    lemma_tri_candidate_kept(
                                        self.planes@, i as int, j as int, k as int);
                                }
                            }
                        }
                        None => {
                            proof {
                                assert(out@ =~= pre
                                    + tri_candidate(self.planes@, i as int, j as int, k as int));
                            }
                        }
                    }
                    k = k + 1;
                }
                proof {
                    assert(out@ =~= cands(self.planes@, i as int)
                        + cands_j(self.planes@, i as int, j + 1));
                }
                j = j + 1;
            }
            proof {
                assert(out@ =~= cands(self.planes@, i + 1));
            }
            i = i + 1;
        }
        out
    }

    /// Removes redundant planes: a plane touching fewer than three of the
    /// computed vertices supports no face of the solid. If at most three
    /// planes remain, the solid has no volume and nothing is returned.
    pub fn simplify(self) -> (r: Option<ConvexHull>)
        requires
            self.wf(),
        ensures
            ({
                let vs = cands(self.planes@, self.planes@.len() as int);
                let kept = kept_planes(self.planes@, vs);
                &&& (r is Some <==> kept.len() > 3)
                &&& (r matches Some(h) ==> h.planes@ == kept && h.wf())
            }),
    {
        let vs = self.vertices();
        let n = self.planes.len();
        let mut out: Vec<CuttingPlane> = Vec::new();
        let mut i: usize = 0;
        while i < n
            invariant
                self.wf(),
                n == self.planes@.len(),
                0 <= i <= n,
                vs@ == cands(self.planes@, self.planes@.len() as int),
                forall|t: int| 0 <= t < vs@.len() ==> rat_bounded(#[trigger] vs@[t]),
                out@ == kept_planes(self.planes@.take(i as int), vs@),
                forall|t: int| 0 <= t < out@.len() ==> (#[trigger] out@[t]).wf(),
            decreases n - i,
        {
            let pl = self.planes[i];
            let mut cnt: usize = 0;
            let mut t: usize = 0;
            while t < vs.len()
                invariant
                    self.wf(),
                    pl.wf(),
                    0 <= t <= vs@.len(),
                    forall|u: int| 0 <= u < vs@.len() ==> rat_bounded(#[trigger] vs@[u]),
                    cnt <= t,
                    cnt == touch_count(vs@.take(t as int), pl),
                decreases vs@.len() - t,
            {
                let side = pl.side_of(&vs[t]);
                proof {
                    assert(vs@.take(t + 1).drop_last() =~= vs@.take(t as int));
                    assert(vs@.take(t + 1).last() == vs@[t as int]);
                }
                if side == 0 {
                    cnt = cnt + 1;
                }
                t = t + 1;
            }
            proof {
                assert(vs@.take(vs@.len() as int) =~= vs@);
                assert(self.planes@.take(i + 1).drop_last() =~= self.planes@.take(i as int));
                assert(self.planes@.take(i + 1).last() == self.planes@[i as int]);
            }
            if cnt >= 3 {
                out.push(pl);
            }
            i = i + 1;
        }
        proof {
            assert(self.planes@.take(n as int) =~= self.planes@);
        }
        if out.len() <= 3 {
            return None;
        }
        Some(ConvexHull { planes: out })
    }
}

/// The right-hand side of a well-formed plane's equation is bounded.
proof fn lemma_plane_b_bound(pl: CuttingPlane)
    requires
        pl.wf(),
    ensures
        -0x2_0000_0000 <= plane_b(pl) <= 0x2_0000_0000,
{
    lemma_mul_bound(pl.point.x as int, pl.normal.x as int, 0x400, NORMAL_LIMIT as int);
    lemma_mul_bound(pl.point.y as int, pl.normal.y as int, 0x400, NORMAL_LIMIT as int);
    lemma_mul_bound(pl.point.z as int, pl.normal.z as int, 0x400, NORMAL_LIMIT as int);
}

/// A determinant whose first column is bounded by a plane equation's
/// right-hand side, the other columns by the normal bound, is bounded.
proof fn lemma_det3x3_bound(
    a1: int, a2: int, a3: int,
    b1: int, b2: int, b3: int,
    c1: int, c2: int, c3: int,
)
    requires
        -0x2_0000_0000 <= a1 <= 0x2_0000_0000,
        -0x2_0000_0000 <= b1 <= 0x2_0000_0000,
        -0x2_0000_0000 <= c1 <= 0x2_0000_0000,
        -NORMAL_LIMIT <= a2 <= NORMAL_LIMIT,
        -NORMAL_LIMIT <= a3 <= NORMAL_LIMIT,
        -NORMAL_LIMIT <= b2 <= NORMAL_LIMIT,
        -NORMAL_LIMIT <= b3 <= NORMAL_LIMIT,
        -NORMAL_LIMIT <= c2 <= NORMAL_LIMIT,
        -NORMAL_LIMIT <= c3 <= NORMAL_LIMIT,
    ensures
        -0x40000000000000000000 <= det3x3(a1, a2, a3, b1, b2, b3, c1, c2, c3)
            <= 0x40000000000000000000,
{
    lemma_mul_bound(b2, c3, NORMAL_LIMIT as int, NORMAL_LIMIT as int);
    lemma_mul_bound(b3, c2, NORMAL_LIMIT as int, NORMAL_LIMIT as int);
    lemma_mul_bound(b1, c3, 0x2_0000_0000, NORMAL_LIMIT as int);
    lemma_mul_bound(b3, c1, NORMAL_LIMIT as int, 0x2_0000_0000);
    lemma_mul_bound(b1, c2, 0x2_0000_0000, NORMAL_LIMIT as int);
    lemma_mul_bound(b2, c1, NORMAL_LIMIT as int, 0x2_0000_0000);
    lemma_mul_bound(a1, b2 * c3 - b3 * c2, 0x2_0000_0000, 0x800_0000_0000);
    lemma_mul_bound(a2, b1 * c3 - b3 * c1, NORMAL_LIMIT as int, 0x80_0000_0000_0000);
    lemma_mul_bound(a3, b1 * c2 - b2 * c1, NORMAL_LIMIT as int, 0x80_0000_0000_0000);
}

/// The triple-plane meeting point of well-formed planes is bounded and,
/// when the determinant is nonzero, well formed.
proof fn lemma_cramer_bounds(p1: CuttingPlane, p2: CuttingPlane, p3: CuttingPlane)
    requires
        p1.wf(),
        p2.wf(),
        p3.wf(),
    ensures
        rat_bounded(cramer_point(p1, p2, p3)),
        plane_det(p1, p2, p3) != 0 ==> cramer_point(p1, p2, p3).wf(),
{
    lemma_plane_b_bound(p1);
    lemma_plane_b_bound(p2);
    lemma_plane_b_bound(p3);
    lemma_det3x3_bound(
        p1.normal.x as int, p1.normal.y as int, p1.normal.z as int,
        p2.normal.x as int, p2.normal.y as int, p2.normal.z as int,
        p3.normal.x as int, p3.normal.y as int, p3.normal.z as int,
    );
    lemma_det3x3_bound(
        plane_b(p1), p1.normal.y as int, p1.normal.z as int,
        plane_b(p2), p2.normal.y as int, p2.normal.z as int,
        plane_b(p3), p3.normal.y as int, p3.normal.z as int,
    );
    lemma_det3x3_bound(
        plane_b(p1), p1.normal.x as int, p1.normal.z as int,
        plane_b(p2), p2.normal.x as int, p2.normal.z as int,
        plane_b(p3), p3.normal.x as int, p3.normal.z as int,
    );
    lemma_det3x3_bound(
        plane_b(p1), p1.normal.x as int, p1.normal.y as int,
        plane_b(p2), p2.normal.x as int, p2.normal.y as int,
        plane_b(p3), p3.normal.x as int, p3.normal.y as int,
    );
}

/// Every candidate a triple contributes is a bounded, well-formed, kept
/// hull vertex.
proof fn lemma_tri_candidate_kept(planes: Seq<CuttingPlane>, i: int, j: int, k: int)
    requires
        0 <= i < planes.len(),
        0 <= j < planes.len(),
        0 <= k < planes.len(),
        forall|t: int| 0 <= t < planes.len() ==> (#[trigger] planes[t]).wf(),
    ensures
        forall|t: int| 0 <= t < tri_candidate(planes, i, j, k).len()
            ==> vertex_kept(planes, #[trigger] tri_candidate(planes, i, j, k)[t])
                && tri_candidate(planes, i, j, k)[t].wf()
                && rat_bounded(tri_candidate(planes, i, j, k)[t]),
{
    lemma_cramer_bounds(planes[i], planes[j], planes[k]);
}

/// A 3x3 determinant, exactly; the first column may be as large as a
/// plane equation's right-hand side, the rest are normal components.
fn det3x3e(
    a1: i128, a2: i128, a3: i128,
    b1: i128, b2: i128, b3: i128,
    c1: i128, c2: i128, c3: i128,
) -> (r: i128)
    requires
        -0x2_0000_0000 <= a1 <= 0x2_0000_0000,
        -0x2_0000_0000 <= b1 <= 0x2_0000_0000,
        -0x2_0000_0000 <= c1 <= 0x2_0000_0000,
        -NORMAL_LIMIT <= a2 <= NORMAL_LIMIT,
        -NORMAL_LIMIT <= a3 <= NORMAL_LIMIT,
        -NORMAL_LIMIT <= b2 <= NORMAL_LIMIT,
        -NORMAL_LIMIT <= b3 <= NORMAL_LIMIT,
        -NORMAL_LIMIT <= c2 <= NORMAL_LIMIT,
        -NORMAL_LIMIT <= c3 <= NORMAL_LIMIT,
    ensures
        r == det3x3(a1 as int, a2 as int, a3 as int, b1 as int, b2 as int, b3 as int,
            c1 as int, c2 as int, c3 as int),
        -0x40000000000000000000 <= r <= 0x40000000000000000000,
{
    proof {
        lemma_mul_bound(b2 as int, c3 as int, NORMAL_LIMIT as int, NORMAL_LIMIT as int);
        lemma_mul_bound(b3 as int, c2 as int, NORMAL_LIMIT as int, NORMAL_LIMIT as int);
        lemma_mul_bound(b1 as int, c3 as int, 0x2_0000_0000, NORMAL_LIMIT as int);
        lemma_mul_bound(b3 as int, c1 as int, NORMAL_LIMIT as int, 0x2_0000_0000);
        lemma_mul_bound(b1 as int, c2 as int, 0x2_0000_0000, NORMAL_LIMIT as int);
        lemma_mul_bound(b2 as int, c1 as int, NORMAL_LIMIT as int, 0x2_0000_0000);
    }
    let m1: i128 = mul128(b2, c3) - mul128(b3, c2);
    let m2: i128 = mul128(b1, c3) - mul128(b3, c1);
    let m3: i128 = mul128(b1, c2) - mul128(b2, c1);
    proof {
        lemma_mul_bound(a1 as int, m1 as int, 0x2_0000_0000, 0x800_0000_0000);
        lemma_mul_bound(a2 as int, m2 as int, NORMAL_LIMIT as int, 0x80_0000_0000_0000);
        lemma_mul_bound(a3 as int, m3 as int, NORMAL_LIMIT as int, 0x80_0000_0000_0000);
    }
    let t1: i128 = mul128(a1, m1);
    let t2: i128 = mul128(a2, m2);
    let t3: i128 = mul128(a3, m3);
    t1 - t2 + t3
}


/// The planes one point triple `(a, b, c)` contributes: the plane through
/// the three points, unless they are collinear.
pub open spec fn tri_built(points: Seq<IVec3>, a: int, b: int, c: int) -> Seq<CuttingPlane> {
    let nx = tri_normal_x(points[a], points[b], points[c]);
    let ny = tri_normal_y(points[a], points[b], points[c]);
    let nz = tri_normal_z(points[a], points[b], points[c]);
    if nx == 0 && ny == 0 && nz == 0 {
        Seq::empty()
    } else {
        seq![
            CuttingPlane {
                point: points[a],
                normal: LVec3 { x: nx as i64, y: ny as i64, z: nz as i64 },
            },
        ]
    }
}

/// Candidate planes of the triples `(a, b, c)` for `c < cmax`.
pub open spec fn built_k(points: Seq<IVec3>, a: int, b: int, cmax: int) -> Seq<CuttingPlane>
    decreases cmax,
{
    if cmax <= 0 {
        Seq::empty()
    } else {
        built_k(points, a, b, cmax - 1) + tri_built(points, a, b, cmax - 1)
    }
}

/// Candidate planes of the triples `(a, b, c)` for `c < b < bmax`.
pub open spec fn built_j(points: Seq<IVec3>, a: int, bmax: int) -> Seq<CuttingPlane>
    decreases bmax,
{
    if bmax <= 0 {
        Seq::empty()
    } else {
        built_j(points, a, bmax - 1) + built_k(points, a, bmax - 1, bmax - 1)
    }
}

/// All candidate planes from every point triple, in enumeration order.
pub open spec fn built_planes(points: Seq<IVec3>, amax: int) -> Seq<CuttingPlane>
    decreases amax,
{
    if amax <= 0 {
        Seq::empty()
    } else {
        built_planes(points, amax - 1) + built_j(points, amax - 1, amax - 1)
    }
}

/// Some input point lies strictly inside the half-space.
pub open spec fn any_neg(points: Seq<IVec3>, pl: CuttingPlane) -> bool {
    exists|t: int| 0 <= t < points.len() && plane_sd(pl, #[trigger] points[t]) < 0
}

/// Some input point lies strictly outside the half-space.
pub open spec fn any_pos(points: Seq<IVec3>, pl: CuttingPlane) -> bool {
    exists|t: int| 0 <= t < points.len() && plane_sd(pl, #[trigger] points[t]) > 0
}

/// The plane with its normal reversed.
pub open spec fn flip_spec(pl: CuttingPlane) -> CuttingPlane {
    CuttingPlane {
        point: pl.point,
        normal: LVec3 {
            x: (-(pl.normal.x as int)) as i64,
            y: (-(pl.normal.y as int)) as i64,
            z: (-(pl.normal.z as int)) as i64,
        },
    }
}

/// What becomes of one candidate plane: dropped when all points lie on it
/// (it bounds nothing) or when points lie strictly on both sides (it
/// supports nothing); flipped outward when the points are on its positive
/// side; kept as it is otherwise.
pub open spec fn adjust_plane(points: Seq<IVec3>, pl: CuttingPlane) -> Seq<CuttingPlane> {
    if !any_neg(points, pl) && !any_pos(points, pl) {
        Seq::empty()
    } else if any_neg(points, pl) && any_pos(points, pl) {
        Seq::empty()
    } else if any_pos(points, pl) {
        seq![flip_spec(pl)]
    } else {
        seq![pl]
    }
}

/// The candidate planes after orientation and support filtering.
pub open spec fn adjusted_planes(points: Seq<IVec3>, s: Seq<CuttingPlane>) -> Seq<CuttingPlane>
    decreases s.len(),
{
    if s.len() == 0 {
        Seq::empty()
    } else {
        adjusted_planes(points, s.drop_last()) + adjust_plane(points, s.last())
    }
}

/// Negating one vector of a dot product negates the product.
proof fn lemma_dot_neg(dx: int, dy: int, dz: int, nx: int, ny: int, nz: int)
    by (nonlinear_arith)
    ensures
        dx * (-nx) + dy * (-ny) + dz * (-nz) == -(dx * nx + dy * ny + dz * nz),
{
}

/// Flipping a plane negates every scaled signed distance.
proof fn lemma_flip_sd(pl: CuttingPlane, q: IVec3)
    requires
        pl.wf(),
    ensures
        flip_spec(pl).wf(),
        plane_sd(flip_spec(pl), q) == -plane_sd(pl, q),
{
    lemma_dot_neg(
        q.x - pl.point.x,
        q.y - pl.point.y,
        q.z - pl.point.z,
        pl.normal.x as int,
        pl.normal.y as int,
        pl.normal.z as int,
    );
}

/// Every adjusted plane supports the point set: all input points lie
/// weakly inside its half-space.
proof fn lemma_adjusted_supporting(points: Seq<IVec3>, s: Seq<CuttingPlane>)
    requires
        forall|u: int| 0 <= u < s.len() ==> (#[trigger] s[u]).wf(),
    ensures
        forall|w: int, t: int|
            0 <= w < adjusted_planes(points, s).len() && 0 <= t < points.len()
                ==> plane_sd(#[trigger] adjusted_planes(points, s)[w], #[trigger] points[t]) <= 0,
        forall|w: int| 0 <= w < adjusted_planes(points, s).len()
            ==> (#[trigger] adjusted_planes(points, s)[w]).wf(),
    decreases s.len(),
{
    if s.len() > 0 {
        assert(forall|u: int| 0 <= u < s.drop_last().len()
            ==> (#[trigger] s.drop_last()[u]).wf());
        lemma_adjusted_supporting(points, s.drop_last());
        let pl = s.last();
        let rest = adjusted_planes(points, s.drop_last());
        let whole = adjusted_planes(points, s);
        assert forall|w: int, t: int|
            0 <= w < whole.len() && 0 <= t < points.len()
            implies plane_sd(#[trigger] whole[w], #[trigger] points[t]) <= 0 by {
            if w < rest.len() {
                assert(whole[w] == rest[w]);
                assert(plane_sd(rest[w], points[t]) <= 0);
            } else {
                if any_pos(points, pl) && !any_neg(points, pl) {
                    assert(whole[w] == flip_spec(pl));
                    assert(!(plane_sd(pl, points[t]) < 0));
                    lemma_flip_sd(pl, points[t]);
                } else {
                    assert(whole[w] == pl);
                    assert(!(plane_sd(pl, points[t]) > 0));
                }
            }
        }
        assert forall|w: int| 0 <= w < whole.len()
            implies (#[trigger] whole[w]).wf() by {
            if w < rest.len() {
                assert(whole[w] == rest[w]);
                assert(rest[w].wf());
            } else {
                if any_pos(points, pl) && !any_neg(points, pl) {
                    assert(whole[w] == flip_spec(pl));
                    lemma_flip_sd(pl, points[0]);
                } else {
                    assert(whole[w] == pl);
                }
            }
        }
    }
}

/// Every retained plane was already among the candidates.
proof fn lemma_kept_subset(s: Seq<CuttingPlane>, vs: Seq<RatPoint3>)
    ensures
        forall|w: int| 0 <= w < kept_planes(s, vs).len()
            ==> exists|u: int| 0 <= u < s.len() && #[trigger] kept_planes(s, vs)[w] == s[u],
    decreases s.len(),
{
    if s.len() > 0 {
        lemma_kept_subset(s.drop_last(), vs);
        let rest = kept_planes(s.drop_last(), vs);
        let whole = kept_planes(s, vs);
        assert forall|w: int| 0 <= w < whole.len()
            implies exists|u: int| 0 <= u < s.len() && #[trigger] whole[w] == s[u] by {
            if w < rest.len() {
                assert(whole[w] == rest[w]);
                let u = choose|u: int| 0 <= u < s.drop_last().len() && rest[w] == s.drop_last()[u];
                assert(whole[w] == s[u]);
            } else {
                assert(whole[w] == s.last());
                assert(whole[w] == s[s.len() - 1]);
            }
        }
    }
}

impl ConvexHull {
    /// Builds the convex hull of a point set: every triple of points
    /// proposes a plane, planes that bound nothing are dropped, the rest
    /// are oriented outward, and redundant planes are removed. Nothing is
    /// returned when too few planes remain to bound a volume. Every input
    /// point ends up weakly inside the returned hull.
    pub fn from_points(points: &Vec<IVec3>) -> (r: Option<ConvexHull>)
        requires
            forall|t: int| 0 <= t < points@.len() ==> hull_point_ok(#[trigger] points@[t]),
        ensures
            ({
                let built = built_planes(points@, points@.len() as int);
                let adjusted = adjusted_planes(points@, built);
                let vs = cands(adjusted, adjusted.len() as int);
                let kept = kept_planes(adjusted, vs);
                &&& (r is Some <==> kept.len() > 3)
                &&& (r matches Some(h) ==> h.planes@ == kept && h.wf())
                &&& (r matches Some(h) ==> forall|t: int| 0 <= t < points@.len()
                        ==> hull_sd(h.planes@, #[trigger] points@[t]) <= 0)
            }),
    {
        let n = points.len();
        let mut planes: Vec<CuttingPlane> = Vec::new();
        let mut a: usize = 0;
        while a < n
            invariant
                n == points@.len(),
                0 <= a <= n,
                forall|t: int| 0 <= t < points@.len() ==> hull_point_ok(#[trigger] points@[t]),
                planes@ == built_planes(points@, a as int),
                forall|u: int| 0 <= u < planes@.len() ==> (#[trigger] planes@[u]).wf(),
            decreases n - a,
        {
            let mut b: usize = 0;
            while b < a
                invariant
                    n == points@.len(),
                    0 <= b <= a < n,
                    forall|t: int| 0 <= t < points@.len() ==> hull_point_ok(#[trigger] points@[t]),
                    planes@ == built_planes(points@, a as int)
                        + built_j(points@, a as int, b as int),
                    forall|u: int| 0 <= u < planes@.len() ==> (#[trigger] planes@[u]).wf(),
                decreases a - b,
            {
                let mut c: usize = 0;
                while c < b
                    invariant
                        n == points@.len(),
                        0 <= c <= b < a < n,
                        forall|t: int| 0 <= t < points@.len()
                            ==> hull_point_ok(#[trigger] points@[t]),
                        planes@ == built_planes(points@, a as int)
                            + built_j(points@, a as int, b as int)
                            + built_k(points@, a as int, b as int, c as int),
                        forall|u: int| 0 <= u < planes@.len() ==> (#[trigger] planes@[u]).wf(),
                    decreases b - c,
                {
                    let ghost pre = planes@;
                    match CuttingPlane::from_triangle([points[a], points[b], points[c]]) {
                        Some(plane) => {
                            planes.push(plane);
                            proof {
                                assert(tri_built(points@, a as int, b as int, c as int)
                                    =~= seq![plane]);
                                assert(planes@ =~= pre
                                    + tri_built(points@, a as int, b as int, c as int));
                            }
                        }
                        None => {
                            proof {
                                assert(tri_built(points@, a as int, b as int, c as int)
                                    =~= Seq::<CuttingPlane>::empty());
                                assert(planes@ =~= pre
                                    + tri_built(points@, a as int, b as int, c as int));
                            }
                        }
                    }
                    c = c + 1;
                }
                proof {
                    assert(planes@ =~= built_planes(points@, a as int)
                        + built_j(points@, a as int, b + 1));
                }
                b = b + 1;
            }
            proof {
                assert(planes@ =~= built_planes(points@, a + 1));
            }
            a = a + 1;
        }
        proof {
            assert(planes@ =~= built_planes(points@, points@.len() as int));
        }

        // Keep only supporting planes, oriented outward.
        let m = planes.len();
        let mut adjusted: Vec<CuttingPlane> = Vec::new();
        let mut i: usize = 0;
        while i < m
            invariant
                n == points@.len(),
                m == planes@.len(),
                0 <= i <= m,
                forall|t: int| 0 <= t < points@.len() ==> hull_point_ok(#[trigger] points@[t]),
                forall|u: int| 0 <= u < planes@.len() ==> (#[trigger] planes@[u]).wf(),
                adjusted@ == adjusted_planes(points@, planes@.take(i as int)),
                forall|u: int| 0 <= u < adjusted@.len() ==> (#[trigger] adjusted@[u]).wf(),
            decreases m - i,
        {
            let pl = planes[i];
            let mut has_neg = false;
            let mut has_pos = false;
            let mut t: usize = 0;
            while t < n
                invariant
                    n == points@.len(),
                    0 <= t <= n,
                    pl.wf(),
                    forall|u: int| 0 <= u < points@.len()
                        ==> hull_point_ok(#[trigger] points@[u]),
                    has_neg == (exists|u: int| 0 <= u < t
                        && plane_sd(pl, #[trigger] points@[u]) < 0),
                    has_pos == (exists|u: int| 0 <= u < t
                        && plane_sd(pl, #[trigger] points@[u]) > 0),
                decreases n - t,
            {
                let dist = pl.signed_distance(points[t]);
                if dist < 0 {
                    has_neg = true;
                }
                if dist > 0 {
                    has_pos = true;
                }
                t = t + 1;
            }
            proof {
                assert(planes@.take(i + 1).drop_last() =~= planes@.take(i as int));
                assert(planes@.take(i + 1).last() == planes@[i as int]);
            }
            let ghost pre = adjusted@;
            if !has_neg && !has_pos {
                // All points lie on this plane.
            } else if has_neg && has_pos {
                // Points lie on both sides of this plane.
            } else if has_pos {
                // The plane is backward.
                let fl = pl.flipped();
                proof {
                    assert(fl == flip_spec(pl));
                }
                adjusted.push(fl);
            } else {
                adjusted.push(pl);
            }
            proof {
                assert(adjusted@ =~= pre + adjust_plane(points@, pl));
                assert(adjusted@ =~= adjusted_planes(points@, planes@.take(i + 1)));
            }
            i = i + 1;
        }
        proof {
            assert(planes@.take(m as int) =~= planes@);
        }

        let ghost adjusted_view = adjusted@;
        let hull = ConvexHull { planes: adjusted };
        let result = hull.simplify();
        proof {
            if result is Some {
                let h = result.unwrap();
                let vs = cands(adjusted_view, adjusted_view.len() as int);
                lemma_kept_subset(adjusted_view, vs);
                lemma_adjusted_supporting(
                    points@,
                    built_planes(points@, points@.len() as int),
                );
                assert forall|t: int| 0 <= t < points@.len()
                    implies hull_sd(h.planes@, #[trigger] points@[t]) <= 0 by {
                    assert forall|w: int| 0 <= w < h.planes@.len()
                        implies plane_sd(#[trigger] h.planes@[w], points@[t]) <= 0 by {
                        let u = choose|u: int|
                            0 <= u < adjusted_view.len() && h.planes@[w] == adjusted_view[u];
                        assert(plane_sd(adjusted_view[u], points@[t]) <= 0);
                    }
                    lemma_hull_sd_nonpos(h.planes@, points@[t]);
                }
            }
        }
        result
    }
}

} // verus!