//! Integer grid vectors and exact rational points.
//!
//! Grid positions are pairs or triples of `i32` coordinates. Derived values
//! (edge vectors, normals, intersection points) are held in wider integer or
//! rational types so that every geometric quantity in this crate is exact.

use vstd::prelude::*;

verus! {

/// A 2D integer grid point or vector.
#[derive(Copy, Clone, PartialEq, Eq, Structural, Hash, Debug)]
pub struct IVec2 {
    pub x: i32,
    pub y: i32,
}

/// A 3D integer grid point or vector.
#[derive(Copy, Clone, PartialEq, Eq, Structural, Hash, Debug)]
pub struct IVec3 {
    pub x: i32,
    pub y: i32,
    pub z: i32,
}

/// A 3D vector with 64-bit components, used for plane normals and other
/// products of grid coordinates that can exceed the 32-bit range.
#[derive(Copy, Clone, PartialEq, Eq, Structural, Hash, Debug)]
pub struct LVec3 {
    pub x: i64,
    pub y: i64,
    pub z: i64,
}

impl IVec2 {
    pub fn new(x: i32, y: i32) -> (r: IVec2)
        ensures
            r == (IVec2 { x, y }),
    {
        IVec2 { x, y }
    }

    /// The origin of the 2D grid.
    pub fn zero() -> (r: IVec2)
        ensures
            r == (IVec2 { x: 0i32, y: 0i32 }),
    {
        IVec2 { x: 0, y: 0 }
    }
}

impl IVec3 {
    pub fn new(x: i32, y: i32, z: i32) -> (r: IVec3)
        ensures
            r == (IVec3 { x, y, z }),
    {
        IVec3 { x, y, z }
    }

    /// The origin of the 3D grid.
    pub fn zero() -> (r: IVec3)
        ensures
            r == (IVec3 { x: 0i32, y: 0i32, z: 0i32 }),
    {
        IVec3 { x: 0, y: 0, z: 0 }
    }

    /// The horizontal column of this cell: its x and z coordinates.
    pub fn xz(self) -> (r: IVec2)
        ensures
            r == self.spec_xz(),
    {
        IVec2 { x: self.x, y: self.z }
    }

    /// The horizontal column of a cell, as a spec value.
    pub open spec fn spec_xz(self) -> IVec2 {
        IVec2 { x: self.x, y: self.z }
    }
}

/// Widening product of two 64-bit values; the result always fits in 128 bits.
pub fn mul64(a: i64, b: i64) -> (r: i128)
    ensures
        r == a * b,
{
    proof {
        assert((a as int) * (b as int) <= 0x8000_0000_0000_0000 * 0x8000_0000_0000_0000
            && (a as int) * (b as int) >= -(0x8000_0000_0000_0000 * 0x8000_0000_0000_0000))
            by (nonlinear_arith)
            requires
                -0x8000_0000_0000_0000 <= a <= 0x8000_0000_0000_0000,
                -0x8000_0000_0000_0000 <= b <= 0x8000_0000_0000_0000,
        ;
    }
    (a as i128) * (b as i128)
}

/// Bound on each factor of `mul128`, chosen so the product fits in 128 bits.
pub const MUL128_LIMIT: i128 = 0x4000_0000_0000_0000;

/// Product of two 128-bit values that are small enough not to overflow.
pub fn mul128(a: i128, b: i128) -> (r: i128)
    requires
        -MUL128_LIMIT <= a <= MUL128_LIMIT,
        -MUL128_LIMIT <= b <= MUL128_LIMIT,
    ensures
        r == a * b,
{
    proof {
        assert((a as int) * (b as int) <= MUL128_LIMIT * MUL128_LIMIT
            && (a as int) * (b as int) >= -(MUL128_LIMIT * MUL128_LIMIT)) by (nonlinear_arith)
            requires
                -MUL128_LIMIT <= a <= MUL128_LIMIT,
                -MUL128_LIMIT <= b <= MUL128_LIMIT,
        ;
    }
    a * b
}

/// The product of two values, each bounded in magnitude, is bounded by the
/// product of the bounds.
pub proof fn lemma_mul_bound(a: int, b: int, m: int, n: int)
    by (nonlinear_arith)
    requires
        -m <= a <= m,
        -n <= b <= n,
        0 <= m,
        0 <= n,
    ensures
        -(m * n) <= a * b <= m * n,
{
}

/// Dot product of two 2D integer vectors, as unbounded integers.
pub open spec fn dot2(ax: int, ay: int, bx: int, by: int) -> int {
    ax * bx + ay * by
}

/// Perpendicular dot product (2D cross product) of two 2D integer vectors.
pub open spec fn cross2(ax: int, ay: int, bx: int, by: int) -> int {
    ax * by - ay * bx
}

/// Dot product of two 3D integer vectors, as unbounded integers.
pub open spec fn dot3(ax: int, ay: int, az: int, bx: int, by: int, bz: int) -> int {
    ax * bx + ay * by + az * bz
}

/// The x component of the 3D cross product.
pub open spec fn cross3_x(ay: int, az: int, by: int, bz: int) -> int {
    ay * bz - az * by
}

/// The y component of the 3D cross product.
pub open spec fn cross3_y(ax: int, az: int, bx: int, bz: int) -> int {
    az * bx - ax * bz
}

/// The z component of the 3D cross product.
pub open spec fn cross3_z(ax: int, ay: int, bx: int, by: int) -> int {
    ax * by - ay * bx
}

} // verus!
