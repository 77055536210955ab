//! Planar geometry primitives: projection of a point onto a segment,
//! segment-segment crossing, and the signed polygon area.
//!
//! All predicates are computed exactly. A projected point has rational
//! coordinates, returned as a numerator pair over a positive denominator.

use vstd::prelude::*;
use crate::math::{IVec2, cross2, dot2, mul64, mul128};
use crate::math::lemma_mul_bound;

verus! {

/// Magnitude bound on grid coordinates accepted by the predicates that
/// multiply two coordinate products together; keeps all arithmetic inside
/// 128 bits.
pub const COORD_LIMIT: i32 = 16_777_216;

/// A coordinate pair small enough for the exact distance computations.
pub open spec fn in_grid(p: IVec2) -> bool {
    -COORD_LIMIT <= p.x <= COORD_LIMIT && -COORD_LIMIT <= p.y <= COORD_LIMIT
}

/// A 2D point with exact rational coordinates `(nx / den, ny / den)`.
#[derive(Copy, Clone, PartialEq, Eq, Structural, Debug)]
pub struct Rat2 {
    pub nx: i128,
    pub ny: i128,
    pub den: i128,
}

impl Rat2 {
    /// A well-formed rational point has a positive denominator.
    pub open spec fn wf(self) -> bool {
        self.den > 0
    }
}

/// Whether the exact ratio `num / den` lies in the closed unit interval.
/// Meaningful only for `den != 0`.
pub open spec fn ratio_in_unit(num: int, den: int) -> bool {
    if den > 0 {
        0 <= num <= den
    } else {
        den <= num <= 0
    }
}

/// Exact crossing test for the segments `(p1, p2)` and `(q1, q2)`: the two
/// interpolation parameters of the 2x2 linear system both lie in the closed
/// unit interval. Parallel or collinear segments (direction cross product
/// exactly zero) never cross, whatever their overlap.
pub open spec fn segments_cross_spec(p1: IVec2, p2: IVec2, q1: IVec2, q2: IVec2) -> bool {
    let rxs = cross2(p2.x - p1.x, p2.y - p1.y, q2.x - q1.x, q2.y - q1.y);
    let tn = cross2(q1.x - p1.x, q1.y - p1.y, q2.x - q1.x, q2.y - q1.y);
    let un = cross2(q1.x - p1.x, q1.y - p1.y, p2.x - p1.x, p2.y - p1.y);
    rxs != 0 && ratio_in_unit(tn, rxs) && ratio_in_unit(un, rxs)
}

/// Whether two segments cross, with endpoints touching counted as crossing.
/// Segments with parallel directions are reported as not crossing, even when
/// they overlap along a shared line.
pub fn segments_cross(a: (IVec2, IVec2), b: (IVec2, IVec2)) -> (r: bool)
    ensures
        r == segments_cross_spec(a.0, a.1, b.0, b.1),
{
    let (p1, p2) = a;
    let (q1, q2) = b;

    let rx: i64 = p2.x as i64 - p1.x as i64;
    let ry: i64 = p2.y as i64 - p1.y as i64;
    let sx: i64 = q2.x as i64 - q1.x as i64;
    let sy: i64 = q2.y as i64 - q1.y as i64;
    let pqx: i64 = q1.x as i64 - p1.x as i64;
    let pqy: i64 = q1.y as i64 - p1.y as i64;

    let m1: i128 = mul64(rx, sy);
    let m2: i128 = mul64(ry, sx);
    proof {
        lemma_mul_bound(rx as int, sy as int, 0x1_0000_0000, 0x1_0000_0000);
        lemma_mul_bound(ry as int, sx as int, 0x1_0000_0000, 0x1_0000_0000);
    }
    let rxs: i128 = m1 - m2;
    if rxs == 0 {
        return false;
    }
    let m3: i128 = mul64(pqx, sy);
    let m4: i128 = mul64(pqy, sx);
    let m5: i128 = mul64(pqx, ry);
    let m6: i128 = mul64(pqy, rx);
    proof {
        lemma_mul_bound(pqx as int, sy as int, 0x1_0000_0000, 0x1_0000_0000);
        lemma_mul_bound(pqy as int, sx as int, 0x1_0000_0000, 0x1_0000_0000);
        lemma_mul_bound(pqx as int, ry as int, 0x1_0000_0000, 0x1_0000_0000);
        lemma_mul_bound(pqy as int, rx as int, 0x1_0000_0000, 0x1_0000_0000);
    }
    let tn: i128 = m3 - m4;
    let un: i128 = m5 - m6;

    if rxs > 0 {
        0 <= tn && tn <= rxs && 0 <= un && un <= rxs
    } else {
        rxs <= tn && tn <= 0 && rxs <= un && un <= 0
    }
}

/// Crossing is symmetric in its two segments: testing `(a, b)` and `(b, a)`
/// gives the same answer, because swapping the segments swaps and negates
/// the two interpolation parameters together with the shared determinant.
pub proof fn lemma_segments_cross_symmetric(p1: IVec2, p2: IVec2, q1: IVec2, q2: IVec2)
    ensures
        segments_cross_spec(p1, p2, q1, q2) == segments_cross_spec(q1, q2, p1, p2),
{
    let rx = p2.x - p1.x;
    let ry = p2.y - p1.y;
    let sx = q2.x - q1.x;
    let sy = q2.y - q1.y;
    let pqx = q1.x - p1.x;
    let pqy = q1.y - p1.y;

    assert(sx * ry - sy * rx == -(rx * sy - ry * sx)) by (nonlinear_arith);
    assert((-pqx) * ry - (-pqy) * rx == -(pqx * ry - pqy * rx)) by (nonlinear_arith);
    assert((-pqx) * sy - (-pqy) * sx == -(pqx * sy - pqy * sx)) by (nonlinear_arith);
}

/// Numerator of the interpolation parameter of the orthogonal projection of
/// `p` onto the line through `a` and `b`, over denominator `|b - a|^2`.
pub open spec fn projection_param_num(p: IVec2, a: IVec2, b: IVec2) -> int {
    dot2(p.x - a.x, p.y - a.y, b.x - a.x, b.y - a.y)
}

/// Squared length of the segment `(a, b)`, the projection denominator.
pub open spec fn segment_len_sq(a: IVec2, b: IVec2) -> int {
    dot2(b.x - a.x, b.y - a.y, b.x - a.x, b.y - a.y)
}

/// The raw (unclamped) orthogonal projection of `a` onto the infinite line
/// through the segment, as an exact rational point.
pub fn project_onto_i2(a: IVec2, seg: (IVec2, IVec2)) -> (r: Rat2)
    requires
        seg.0 != seg.1,
    ensures
        r.wf(),
        r.den == segment_len_sq(seg.0, seg.1),
        r.nx == seg.0.x * r.den + (seg.1.x - seg.0.x) * projection_param_num(a, seg.0, seg.1),
        r.ny == seg.0.y * r.den + (seg.1.y - seg.0.y) * projection_param_num(a, seg.0, seg.1),
{
    let (p, q) = seg;
    let ex: i64 = q.x as i64 - p.x as i64;
    let ey: i64 = q.y as i64 - p.y as i64;
    let wx: i64 = a.x as i64 - p.x as i64;
    let wy: i64 = a.y as i64 - p.y as i64;
    let exx: i128 = mul64(ex, ex);
    let eyy: i128 = mul64(ey, ey);
    let wex: i128 = mul64(wx, ex);
    let wey: i128 = mul64(wy, ey);
    proof {
        lemma_mul_bound(ex as int, ex as int, 0x1_0000_0000, 0x1_0000_0000);
        lemma_mul_bound(ey as int, ey as int, 0x1_0000_0000, 0x1_0000_0000);
        lemma_mul_bound(wx as int, ex as int, 0x1_0000_0000, 0x1_0000_0000);
        lemma_mul_bound(wy as int, ey as int, 0x1_0000_0000, 0x1_0000_0000);
    }
    let den: i128 = exx + eyy;
    let tn: i128 = wex + wey;
    proof {
        assert(den > 0) by (nonlinear_arith)
            requires
                den == ex * ex + ey * ey,
                !(ex == 0 && ey == 0),
        ;
        lemma_mul_bound(p.x as int, den as int, 0x8000_0000, 0x2_0000_0000_0000_0000);
        lemma_mul_bound(p.y as int, den as int, 0x8000_0000, 0x2_0000_0000_0000_0000);
        lemma_mul_bound(ex as int, tn as int, 0x1_0000_0000, 0x2_0000_0000_0000_0000);
        lemma_mul_bound(ey as int, tn as int, 0x1_0000_0000, 0x2_0000_0000_0000_0000);
    }
    let nx: i128 = (p.x as i128) * den + (ex as i128) * tn;
    let ny: i128 = (p.y as i128) * den + (ey as i128) * tn;
    Rat2 { nx, ny, den }
}

/// Clamps the projection parameter numerator to the segment: the closest
/// point on the segment has parameter `clamped / den`.
pub open spec fn clamped_param_num(p: IVec2, a: IVec2, b: IVec2) -> int {
    let tn = projection_param_num(p, a, b);
    let den = segment_len_sq(a, b);
    if tn < 0 {
        0
    } else if tn > den {
        den
    } else {
        tn
    }
}

/// The closest point of the segment `(a, b)` to `p`, as an exact rational
/// point: the projection with its interpolation parameter clamped to the
/// unit interval.
pub fn point_closest_to_segment(p: IVec2, line: (IVec2, IVec2)) -> (r: Rat2)
    requires
        line.0 != line.1,
    ensures
        r.wf(),
        r.den == segment_len_sq(line.0, line.1),
        r.nx == line.0.x * r.den + (line.1.x - line.0.x) * clamped_param_num(p, line.0, line.1),
        r.ny == line.0.y * r.den + (line.1.y - line.0.y) * clamped_param_num(p, line.0, line.1),
{
    let (a, b) = line;
    let ex: i64 = b.x as i64 - a.x as i64;
    let ey: i64 = b.y as i64 - a.y as i64;
    let wx: i64 = p.x as i64 - a.x as i64;
    let wy: i64 = p.y as i64 - a.y as i64;
    let exx: i128 = mul64(ex, ex);
    let eyy: i128 = mul64(ey, ey);
    let wex: i128 = mul64(wx, ex);
    let wey: i128 = mul64(wy, ey);
    proof {
        lemma_mul_bound(ex as int, ex as int, 0x1_0000_0000, 0x1_0000_0000);
        lemma_mul_bound(ey as int, ey as int, 0x1_0000_0000, 0x1_0000_0000);
        lemma_mul_bound(wx as int, ex as int, 0x1_0000_0000, 0x1_0000_0000);
        lemma_mul_bound(wy as int, ey as int, 0x1_0000_0000, 0x1_0000_0000);
    }
    let den: i128 = exx + eyy;
    let tn: i128 = wex + wey;
    proof {
        assert(den > 0) by (nonlinear_arith)
            requires
                den == ex * ex + ey * ey,
                !(ex == 0 && ey == 0),
        ;
    }
    let ct: i128 = if tn < 0 {
        0
    } else if tn > den {
        den
    } else {
        tn
    };
    proof {
        lemma_mul_bound(a.x as int, den as int, 0x8000_0000, 0x2_0000_0000_0000_0000);
        lemma_mul_bound(a.y as int, den as int, 0x8000_0000, 0x2_0000_0000_0000_0000);
        lemma_mul_bound(ex as int, ct as int, 0x1_0000_0000, 0x2_0000_0000_0000_0000);
        lemma_mul_bound(ey as int, ct as int, 0x1_0000_0000, 0x2_0000_0000_0000_0000);
    }
    let nx: i128 = (a.x as i128) * den + (ex as i128) * ct;
    let ny: i128 = (a.y as i128) * den + (ey as i128) * ct;
    Rat2 { nx, ny, den }
}

/// `|p - a|^2`, with both coordinates integral.
pub open spec fn point_dist_sq(p: IVec2, a: IVec2) -> int {
    dot2(p.x - a.x, p.y - a.y, p.x - a.x, p.y - a.y)
}

/// The squared distance from `p` to the segment `(a, b)`, scaled by the
/// positive factor `segment_len_sq(a, b)` so that it stays integral:
/// `dist^2 * |b - a|^2`.
pub open spec fn segment_dist_sq_scaled(p: IVec2, a: IVec2, b: IVec2) -> int {
    let den = segment_len_sq(a, b);
    let tn = projection_param_num(p, a, b);
    let ct = clamped_param_num(p, a, b);
    point_dist_sq(p, a) * den - 2 * (ct * tn) + ct * ct
}

/// Whether `p` lies strictly closer than one half grid unit to the segment
/// `(a, b)`: the minimum interior thickness rule of the outline validator.
/// Exactly `dist(p, seg)^2 < 1/4`, compared without rounding.
pub open spec fn point_too_close_spec(p: IVec2, a: IVec2, b: IVec2) -> bool {
    4 * segment_dist_sq_scaled(p, a, b) < segment_len_sq(a, b)
}

/// Decides `dist(p, segment) < 1/2` exactly.
#[verifier::rlimit(30)]
pub fn point_too_close_to_segment(p: IVec2, a: IVec2, b: IVec2) -> (r: bool)
    requires
        a != b,
        in_grid(p),
        in_grid(a),
        in_grid(b),
    ensures
        r == point_too_close_spec(p, a, b),
{
    let ex: i64 = b.x as i64 - a.x as i64;
    let ey: i64 = b.y as i64 - a.y as i64;
    let wx: i64 = p.x as i64 - a.x as i64;
    let wy: i64 = p.y as i64 - a.y as i64;
    let exx: i128 = mul64(ex, ex);
    let eyy: i128 = mul64(ey, ey);
    let wex: i128 = mul64(wx, ex);
    let wey: i128 = mul64(wy, ey);
    let wxx: i128 = mul64(wx, wx);
    let wyy: i128 = mul64(wy, wy);
    proof {
        lemma_mul_bound(ex as int, ex as int, 0x4000_000, 0x4000_000);
        lemma_mul_bound(ey as int, ey as int, 0x4000_000, 0x4000_000);
        lemma_mul_bound(wx as int, ex as int, 0x4000_000, 0x4000_000);
        lemma_mul_bound(wy as int, ey as int, 0x4000_000, 0x4000_000);
        lemma_mul_bound(wx as int, wx as int, 0x4000_000, 0x4000_000);
        lemma_mul_bound(wy as int, wy as int, 0x4000_000, 0x4000_000);
    }
    let den: i128 = exx + eyy;
    let tn: i128 = wex + wey;
    let wsq: i128 = wxx + wyy;
    proof {
        assert(den > 0) by (nonlinear_arith)
            requires
                den == ex * ex + ey * ey,
                !(ex == 0 && ey == 0),
        ;
    }
    let ct: i128 = if tn < 0 {
        0
    } else if tn > den {
        den
    } else {
        tn
    };
    let wd: i128 = mul128(wsq, den);
    let cttn: i128 = mul128(ct, tn);
    let ctct: i128 = mul128(ct, ct);
    proof {
        lemma_mul_bound(wsq as int, den as int, 0x40_0000_0000_0000, 0x40_0000_0000_0000);
        lemma_mul_bound(ct as int, tn as int, 0x40_0000_0000_0000, 0x40_0000_0000_0000);
        lemma_mul_bound(ct as int, ct as int, 0x40_0000_0000_0000, 0x40_0000_0000_0000);
    }
    let scaled: i128 = wd - 2 * cttn + ctct;
    proof {
        assert(den == segment_len_sq(a, b));
        assert(tn == projection_param_num(p, a, b));
        assert(wsq == point_dist_sq(p, a));
        assert(ct == clamped_param_num(p, a, b));
        assert(scaled == segment_dist_sq_scaled(p, a, b));
    }
    4 * scaled < den
}

/// Twice the signed area of the polygon, by the shoelace formula: the sum of
/// `(y[i] + y[i+1]) * (x[i] - x[i+1])` over the closed loop. Zero for two or
/// fewer points; positive exactly when the loop is counter-clockwise with +y
/// up.
pub open spec fn doubled_area_upto(points: Seq<IVec2>, k: int) -> int
    decreases k,
{
    if k <= 0 {
        0
    } else {
        let i = k - 1;
        let j = if i + 1 == points.len() { 0int } else { i + 1 };
        doubled_area_upto(points, i) + (points[i].y + points[j].y) * (points[i].x - points[j].x)
    }
}

/// Twice the signed area of the whole polygon outline.
pub open spec fn doubled_area(points: Seq<IVec2>) -> int {
    if points.len() <= 2 {
        0
    } else {
        doubled_area_upto(points, points.len() as int)
    }
}

/// Twice the signed polygon area, exactly. Positive iff the outline is
/// counter-clockwise in the convention where +y is up.
pub fn signed_polygon_area_2d(points: &Vec<IVec2>) -> (r: i128)
    requires
        forall|i: int| 0 <= i < points@.len() ==> in_grid(#[trigger] points@[i]),
    ensures
        r == doubled_area(points@),
{
    let len = points.len();
    if len <= 2 {
        return 0;
    }
    let mut sum: i128 = 0;
    let mut i: usize = 0;
    while i < len
        invariant
            2 < len,
            len == points@.len(),
            0 <= i <= len,
            forall|k: int| 0 <= k < points@.len() ==> in_grid(#[trigger] points@[k]),
            sum == doubled_area_upto(points@, i as int),
            -0x10_0000_0000_0000 * (i as int) <= sum <= 0x10_0000_0000_0000 * (i as int),
        decreases len - i,
    {
        let j = if i + 1 == len { 0 } else { i + 1 };
        let ys: i64 = points[i].y as i64 + points[j].y as i64;
        let xd: i64 = points[i].x as i64 - points[j].x as i64;
        let term: i128 = mul64(ys, xd);
        proof {
            lemma_mul_bound(ys as int, xd as int, 0x4_000_000, 0x4_000_000);
            lemma_mul_bound(0x10_0000_0000_0000, i as int, 0x10_0000_0000_0000, 0x1_0000_0000_0000_0000);
            lemma_mul_bound(0x10_0000_0000_0000, i + 1, 0x10_0000_0000_0000, 0x1_0000_0000_0000_0000);
            assert(0x10_0000_0000_0000 * ((i + 1) as int)
                == 0x10_0000_0000_0000 * (i as int) + 0x10_0000_0000_0000) by (nonlinear_arith);
        }
        sum = sum + term;
        i = i + 1;
    }
    sum
}

} // verus!
