//! Building footprints: an ordered outline of grid points plus the validity
//! rules that decide whether the outline is a legal footprint.
//!
//! The sharp-corner rule compares
//! `wall_thickness / sin(angle / 2)` against a minimum extension constant,
//! with a wall thickness of 1/8 and a minimum extension of 9/20. Because
//! `sin^2(angle / 2) = (1 - cos(angle)) / 2`, that comparison is equivalent
//! to `cos(angle) >= 137/162`, which is decided here exactly over the
//! integer edge vectors by clearing denominators and squaring.

use vstd::prelude::*;
use crate::math::{IVec2, dot2, mul64, mul128};
use crate::math::lemma_mul_bound;
use crate::geometry::{
    in_grid, point_too_close_spec, point_too_close_to_segment, segments_cross,
    segments_cross_spec, signed_polygon_area_2d, doubled_area,
};

verus! {

/// Numerator of the cosine threshold of the sharp-corner rule.
pub const SHARP_COS_NUM: i128 = 137;

/// Denominator of the cosine threshold of the sharp-corner rule.
pub const SHARP_COS_DEN: i128 = 162;

/// A corner of an outline: a pivot vertex and its two neighbours.
#[derive(Copy, Clone, PartialEq, Eq, Structural, Debug)]
pub struct Corner {
    pub a: IVec2,
    pub pivot: IVec2,
    pub b: IVec2,
}

/// The sharp-corner rule: the interior angle at the pivot is so narrow that
/// a fixed-thickness wall would have to extend past the minimum extension
/// constant. Holds exactly when both edges are non-degenerate and
/// `cos(angle) >= 137/162`, stated here with denominators cleared:
/// `(162 * dot)^2 >= 137^2 * |u|^2 * |v|^2` with a non-negative dot product.
pub open spec fn corner_too_sharp_spec(c: Corner) -> bool {
    let ux = c.a.x - c.pivot.x;
    let uy = c.a.y - c.pivot.y;
    let vx = c.b.x - c.pivot.x;
    let vy = c.b.y - c.pivot.y;
    let d = dot2(ux, uy, vx, vy);
    let uu = dot2(ux, uy, ux, uy);
    let vv = dot2(vx, vy, vx, vy);
    uu != 0 && vv != 0 && d >= 0
        && SHARP_COS_DEN * SHARP_COS_DEN * d * d >= SHARP_COS_NUM * SHARP_COS_NUM * uu * vv
}

/// If a corner is too sharp, it will lead to degenerate wall solids.
/// Decides the sharp-corner rule exactly; a corner with a degenerate
/// (zero-length) edge is never reported as too sharp.
pub fn is_corner_too_sharp(corner: Corner) -> (r: bool)
    requires
        in_grid(corner.a),
        in_grid(corner.pivot),
        in_grid(corner.b),
    ensures
        r == corner_too_sharp_spec(corner),
{
    let ux: i64 = corner.a.x as i64 - corner.pivot.x as i64;
    let uy: i64 = corner.a.y as i64 - corner.pivot.y as i64;
    let vx: i64 = corner.b.x as i64 - corner.pivot.x as i64;
    let vy: i64 = corner.b.y as i64 - corner.pivot.y as i64;

    let dxx: i128 = mul64(ux, vx);
    let dyy: i128 = mul64(uy, vy);
    let uxx: i128 = mul64(ux, ux);
    let uyy: i128 = mul64(uy, uy);
    let vxx: i128 = mul64(vx, vx);
    let vyy: i128 = mul64(vy, vy);
    proof {
        lemma_mul_bound(ux as int, vx as int, 0x4000_000, 0x4000_000);
        lemma_mul_bound(uy as int, vy as int, 0x4000_000, 0x4000_000);
        lemma_mul_bound(ux as int, ux as int, 0x4000_000, 0x4000_000);
        lemma_mul_bound(uy as int, uy as int, 0x4000_000, 0x4000_000);
        lemma_mul_bound(vx as int, vx as int, 0x4000_000, 0x4000_000);
        lemma_mul_bound(vy as int, vy as int, 0x4000_000, 0x4000_000);
    }
    let d: i128 = dxx + dyy;
    let uu: i128 = uxx + uyy;
    let vv: i128 = vxx + vyy;

    if uu == 0 || vv == 0 || d < 0 {
        return false;
    }
    let dd: i128 = mul128(d, d);
    let uuvv: i128 = mul128(uu, vv);
    proof {
        lemma_mul_bound(d as int, d as int, 0x20_0000_0000_0000, 0x20_0000_0000_0000);
        lemma_mul_bound(uu as int, vv as int, 0x20_0000_0000_0000, 0x20_0000_0000_0000);
        lemma_mul_bound(
            (SHARP_COS_DEN * SHARP_COS_DEN) as int,
            dd as int,
            0x8000,
            0x400_0000_0000_0000_0000_0000_0000,
        );
        lemma_mul_bound(
            (SHARP_COS_NUM * SHARP_COS_NUM) as int,
            uuvv as int,
            0x8000,
            0x400_0000_0000_0000_0000_0000_0000,
        );
    }
    let lhs: i128 = (SHARP_COS_DEN * SHARP_COS_DEN) * dd;
    let rhs: i128 = (SHARP_COS_NUM * SHARP_COS_NUM) * uuvv;
    proof {
        assert(lhs == SHARP_COS_DEN * SHARP_COS_DEN * (d as int) * (d as int))
            by (nonlinear_arith)
            requires
                lhs == (SHARP_COS_DEN * SHARP_COS_DEN) * (dd as int),
                dd == d * d,
        ;
        assert(rhs == SHARP_COS_NUM * SHARP_COS_NUM * (uu as int) * (vv as int))
            by (nonlinear_arith)
            requires
                rhs == (SHARP_COS_NUM * SHARP_COS_NUM) * (uuvv as int),
                uuvv == uu * vv,
        ;
    }
    lhs >= rhs
}

/// Which intermediate drag states are acceptable to the validator.
#[derive(Copy, Clone, PartialEq, Eq, Structural, Debug)]
pub struct BuildingValidity {
    /// Allow a building with only 1 point.
    pub allow_one_point: bool,
    /// Allow a building with only 2 points.
    pub allow_two_points: bool,
}

impl Default for BuildingValidity {
    /// The strict validity options: intermediate drag states are rejected.
    fn default() -> (r: BuildingValidity)
        ensures
            !r.allow_one_point,
            !r.allow_two_points,
    {
        BuildingValidity { allow_one_point: false, allow_two_points: false }
    }
}

/// The index after `i` on the closed outline of length `n`.
pub open spec fn next_idx(n: int, i: int) -> int {
    if i + 1 == n {
        0
    } else {
        i + 1
    }
}

/// The index before `i` on the closed outline of length `n`.
pub open spec fn prev_idx(n: int, i: int) -> int {
    if i == 0 {
        n - 1
    } else {
        i - 1
    }
}

/// The corner of the outline pivoting at index `i`.
pub open spec fn outline_corner(s: Seq<IVec2>, i: int) -> Corner {
    Corner {
        a: s[prev_idx(s.len() as int, i)],
        pivot: s[i],
        b: s[next_idx(s.len() as int, i)],
    }
}

/// Corner rule at every vertex of the outline.
pub open spec fn all_corners_ok(s: Seq<IVec2>) -> bool {
    forall|i: int| 0 <= i < s.len() ==> !corner_too_sharp_spec(#[trigger] outline_corner(s, i))
}

/// No two outline points coincide.
pub open spec fn no_duplicate_points(s: Seq<IVec2>) -> bool {
    forall|i: int, j: int| #![trigger s[i], s[j]] 0 <= j < i < s.len() ==> s[i] != s[j]
}

/// Whether the point at `p` keeps the minimum interior thickness from the
/// edge starting at `i`, unless the point is an endpoint of that edge.
pub open spec fn point_clear_of_edge(s: Seq<IVec2>, p: int, i: int) -> bool {
    let a = s[i];
    let b = s[next_idx(s.len() as int, i)];
    a == s[p] || b == s[p] || !point_too_close_spec(s[p], a, b)
}

/// Every point keeps the minimum interior thickness from every edge it is
/// not incident to.
pub open spec fn no_point_near_edge(s: Seq<IVec2>) -> bool {
    forall|p: int, i: int|
        0 <= p < s.len() && 0 <= i < s.len() ==> #[trigger] point_clear_of_edge(s, p, i)
}

/// Whether the edges starting at `i` and `j` either share an endpoint or do
/// not cross.
pub open spec fn edges_clear(s: Seq<IVec2>, i: int, j: int) -> bool {
    let n = s.len() as int;
    let a1 = s[i];
    let b1 = s[next_idx(n, i)];
    let a2 = s[j];
    let b2 = s[next_idx(n, j)];
    a1 == a2 || a1 == b2 || b1 == a2 || b1 == b2 || !segments_cross_spec(a1, b1, a2, b2)
}

/// No two edges of the outline cross, except at shared endpoints.
pub open spec fn no_crossing_edges(s: Seq<IVec2>) -> bool {
    forall|i: int, j: int|
        0 <= i < s.len() && 0 <= j < s.len() ==> #[trigger] edges_clear(s, i, j)
}

/// The outline validity rule. One or two points are acceptable only in the
/// drag states the options allow; with three or more points the outline
/// must have no sharp corner, no duplicate point, no point within the
/// minimum interior thickness of a non-incident edge, no crossing edges,
/// and a strictly positive (counter-clockwise) signed area.
pub open spec fn outline_valid(s: Seq<IVec2>, options: BuildingValidity) -> bool {
    if s.len() == 0 {
        false
    } else if s.len() == 1 {
        options.allow_one_point
    } else if s.len() == 2 {
        options.allow_two_points
    } else {
        all_corners_ok(s) && no_duplicate_points(s) && no_point_near_edge(s)
            && no_crossing_edges(s) && doubled_area(s) > 0
    }
}

/// A building: a floor height and an outline of at least three distinct
/// grid points.
#[derive(Clone, PartialEq, Debug)]
pub struct Building {
    /// The y position of the base of the building.
    pub floor_y: i32,

    /// The points making up the building.
    pub outline: Vec<IVec2>,
}

impl Building {
    /// Creates a building. The outline must already have at least three
    /// points with no duplicates; callers validate before constructing.
    pub fn new(floor_y: i32, outline: Vec<IVec2>) -> (r: Building)
        requires
            outline@.len() >= 3,
            no_duplicate_points(outline@),
        ensures
            r.floor_y == floor_y,
            r.outline@ == outline@,
    {
        Building { floor_y, outline }
    }

    /// The y position of the base of the building.
    pub fn floor_y(&self) -> (r: i32)
        ensures
            r == self.floor_y,
    {
        self.floor_y
    }

    /// Returns the points making up the building.
    pub fn points(&self) -> (r: &Vec<IVec2>)
        ensures
            r@ == self.outline@,
    {
        &self.outline
    }

    /// Returns whether the arrangement of points in this building is valid.
    pub fn is_valid(&self, options: BuildingValidity) -> (r: bool)
        requires
            forall|i: int| 0 <= i < self.outline@.len() ==> in_grid(#[trigger] self.outline@[i]),
        ensures
            r == outline_valid(self.outline@, options),
    {
        let ghost s = self.outline@;
        let len = self.outline.len();
        if len == 0 {
            return false;
        }
        if len == 1 {
            return options.allow_one_point;
        }
        if len == 2 {
            return options.allow_two_points;
        }

        // Corner sharpness at every pivot.
        let mut pivot_index: usize = 0;
        while pivot_index < len
            invariant
                3 <= len == s.len(),
                s == self.outline@,
                0 <= pivot_index <= len,
                forall|i: int| 0 <= i < s.len() ==> in_grid(#[trigger] s[i]),
                forall|i: int|
                    0 <= i < pivot_index ==> !corner_too_sharp_spec(#[trigger] outline_corner(s, i)),
            decreases len - pivot_index,
        {
            let prev = if pivot_index == 0 { len - 1 } else { pivot_index - 1 };
            let next = if pivot_index + 1 == len { 0 } else { pivot_index + 1 };
            let corner = Corner {
                a: self.outline[prev],
                pivot: self.outline[pivot_index],
                b: self.outline[next],
            };
            if is_corner_too_sharp(corner) {
                proof {
                    assert(corner == outline_corner(s, pivot_index as int));
                }
                return false;
            }
            proof {
                assert(corner == outline_corner(s, pivot_index as int));
            }
            pivot_index = pivot_index + 1;
        }

        // Duplicate points.
        let mut i: usize = 0;
        while i < len
            invariant
                3 <= len == s.len(),
                s == self.outline@,
                0 <= i <= len,
                forall|i2: int, j2: int| #![trigger s[i2], s[j2]] 0 <= j2 < i2 < i ==> s[i2] != s[j2],
            decreases len - i,
        {
            let mut j: usize = 0;
            while j < i
                invariant
                    3 <= len == s.len(),
                    s == self.outline@,
                    0 <= j <= i < len,
                    forall|i2: int, j2: int| #![trigger s[i2], s[j2]] 0 <= j2 < i2 < i ==> s[i2] != s[j2],
                    forall|j2: int| 0 <= j2 < j ==> s[i as int] != #[trigger] s[j2],
                decreases i - j,
            {
                if self.outline[i] == self.outline[j] {
                    return false;
                }
                j = j + 1;
            }
            i = i + 1;
        }
        assert(no_duplicate_points(s));

        // Points too close to a non-incident edge.
        let mut p: usize = 0;
        while p < len
            invariant
                3 <= len == s.len(),
                s == self.outline@,
                no_duplicate_points(s),
                0 <= p <= len,
                forall|i2: int| 0 <= i2 < s.len() ==> in_grid(#[trigger] s[i2]),
                forall|p2: int, i2: int|
                    0 <= p2 < p && 0 <= i2 < s.len() ==> #[trigger] point_clear_of_edge(s, p2, i2),
            decreases len - p,
        {
            let mut e: usize = 0;
            while e < len
                invariant
                    3 <= len == s.len(),
                    s == self.outline@,
                    no_duplicate_points(s),
                    0 <= e <= len,
                    0 <= p < len,
                    forall|i2: int| 0 <= i2 < s.len() ==> in_grid(#[trigger] s[i2]),
                    forall|p2: int, i2: int|
                        0 <= p2 < p && 0 <= i2 < s.len() ==> #[trigger] point_clear_of_edge(s, p2, i2),
                    forall|i2: int| 0 <= i2 < e ==> #[trigger] point_clear_of_edge(s, p as int, i2),
                decreases len - e,
            {
                let next = if e + 1 == len { 0 } else { e + 1 };
                let a = self.outline[e];
                let b = self.outline[next];
                let pt = self.outline[p];
                if !(a == pt || b == pt) {
                    proof {
                        if e as int != next as int {
                            if (e as int) < next as int {
                                assert(s[next as int] != s[e as int] || !(s[next as int] == s[next as int]));
                            } else {
                                assert(s[e as int] != s[next as int] || !(s[e as int] == s[e as int]));
                            }
                        }
                    }
                    if point_too_close_to_segment(pt, a, b) {
                        proof {
                            assert(!point_clear_of_edge(s, p as int, e as int));
                        }
                        return false;
                    }
                }
                proof {
                    assert(point_clear_of_edge(s, p as int, e as int));
                }
                e = e + 1;
            }
            p = p + 1;
        }

        // Crossing edges.
        let mut ei: usize = 0;
        while ei < len
            invariant
                3 <= len == s.len(),
                s == self.outline@,
                0 <= ei <= len,
                forall|i2: int, j2: int|
                    0 <= i2 < ei && 0 <= j2 < s.len() ==> #[trigger] edges_clear(s, i2, j2),
            decreases len - ei,
        {
            let mut ej: usize = 0;
            while ej < len
                invariant
                    3 <= len == s.len(),
                    s == self.outline@,
                    0 <= ej <= len,
                    0 <= ei < len,
                    forall|i2: int, j2: int|
                        0 <= i2 < ei && 0 <= j2 < s.len() ==> #[trigger] edges_clear(s, i2, j2),
                    forall|j2: int| 0 <= j2 < ej ==> #[trigger] edges_clear(s, ei as int, j2),
                decreases len - ej,
            {
                let ni = if ei + 1 == len { 0 } else { ei + 1 };
                let nj = if ej + 1 == len { 0 } else { ej + 1 };
                let a1 = self.outline[ei];
                let b1 = self.outline[ni];
                let a2 = self.outline[ej];
                let b2 = self.outline[nj];
                if !(a1 == a2 || a1 == b2 || b1 == a2 || b1 == b2) {
                    if segments_cross((a1, b1), (a2, b2)) {
                        proof {
                            assert(!edges_clear(s, ei as int, ej as int));
                        }
                        return false;
                    }
                }
                proof {
                    assert(edges_clear(s, ei as int, ej as int));
                }
                ej = ej + 1;
            }
            ei = ei + 1;
        }

        // Orientation: the signed area must be strictly positive.
        if signed_polygon_area_2d(&self.outline) <= 0 {
            return false;
        }

        true
    }
}

/// Whether the outline point at `t` keeps clear of the speculative new
/// segment from the outline's last point to the candidate. Points that are
/// endpoints of that segment are exempt, and a degenerate segment
/// constrains nothing.
pub open spec fn new_segment_clear(s: Seq<IVec2>, candidate: IVec2, t: int) -> bool {
    let a = s[s.len() - 1];
    s[t] == a || s[t] == candidate || a == candidate
        || !point_too_close_spec(s[t], a, candidate)
}

/// Whether the existing edge starting at `i` tolerates the candidate: the
/// candidate keeps the minimum interior thickness from the edge, and the
/// speculative new segment does not cross it, except for the edge ending
/// at the point the new segment starts from.
pub open spec fn existing_segment_clear(s: Seq<IVec2>, candidate: IVec2, i: int) -> bool {
    let a = s[i];
    let b = s[i + 1];
    a == candidate || b == candidate
        || ((a == b || !point_too_close_spec(candidate, a, b))
            && (i + 2 >= s.len() || !segments_cross_spec(a, b, s[s.len() - 1], candidate)))
}

/// Whether appending the candidate point to the in-progress outline is
/// acceptable: closing onto the first point is allowed from three points
/// on when the closing corner is not too sharp, revisiting any other point
/// is not, the new segment must keep the minimum interior thickness from
/// all other points and must not cross the existing edges, and the corner
/// it forms at the previous point must not be too sharp.
pub open spec fn next_point_ok(s: Seq<IVec2>, candidate: IVec2) -> bool {
    if s.len() <= 1 {
        true
    } else if s.len() == 2 && candidate == s[0] {
        false
    } else if s.len() >= 3 && candidate == s[0]
        && corner_too_sharp_spec(Corner { a: s[1], pivot: s[0], b: s[s.len() - 1] }) {
        false
    } else if candidate != s[0] && s.contains(candidate) {
        false
    } else if exists|t: int| 0 <= t < s.len() && !#[trigger] new_segment_clear(s, candidate, t) {
        false
    } else if exists|i: int|
        0 <= i < s.len() - 1 && !#[trigger] existing_segment_clear(s, candidate, i) {
        false
    } else if corner_too_sharp_spec(
        Corner { a: s[s.len() - 2], pivot: s[s.len() - 1], b: candidate },
    ) {
        false
    } else {
        true
    }
}

/// Decides whether the candidate point may be appended to the in-progress
/// outline, exactly as [`next_point_ok`] states.
pub fn next_point_is_valid(points: &Vec<IVec2>, candidate: IVec2) -> (r: bool)
    requires
        in_grid(candidate),
        forall|i: int| 0 <= i < points@.len() ==> in_grid(#[trigger] points@[i]),
    ensures
        r == next_point_ok(points@, candidate),
{
    let ghost s = points@;
    let len = points.len();
    if len <= 1 {
        // No possible invalid states.
        return true;
    }
    let first = points[0];
    if len == 2 && candidate == first {
        return false;
    }
    if len >= 3 && candidate == first {
        // If the closing corner is too sharp, then we have a problem.
        if is_corner_too_sharp(Corner { a: points[1], pivot: first, b: points[len - 1] }) {
            return false;
        }
    }
    if !(candidate == first) {
        let mut t: usize = 0;
        while t < len
            invariant
                len == s.len(),
                s == points@,
                0 <= t <= len,
                first == s[0],
                !(candidate == first),
                forall|u: int| 0 <= u < t ==> s[u] != candidate,
            decreases len - t,
        {
            if points[t] == candidate {
                proof {
                    assert(s.contains(candidate));
                }
                return false;
            }
            t = t + 1;
        }
        proof {
            if s.contains(candidate) {
                let u = choose|u: int| 0 <= u < s.len() && s[u] == candidate;
                assert(false);
            }
        }
    }

    // The segment from the last placed point to the candidate must keep
    // the minimum interior thickness from every other point.
    let last = points[len - 1];
    let mut t: usize = 0;
    while t < len
        invariant
            2 <= len == s.len(),
            s == points@,
            in_grid(candidate),
            forall|u: int| 0 <= u < s.len() ==> in_grid(#[trigger] s[u]),
            0 <= t <= len,
            last == s[s.len() - 1],
            forall|u: int| 0 <= u < t ==> #[trigger] new_segment_clear(s, candidate, u),
        decreases len - t,
    {
        let p = points[t];
        if !(p == last || p == candidate || last == candidate) {
            if point_too_close_to_segment(p, last, candidate) {
                proof {
                    assert(!new_segment_clear(s, candidate, t as int));
                }
                return false;
            }
        }
        proof {
            assert(new_segment_clear(s, candidate, t as int));
        }
        t = t + 1;
    }

    // The candidate must keep the thickness from every existing edge, and
    // the new segment must not cross any existing edge.
    let mut i: usize = 0;
    while i + 1 < len
        invariant
            2 <= len == s.len(),
            s == points@,
            in_grid(candidate),
            forall|u: int| 0 <= u < s.len() ==> in_grid(#[trigger] s[u]),
            0 <= i <= len - 1,
            last == s[s.len() - 1],
            forall|u: int| 0 <= u < i ==> #[trigger] existing_segment_clear(s, candidate, u),
        decreases len - i,
    {
        let a = points[i];
        let b = points[i + 1];
        if !(a == candidate || b == candidate) {
            if !(a == b) {
                if point_too_close_to_segment(candidate, a, b) {
                    proof {
                        assert(!existing_segment_clear(s, candidate, i as int));
                    }
                    return false;
                }
            }
            if i + 2 < len {
                if segments_cross((a, b), (last, candidate)) {
                    proof {
                        assert(!existing_segment_clear(s, candidate, i as int));
                    }
                    return false;
                }
            }
        }
        proof {
            assert(existing_segment_clear(s, candidate, i as int));
        }
        i = i + 1;
    }

    // If the corner at the previous point is too sharp, then we have a
    // problem.
    let corner = Corner { a: points[len - 2], pivot: points[len - 1], b: candidate };
    if is_corner_too_sharp(corner) {
        return false;
    }
    true
}

/// Closes a drawn outline into a building: reverses the loop first when it
/// was drawn clockwise, so every stored building is counter-clockwise.
pub fn close_outline(floor_y: i32, points: Vec<IVec2>) -> (r: Building)
    requires
        points@.len() >= 3,
        no_duplicate_points(points@),
        forall|i: int| 0 <= i < points@.len() ==> in_grid(#[trigger] points@[i]),
    ensures
        r.floor_y == floor_y,
        r.outline@.len() == points@.len(),
        doubled_area(points@) >= 0 ==> r.outline@ == points@,
        doubled_area(points@) < 0 ==> forall|i: int|
            0 <= i < points@.len() ==> r.outline@[i] == points@[points@.len() - 1 - i],
{
    let area = signed_polygon_area_2d(&points);
    if area < 0 {
        let n = points.len();
        let mut reversed: Vec<IVec2> = Vec::new();
        let mut i: usize = 0;
        while i < n
            invariant
                n == points@.len(),
                0 <= i <= n,
                reversed@.len() == i,
                forall|k: int| 0 <= k < i ==> reversed@[k] == points@[points@.len() - 1 - k],
            decreases n - i,
        {
            reversed.push(points[n - 1 - i]);
            i = i + 1;
        }
        proof {
            assert forall|a: int, b: int| #![trigger reversed@[a], reversed@[b]]
                0 <= b < a < reversed@.len() implies reversed@[a] != reversed@[b] by {
                assert(reversed@[a] == points@[points@.len() - 1 - a]);
                assert(reversed@[b] == points@[points@.len() - 1 - b]);
            }
        }
        Building::new(floor_y, reversed)
    } else {
        Building::new(floor_y, points)
    }
}

/// Validity is a pure function of the outline and the options: two
/// buildings with equal outlines are valid under the same options exactly
/// together, so asking twice always answers the same.
pub proof fn lemma_is_valid_deterministic(
    a: &Building,
    b: &Building,
    options: BuildingValidity,
)
    requires
        a.outline@ == b.outline@,
    ensures
        outline_valid(a.outline@, options) == outline_valid(b.outline@, options),
{
}

} // verus!
