//! Exact classification of how two segments intersect, and the fixed-point
//! crossing point used to split a properly crossing pair.
use vstd::prelude::*;

use crate::geom::{
    COORD_LIMIT, Point, Segment, arrangement_breaking, collinear_overlap, cross_pt,
    lemma_mul_bound, lex_le_exec, orient, proper_cross,
};
use vstd::arithmetic::div_mod::{lemma_div_is_ordered, lemma_div_multiples_vanish, lemma_div_pos_is_pos};
use vstd::arithmetic::mul::lemma_mul_inequality;

verus! {

/// How a pair of segments breaks an arrangement: a proper single-point
/// crossing (with the fixed-point crossing coordinate) or a positive-length
/// collinear overlap.
#[derive(Clone, Copy, Debug, PartialEq, Eq, Structural)]
pub enum SegIntersection {
    SinglePoint(Point),
    CollinearOverlap,
}

/// Numerator and denominator of the crossing parameter along `s1`,
/// normalised so that `0 < num < den`. The orientations of `s1`'s endpoints
/// against `s2`'s line have strictly opposite signs for a proper crossing,
/// and the crossing divides `s1` in the ratio `num : den - num`.
pub open spec fn crossing_fraction(s1: Segment, s2: Segment) -> (int, int) {
    let c3 = cross_pt(s2.a, s2.b, s1.a);
    let c4 = cross_pt(s2.a, s2.b, s1.b);
    if c3 > 0 {
        (c3, c3 - c4)
    } else {
        (-c3, c4 - c3)
    }
}

/// Offset of the crossing from a segment endpoint along one axis:
/// `num/den` of the way from `from` towards `to`, rounded towards `from`.
pub open spec fn axis_offset(num: int, den: int, delta: int) -> int {
    if delta >= 0 {
        (num * delta) / den
    } else {
        -((num * (-delta)) / den)
    }
}

/// The fixed-point crossing point of a properly crossing pair: the exact
/// rational crossing rounded onto the coordinate grid, component-wise
/// towards `s1.a`. Downstream snapping absorbs the rounding, exactly as it
/// absorbs the rounding of a floating-point intersection primitive.
pub open spec fn crossing_point(s1: Segment, s2: Segment) -> Point {
    let (num, den) = crossing_fraction(s1, s2);
    Point {
        x: (s1.a.x + axis_offset(num, den, s1.b.x - s1.a.x)) as i64,
        y: (s1.a.y + axis_offset(num, den, s1.b.y - s1.a.y)) as i64,
    }
}

/// What the segment-intersection test reports for a pair: `None` exactly
/// when the pair does not break an arrangement.
pub open spec fn seg_intersection_spec(s1: Segment, s2: Segment) -> Option<SegIntersection> {
    if proper_cross(s1, s2) {
        Some(SegIntersection::SinglePoint(crossing_point(s1, s2)))
    } else if collinear_overlap(s1, s2) {
        Some(SegIntersection::CollinearOverlap)
    } else {
        None
    }
}

/// Any orientation of in-range points is bounded by twice the squared
/// coordinate range.
pub proof fn lemma_cross_bound(p: Point, q: Point, r: Point)
    requires
        p.in_range(),
        q.in_range(),
        r.in_range(),
    ensures
        -8 * (COORD_LIMIT as int) * (COORD_LIMIT as int) <= cross_pt(p, q, r) <= 8 * (
        COORD_LIMIT as int) * (COORD_LIMIT as int),
{
    lemma_mul_bound(q.x - p.x, r.y - p.y, 2 * COORD_LIMIT as int);
    lemma_mul_bound(q.y - p.y, r.x - p.x, 2 * COORD_LIMIT as int);
    assert((2 * COORD_LIMIT as int) * (2 * COORD_LIMIT as int) == 4 * (COORD_LIMIT as int) * (
    COORD_LIMIT as int)) by (nonlinear_arith);
}

/// `(num * m) / den` for `0 < num < den`, `0 <= m`: the quotient lies
/// between `0` and `m`.
fn mul_div(num: i128, m: i128, den: i128) -> (q: i128)
    requires
        0 < num < den,
        den <= 200_000_000_000_000_000,
        0 <= m <= 2 * COORD_LIMIT,
    ensures
        q == (num as int * m as int) / (den as int),
        0 <= q <= m,
{
    proof {
        lemma_mul_bound(num as int, m as int, 200_000_000_000_000_000);
        lemma_mul_inequality(num as int, den as int, m as int);
        lemma_div_is_ordered(num as int * m as int, den as int * m as int, den as int);
        lemma_div_pos_is_pos(num as int * m as int, den as int);
        assert(den as int * m as int == m as int * den as int) by (nonlinear_arith);
        lemma_div_multiples_vanish(m as int, den as int);
        assert((den as int * m as int) / den as int == m as int);
    }
    let prod: u128 = (num as u128) * (m as u128);
    let q: u128 = prod / (den as u128);
    q as i128
}

/// The crossing point of a properly crossing pair, computed exactly in
/// integer arithmetic and rounded onto the grid towards `s1.a`. The result
/// stays inside `s1`'s bounding box, hence in range.
pub fn intersection_point(s1: Segment, s2: Segment) -> (p: Point)
    requires
        s1.in_range(),
        s2.in_range(),
        proper_cross(s1, s2),
    ensures
        p == crossing_point(s1, s2),
        p.in_range(),
{
    let c3 = orient(s2.a, s2.b, s1.a);
    let c4 = orient(s2.a, s2.b, s1.b);
    proof {
        lemma_cross_bound(s2.a, s2.b, s1.a);
        lemma_cross_bound(s2.a, s2.b, s1.b);
    }
    let (num, den): (i128, i128) = if c3 > 0 {
        (c3, c3 - c4)
    } else {
        (-c3, c4 - c3)
    };
    let x = offset_from(num, den, s1.a.x, s1.b.x);
    let y = offset_from(num, den, s1.a.y, s1.b.y);
    Point { x, y }
}

/// One coordinate of the crossing point: `from` moved `num/den` of the way
/// towards `to`, rounded towards `from`.
fn offset_from(num: i128, den: i128, from: i64, to: i64) -> (x: i64)
    requires
        0 < num < den,
        den <= 200_000_000_000_000_000,
        -COORD_LIMIT <= from <= COORD_LIMIT,
        -COORD_LIMIT <= to <= COORD_LIMIT,
    ensures
        x == from + axis_offset(num as int, den as int, to - from),
        -COORD_LIMIT <= x <= COORD_LIMIT,
{
    let delta: i128 = (to as i128) - (from as i128);
    if delta >= 0 {
        let q = mul_div(num, delta, den);
        from + (q as i64)
    } else {
        let q = mul_div(num, -delta, den);
        from - (q as i64)
    }
}

/// Exact intersection classification for a pair of in-range segments:
/// reports a proper interior crossing with its grid point, a positive
/// collinear overlap, or nothing. Mere endpoint touches, T-junctions and
/// zero-length collinear contacts report nothing, since they do not break
/// an arrangement.
pub fn segment_intersection(s1: Segment, s2: Segment) -> (r: Option<SegIntersection>)
    requires
        s1.in_range(),
        s2.in_range(),
    ensures
        r == seg_intersection_spec(s1, s2),
        r is None <==> !arrangement_breaking(s1, s2),
        r matches Some(SegIntersection::SinglePoint(p)) ==> p.in_range(),
{
    let d1 = orient(s1.a, s1.b, s2.a);
    let d2 = orient(s1.a, s1.b, s2.b);
    let d3 = orient(s2.a, s2.b, s1.a);
    let d4 = orient(s2.a, s2.b, s1.b);
    if ((d1 > 0 && d2 < 0) || (d1 < 0 && d2 > 0)) && ((d3 > 0 && d4 < 0) || (d3 < 0 && d4 > 0)) {
        Some(SegIntersection::SinglePoint(intersection_point(s1, s2)))
    } else if d1 == 0 && d2 == 0 && d3 == 0 && d4 == 0 {
        let lo1 = if lex_le_exec(s1.a, s1.b) {
            s1.a
        } else {
            s1.b
        };
        let hi1 = if lex_le_exec(s1.a, s1.b) {
            s1.b
        } else {
            s1.a
        };
        let lo2 = if lex_le_exec(s2.a, s2.b) {
            s2.a
        } else {
            s2.b
        };
        let hi2 = if lex_le_exec(s2.a, s2.b) {
            s2.b
        } else {
            s2.a
        };
        let lo = if lex_le_exec(lo1, lo2) {
            lo2
        } else {
            lo1
        };
        let hi = if lex_le_exec(hi1, hi2) {
            hi1
        } else {
            hi2
        };
        if lex_le_exec(lo, hi) && !(lo.x == hi.x && lo.y == hi.y) {
            Some(SegIntersection::CollinearOverlap)
        } else {
            None
        }
    } else {
        None
    }
}

} // verus!
