//! Fixed-point planar geometry: points, segments, and the exact predicates
//! that decide when two segments break an arrangement.
use vstd::prelude::*;

verus! {

/// Largest magnitude a fixed-point coordinate may take. Keeping every
/// coordinate inside this range keeps all the cross-product arithmetic
/// (ours and that of the containment primitive, which works on coordinates
/// scaled by three) inside `i64`/`i128` without overflow.
pub const COORD_LIMIT: i64 = 100_000_000;

/// A fixed-point planar coordinate. Callers map world units onto this grid
/// (for example, one grid step per 1e-4 world units).
#[derive(Clone, Copy, Debug, PartialEq, Eq, Structural)]
pub struct Point {
    pub x: i64,
    pub y: i64,
}

impl Point {
    /// A coordinate the library accepts: both components within range.
    pub open spec fn in_range(self) -> bool {
        -COORD_LIMIT <= self.x <= COORD_LIMIT && -COORD_LIMIT <= self.y <= COORD_LIMIT
    }

    pub fn new(x: i64, y: i64) -> (p: Point)
        ensures
            p == (Point { x, y }),
    {
        Point { x, y }
    }
}

/// An undirected straight segment between two snapped points.
#[derive(Clone, Copy, Debug, PartialEq, Eq, Structural)]
pub struct Segment {
    pub a: Point,
    pub b: Point,
}

impl Segment {
    pub open spec fn in_range(self) -> bool {
        self.a.in_range() && self.b.in_range()
    }

    /// A zero-length segment; such segments are discarded everywhere.
    pub open spec fn degenerate(self) -> bool {
        self.a == self.b
    }

    /// The same segment with its endpoints swapped.
    pub open spec fn flip(self) -> Segment {
        Segment { a: self.b, b: self.a }
    }

    pub fn new(a: Point, b: Point) -> (s: Segment)
        ensures
            s == (Segment { a, b }),
    {
        Segment { a, b }
    }
}

/// Twice the signed area of the triangle `p q r`; positive when `r` lies to
/// the left of the directed line from `p` to `q`.
pub open spec fn cross_pt(p: Point, q: Point, r: Point) -> int {
    (q.x - p.x) * (r.y - p.y) - (q.y - p.y) * (r.x - p.x)
}

/// Lexicographic order on coordinates: by `x`, ties broken by `y`.
pub open spec fn lex_le(p: Point, q: Point) -> bool {
    p.x < q.x || (p.x == q.x && p.y <= q.y)
}

pub open spec fn lex_lt(p: Point, q: Point) -> bool {
    lex_le(p, q) && p != q
}

pub open spec fn lex_min(p: Point, q: Point) -> Point {
    if lex_le(p, q) {
        p
    } else {
        q
    }
}

pub open spec fn lex_max(p: Point, q: Point) -> Point {
    if lex_le(p, q) {
        q
    } else {
        p
    }
}

/// The lexicographically smaller endpoint of a segment.
pub open spec fn seg_lo(s: Segment) -> Point {
    lex_min(s.a, s.b)
}

/// The lexicographically larger endpoint of a segment.
pub open spec fn seg_hi(s: Segment) -> Point {
    lex_max(s.a, s.b)
}

/// The endpoints of `s2` lie strictly on opposite sides of the line through
/// `s1`.
pub open spec fn straddles(s1: Segment, s2: Segment) -> bool {
    (cross_pt(s1.a, s1.b, s2.a) > 0 && cross_pt(s1.a, s1.b, s2.b) < 0) || (cross_pt(
        s1.a,
        s1.b,
        s2.a,
    ) < 0 && cross_pt(s1.a, s1.b, s2.b) > 0)
}

/// The segments cross at a single point strictly interior to both: each
/// straddles the other's supporting line.
pub open spec fn proper_cross(s1: Segment, s2: Segment) -> bool {
    straddles(s1, s2) && straddles(s2, s1)
}

/// All four endpoints lie on one common line.
pub open spec fn collinear_segments(s1: Segment, s2: Segment) -> bool {
    cross_pt(s1.a, s1.b, s2.a) == 0 && cross_pt(s1.a, s1.b, s2.b) == 0 && cross_pt(
        s2.a,
        s2.b,
        s1.a,
    ) == 0 && cross_pt(s2.a, s2.b, s1.b) == 0
}

/// Collinear segments sharing a sub-interval of positive length. For
/// collinear points the lexicographic order agrees with the order along the
/// common line, so the shared interval is non-degenerate exactly when the
/// larger of the two low endpoints comes strictly before the smaller of the
/// two high endpoints.
pub open spec fn collinear_overlap(s1: Segment, s2: Segment) -> bool {
    collinear_segments(s1, s2) && lex_lt(
        lex_max(seg_lo(s1), seg_lo(s2)),
        lex_min(seg_hi(s1), seg_hi(s2)),
    )
}

/// The condition the resolver eliminates: a proper single-point crossing or
/// a positive-length collinear overlap. Shared endpoints and mere touches do
/// not count.
pub open spec fn arrangement_breaking(s1: Segment, s2: Segment) -> bool {
    proper_cross(s1, s2) || collinear_overlap(s1, s2)
}

/// A segment set is planar when no two distinct members intersect
/// improperly: the resolver's terminal state.
pub open spec fn planar(ss: Seq<Segment>) -> bool {
    forall|i: int, j: int|
        0 <= i < ss.len() && 0 <= j < ss.len() && i != j ==> !arrangement_breaking(ss[i], ss[j])
}

/// Exact signed-area orientation test, evaluated without overflow thanks to
/// the coordinate range bound.
pub fn orient(p: Point, q: Point, r: Point) -> (d: i128)
    requires
        p.in_range(),
        q.in_range(),
        r.in_range(),
    ensures
        d == cross_pt(p, q, r),
{
    let ux: i128 = (q.x as i128) - (p.x as i128);
    let uy: i128 = (q.y as i128) - (p.y as i128);
    let vx: i128 = (r.x as i128) - (p.x as i128);
    let vy: i128 = (r.y as i128) - (p.y as i128);
    proof {
        lemma_mul_bound(ux as int, vy as int, 2 * COORD_LIMIT as int);
        lemma_mul_bound(uy as int, vx as int, 2 * COORD_LIMIT as int);
    }
    ux * vy - uy * vx
}

/// For values bounded by `m`, their product is bounded by `m * m`.
pub proof fn lemma_mul_bound(a: int, b: int, m: int)
    by (nonlinear_arith)
    requires
        0 <= m,
        -m <= a <= m,
        -m <= b <= m,
    ensures
        -(m * m) <= a * b <= m * m,
{
}

/// Exact lexicographic comparison.
pub fn lex_le_exec(p: Point, q: Point) -> (r: bool)
    ensures
        r == lex_le(p, q),
{
    p.x < q.x || (p.x == q.x && p.y <= q.y)
}

} // verus!
