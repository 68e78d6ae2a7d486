//! The region classifier: labels each triangle of the triangulated
//! arrangement by which input polygons contain its centroid, and filters by
//! the requested Boolean predicate.
//!
//! Centroid containment is decided exactly: the centroid of an integer
//! triangle is a third of the vertex sum, and containment is invariant
//! under scaling, so the test runs the containment primitive on the
//! polygon scaled by three against the plain vertex sum.
use vstd::prelude::*;

use crate::extract::{Polygon, polys_in_range};
use crate::geom::{COORD_LIMIT, Point};

verus! {

/// A triangle of the arrangement's triangulation, tagged implicitly by
/// which input polygons contain its centroid.
#[derive(Clone, Copy, Debug, PartialEq, Eq, Structural)]
pub struct Triangle {
    pub a: Point,
    pub b: Point,
    pub c: Point,
}

impl Triangle {
    pub open spec fn in_range(self) -> bool {
        self.a.in_range() && self.b.in_range() && self.c.in_range()
    }

    pub fn new(a: Point, b: Point, c: Point) -> (t: Triangle)
        ensures
            t == (Triangle { a, b, c }),
    {
        Triangle { a, b, c }
    }
}

/// Every triangle of the set within the coordinate range.
pub open spec fn tris_in_range(ts: Seq<Triangle>) -> bool {
    forall|i: int| 0 <= i < ts.len() ==> (#[trigger] ts[i]).in_range()
}

/// What the point-in-polygon primitive decides for a polygon (given as its
/// rings, exterior first) and a query point: a fixed function of its
/// arguments alone.
pub uninterp spec fn poly_contains_pt(rings: Seq<Seq<Point>>, x: int, y: int) -> bool;

/// A ring with every coordinate tripled.
pub open spec fn scale3_ring(r: Seq<Point>) -> Seq<Point> {
    r.map_values(|p: Point| Point { x: (3 * p.x) as i64, y: (3 * p.y) as i64 })
}

/// A polygon's rings with every coordinate tripled.
pub open spec fn scale3_rings(rings: Seq<Seq<Point>>) -> Seq<Seq<Point>> {
    rings.map_values(|r: Seq<Point>| scale3_ring(r))
}

/// Centroid membership, decided exactly: the triangle's centroid lies in
/// the polygon if and only if three times the centroid — the plain vertex
/// sum — lies in the polygon scaled by three.
pub open spec fn tri_in_rings(t: Triangle, rings: Seq<Seq<Point>>) -> bool {
    poly_contains_pt(
        scale3_rings(rings),
        t.a.x + t.b.x + t.c.x,
        t.a.y + t.b.y + t.c.y,
    )
}

/// Centroid membership of a triangle in a polygon.
pub open spec fn tri_in_poly(t: Triangle, p: Polygon) -> bool {
    tri_in_rings(t, p.rings())
}

/// Relies on geo's `Contains` for `Polygon<i64>` (an exact winding-number
/// point-in-polygon test with hole awareness, `SimpleKernel` orientation
/// arithmetic): whether the point lies strictly inside the polygon's
/// interior. The coordinate bound keeps that arithmetic inside `i64`.
#[verifier::external_body]
fn geo_polygon_contains(p: &Polygon, x: i64, y: i64) -> (r: bool)
    requires
        forall|i: int, j: int|
            0 <= i < p.rings().len() && 0 <= j < p.rings()[i].len() ==> -3 * COORD_LIMIT <= (
            #[trigger] p.rings()[i][j]).x <= 3 * COORD_LIMIT && -3 * COORD_LIMIT
                <= p.rings()[i][j].y <= 3 * COORD_LIMIT,
        -3 * COORD_LIMIT <= x <= 3 * COORD_LIMIT,
        -3 * COORD_LIMIT <= y <= 3 * COORD_LIMIT,
    ensures
        r == poly_contains_pt(p.rings(), x as int, y as int),
{
    let ext: geo::LineString<i64> = p.exterior.iter().map(|q| (q.x, q.y)).collect::<Vec<(i64,
        i64,
    )>>().into();
    let mut holes: Vec<geo::LineString<i64>> = Vec::new();
    for r in p.interiors.iter() {
        holes.push(r.iter().map(|q| (q.x, q.y)).collect::<Vec<(i64, i64)>>().into());
    }
    geo::Contains::contains(&geo::Polygon::new(ext, holes), &geo::Point::new(x, y))
}

/// A ring with every coordinate tripled, built in executable code.
fn scale3_ring_exec(r: &Vec<Point>) -> (out: Vec<Point>)
    requires
        forall|j: int| 0 <= j < r@.len() ==> (#[trigger] r@[j]).in_range(),
    ensures
        out@ == scale3_ring(r@),
{
    let mut out: Vec<Point> = Vec::new();
    let mut j: usize = 0;
    while j < r.len()
        invariant
            0 <= j <= r@.len(),
            forall|k: int| 0 <= k < r@.len() ==> (#[trigger] r@[k]).in_range(),
            out@.len() == j,
            forall|k: int|
                0 <= k < j ==> #[trigger] out@[k] == (Point {
                    x: (3 * r@[k].x) as i64,
                    y: (3 * r@[k].y) as i64,
                }),
        decreases r@.len() - j,
    {
        let p = r[j];
        out.push(Point { x: 3 * p.x, y: 3 * p.y });
        j += 1;
    }
    proof {
        assert(out@ =~= scale3_ring(r@));
    }
    out
}

/// Exact centroid-containment test for a triangle against a polygon.
pub fn triangle_in_polygon(t: &Triangle, p: &Polygon) -> (r: bool)
    requires
        t.in_range(),
        p.in_range(),
    ensures
        r == tri_in_poly(*t, *p),
{
    proof {
        assert forall|j: int| 0 <= j < p.exterior@.len() implies (
        #[trigger] p.exterior@[j]).in_range() by {
            assert(p.rings()[0] == p.exterior@);
            assert(p.rings()[0][j].in_range());
        }
    }
    let ext = scale3_ring_exec(&p.exterior);
    let mut holes: Vec<Vec<Point>> = Vec::new();
    let mut i: usize = 0;
    while i < p.interiors.len()
        invariant
            0 <= i <= p.interiors@.len(),
            p.in_range(),
            holes@.len() == i,
            forall|k: int| 0 <= k < i ==> #[trigger] holes@[k]@ == scale3_ring(p.interiors@[k]@),
        decreases p.interiors@.len() - i,
    {
        proof {
            assert(p.rings()[i + 1] == p.interiors@[i as int]@);
            assert forall|j: int| 0 <= j < p.interiors@[i as int]@.len() implies (
            #[trigger] p.interiors@[i as int]@[j]).in_range() by {
                assert(p.rings()[i + 1][j].in_range());
            }
        }
        let h = scale3_ring_exec(&p.interiors[i]);
        holes.push(h);
        i += 1;
    }
    let scaled = Polygon { exterior: ext, interiors: holes };
    proof {
        assert(scaled.rings() =~~= scale3_rings(p.rings()));
    }
    let cx = t.a.x + t.b.x + t.c.x;
    let cy = t.a.y + t.b.y + t.c.y;
    geo_polygon_contains(&scaled, cx, cy)
}

/// The Boolean predicates the classifier filters by: centroid in both
/// operands, in the first but not the second, in exactly one, or in at
/// least two of many.
#[derive(Clone, Copy, Debug, PartialEq, Eq, Structural)]
pub enum BoolPredicate {
    Intersection,
    Difference,
    SymmetricDifference,
    AtLeastTwo,
}

/// How many of the polygons contain the triangle's centroid.
pub open spec fn count_containing(polys: Seq<Polygon>, t: Triangle) -> int
    decreases polys.len(),
{
    if polys.len() == 0 {
        0
    } else {
        count_containing(polys.drop_last(), t) + if tri_in_poly(t, polys.last()) {
            1int
        } else {
            0int
        }
    }
}

/// Whether a triangle survives classification under the given predicate.
pub open spec fn keep_triangle(pred: BoolPredicate, t: Triangle, polys: Seq<Polygon>) -> bool {
    match pred {
        BoolPredicate::Intersection => polys.len() == 2 && tri_in_poly(t, polys[0]) && tri_in_poly(
            t,
            polys[1],
        ),
        BoolPredicate::Difference => polys.len() == 2 && tri_in_poly(t, polys[0]) && !tri_in_poly(
            t,
            polys[1],
        ),
        BoolPredicate::SymmetricDifference => polys.len() == 2 && tri_in_poly(t, polys[0])
            != tri_in_poly(t, polys[1]),
        BoolPredicate::AtLeastTwo => count_containing(polys, t) >= 2,
    }
}

/// How many of the polygons contain the triangle's centroid, in executable
/// code.
fn count_containing_exec(polys: &Vec<Polygon>, t: &Triangle) -> (n: usize)
    requires
        t.in_range(),
        polys_in_range(polys@),
    ensures
        n == count_containing(polys@, *t),
{
    let mut n: usize = 0;
    let mut i: usize = 0;
    while i < polys.len()
        invariant
            0 <= i <= polys@.len(),
            t.in_range(),
            polys_in_range(polys@),
            n <= i,
            n == count_containing(polys@.take(i as int), *t),
        decreases polys@.len() - i,
    {
        proof {
            assert(polys@.take(i + 1).drop_last() =~= polys@.take(i as int));
            assert(polys@.take(i + 1).last() == polys@[i as int]);
        }
        if triangle_in_polygon(t, &polys[i]) {
            n += 1;
        }
        i += 1;
    }
    proof {
        assert(polys@.take(polys@.len() as int) =~= polys@);
    }
    n
}

/// Classify the triangles of a triangulated arrangement: keep exactly
/// those whose centroid satisfies the predicate against the input
/// polygons.
pub fn classify(tris: &Vec<Triangle>, polys: &Vec<Polygon>, pred: BoolPredicate) -> (out: Vec<
    Triangle,
>)
    requires
        tris_in_range(tris@),
        polys_in_range(polys@),
        !(pred is AtLeastTwo) ==> polys@.len() == 2,
    ensures
        out@ == tris@.filter(|t: Triangle| keep_triangle(pred, t, polys@)),
{
    let ghost f = |t: Triangle| keep_triangle(pred, t, polys@);
    let mut out: Vec<Triangle> = Vec::new();
    let mut i: usize = 0;
    while i < tris.len()
        invariant
            0 <= i <= tris@.len(),
            tris_in_range(tris@),
            polys_in_range(polys@),
            !(pred is AtLeastTwo) ==> polys@.len() == 2,
            f == (|t: Triangle| keep_triangle(pred, t, polys@)),
            out@ == tris@.take(i as int).filter(f),
        decreases tris@.len() - i,
    {
        proof {
            reveal(Seq::filter);
            assert(tris@.take(i + 1).drop_last() =~= tris@.take(i as int));
            assert(tris@.take(i + 1).last() == tris@[i as int]);
        }
        let t = tris[i];
        let keep = match pred {
            BoolPredicate::Intersection => triangle_in_polygon(&t, &polys[0])
                && triangle_in_polygon(&t, &polys[1]),
            BoolPredicate::Difference => triangle_in_polygon(&t, &polys[0])
                && !triangle_in_polygon(&t, &polys[1]),
            BoolPredicate::SymmetricDifference => {
                let in1 = triangle_in_polygon(&t, &polys[0]);
                let in2 = triangle_in_polygon(&t, &polys[1]);
                in1 != in2
            },
            BoolPredicate::AtLeastTwo => count_containing_exec(polys, &t) >= 2,
        };
        if keep {
            out.push(t);
        }
        i += 1;
    }
    proof {
        assert(tris@.take(tris@.len() as int) =~= tris@);
    }
    out
}

/// Filtering with predicates that agree everywhere gives the same result.
pub proof fn lemma_filter_equiv<A>(s: Seq<A>, f: spec_fn(A) -> bool, g: spec_fn(A) -> bool)
    requires
        forall|x: A| #[trigger] f(x) == g(x),
    ensures
        s.filter(f) == s.filter(g),
    decreases s.len(),
{
    reveal(Seq::filter);
    if s.len() > 0 {
        lemma_filter_equiv(s.drop_last(), f, g);
    }
}

} // verus!
