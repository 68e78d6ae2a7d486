//! The Boolean-operation surface: turn input polygons into a resolved
//! planar arrangement ready for a constrained triangulation, and classify
//! the triangles that come back. The triangulation primitive itself and the
//! final stitching of triangles into polygons are external collaborators;
//! callers run them between and after these functions.
use vstd::prelude::*;

use crate::classify::{
    BoolPredicate, Triangle, classify, keep_triangle, lemma_filter_equiv, tri_in_poly,
    tris_in_range,
};
use crate::extract::{Polygon, extract_fold, polys_edges, polys_in_range, polys_to_lines,
    segs_in_range};
use crate::geom::{COORD_LIMIT, Segment, planar};
use crate::resolve::{SpadeBoolopsError, resolve_lines, resolve_spec};

verus! {

/// Extract the snapped, deduplicated segment set of the polygons and
/// resolve it into a planar arrangement, spending at most `cap` splitting
/// rounds. On success the arrangement is planar and is exactly what the
/// resolution recurrence yields from the extracted set; when the cap is
/// exhausted, the error carries the extracted (pre-resolution) segment set.
pub fn resolve_polygons(polys: &Vec<Polygon>, eps: i64, cap: u64) -> (res: Result<
    Vec<Segment>,
    SpadeBoolopsError,
>)
    requires
        0 <= eps <= COORD_LIMIT,
        polys_in_range(polys@),
    ensures
        ({
            let (reg0, lines0) = extract_fold(polys_edges(polys@), eps);
            match res {
                Ok(out) => {
                    &&& resolve_spec(lines0, reg0, eps, cap as nat) == Ok::<Seq<Segment>, ()>(
                        out@,
                    )
                    &&& planar(out@)
                    &&& segs_in_range(out@)
                },
                Err(e) => {
                    &&& e matches SpadeBoolopsError::LoopTrap(orig) && orig@ == lines0
                    &&& resolve_spec(lines0, reg0, eps, cap as nat) is Err
                },
            }
        }),
{
    let (mut reg, lines) = polys_to_lines(polys, eps);
    resolve_lines(&lines, &mut reg, cap)
}

/// Triangles of an intersection: keep exactly those whose centroid lies in
/// both operands.
pub fn intersection_triangulation(tris: &Vec<Triangle>, p1: &Polygon, p2: &Polygon) -> (out: Vec<
    Triangle,
>)
    requires
        tris_in_range(tris@),
        p1.in_range(),
        p2.in_range(),
    ensures
        out@ == tris@.filter(|t: Triangle| tri_in_poly(t, *p1) && tri_in_poly(t, *p2)),
{
    let ps = pair(p1, p2);
    let out = classify(tris, &ps, BoolPredicate::Intersection);
    proof {
        let f = |t: Triangle| keep_triangle(BoolPredicate::Intersection, t, ps@);
        let g = |t: Triangle| tri_in_poly(t, *p1) && tri_in_poly(t, *p2);
        assert forall|t: Triangle| #[trigger] f(t) == g(t) by {
            assert(ps@[0].rings() == p1.rings());
            assert(ps@[1].rings() == p2.rings());
        }
        lemma_filter_equiv(tris@, f, g);
    }
    out
}

/// Triangles of the one-sided difference: keep exactly those whose
/// centroid lies in the first operand and not in the second.
pub fn difference_triangulation(tris: &Vec<Triangle>, p1: &Polygon, p2: &Polygon) -> (out: Vec<
    Triangle,
>)
    requires
        tris_in_range(tris@),
        p1.in_range(),
        p2.in_range(),
    ensures
        out@ == tris@.filter(|t: Triangle| tri_in_poly(t, *p1) && !tri_in_poly(t, *p2)),
{
    let ps = pair(p1, p2);
    let out = classify(tris, &ps, BoolPredicate::Difference);
    proof {
        let f = |t: Triangle| keep_triangle(BoolPredicate::Difference, t, ps@);
        let g = |t: Triangle| tri_in_poly(t, *p1) && !tri_in_poly(t, *p2);
        assert forall|t: Triangle| #[trigger] f(t) == g(t) by {
            assert(ps@[0].rings() == p1.rings());
            assert(ps@[1].rings() == p2.rings());
        }
        lemma_filter_equiv(tris@, f, g);
    }
    out
}

/// Triangles of the symmetric difference: keep exactly those whose
/// centroid lies in exactly one of the two operands.
pub fn symmetric_difference_triangulation(
    tris: &Vec<Triangle>,
    p1: &Polygon,
    p2: &Polygon,
) -> (out: Vec<Triangle>)
    requires
        tris_in_range(tris@),
        p1.in_range(),
        p2.in_range(),
    ensures
        out@ == tris@.filter(|t: Triangle| tri_in_poly(t, *p1) != tri_in_poly(t, *p2)),
{
    let ps = pair(p1, p2);
    let out = classify(tris, &ps, BoolPredicate::SymmetricDifference);
    proof {
        let f = |t: Triangle| keep_triangle(BoolPredicate::SymmetricDifference, t, ps@);
        let g = |t: Triangle| tri_in_poly(t, *p1) != tri_in_poly(t, *p2);
        assert forall|t: Triangle| #[trigger] f(t) == g(t) by {
            assert(ps@[0].rings() == p1.rings());
            assert(ps@[1].rings() == p2.rings());
        }
        lemma_filter_equiv(tris@, f, g);
    }
    out
}

/// Triangles of the general multi-polygon overlap: keep exactly those
/// whose centroid lies in at least two of the input polygons.
pub fn general_intersection_triangulation(tris: &Vec<Triangle>, polys: &Vec<Polygon>) -> (out: Vec<
    Triangle,
>)
    requires
        tris_in_range(tris@),
        polys_in_range(polys@),
    ensures
        out@ == tris@.filter(
            |t: Triangle| keep_triangle(BoolPredicate::AtLeastTwo, t, polys@),
        ),
{
    classify(tris, polys, BoolPredicate::AtLeastTwo)
}

/// The two operand copies the binary classifiers work over.
fn pair(p1: &Polygon, p2: &Polygon) -> (ps: Vec<Polygon>)
    requires
        p1.in_range(),
        p2.in_range(),
    ensures
        ps@.len() == 2,
        ps@[0].rings() == p1.rings(),
        ps@[1].rings() == p2.rings(),
        polys_in_range(ps@),
{
    let mut ps: Vec<Polygon> = Vec::new();
    ps.push(p1.duplicate());
    ps.push(p2.duplicate());
    ps
}

/// Containment: every triangle an intersection keeps has its centroid in
/// both operands — the kept area is part of each operand as the centroid
/// rule measures it.
pub proof fn lemma_intersection_within_operands(
    tris: Seq<Triangle>,
    p1: Polygon,
    p2: Polygon,
    out: Seq<Triangle>,
)
    requires
        out == tris.filter(|t: Triangle| tri_in_poly(t, p1) && tri_in_poly(t, p2)),
    ensures
        forall|k: int|
            0 <= k < out.len() ==> tri_in_poly(#[trigger] out[k], p1) && tri_in_poly(out[k], p2),
{
    tris.filter_lemma(|t: Triangle| tri_in_poly(t, p1) && tri_in_poly(t, p2));
}

/// Containment: no triangle a difference keeps has its centroid inside the
/// subtrahend — the kept area avoids the second operand's interior as the
/// centroid rule measures it.
pub proof fn lemma_difference_avoids_subtrahend(
    tris: Seq<Triangle>,
    p1: Polygon,
    p2: Polygon,
    out: Seq<Triangle>,
)
    requires
        out == tris.filter(|t: Triangle| tri_in_poly(t, p1) && !tri_in_poly(t, p2)),
    ensures
        forall|k: int|
            0 <= k < out.len() ==> tri_in_poly(#[trigger] out[k], p1) && !tri_in_poly(out[k], p2),
{
    tris.filter_lemma(|t: Triangle| tri_in_poly(t, p1) && !tri_in_poly(t, p2));
}

/// Symmetry: over one triangulation, intersection keeps the same triangles
/// whichever way round its operands come.
pub proof fn lemma_intersection_symmetric(tris: Seq<Triangle>, p1: Polygon, p2: Polygon)
    ensures
        tris.filter(|t: Triangle| tri_in_poly(t, p1) && tri_in_poly(t, p2)) == tris.filter(
            |t: Triangle| tri_in_poly(t, p2) && tri_in_poly(t, p1),
        ),
{
    lemma_filter_equiv(
        tris,
        |t: Triangle| tri_in_poly(t, p1) && tri_in_poly(t, p2),
        |t: Triangle| tri_in_poly(t, p2) && tri_in_poly(t, p1),
    );
}

} // verus!
