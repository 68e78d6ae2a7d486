//! The arrangement resolver: repeatedly finds the first pair of segments
//! that breaks planarity (a proper interior crossing or a positive collinear
//! overlap), removes the pair, splits it at the intersection, snaps and
//! deduplicates the fragments, and reinserts them — until the set is planar
//! or the iteration cap is spent.
use vstd::prelude::*;

use crate::geom::{
    Point, Segment, arrangement_breaking, collinear_overlap, lex_le, lex_le_exec, lex_lt, lex_max,
    lex_min, planar, proper_cross,
};
use crate::intersect::{SegIntersection, crossing_point, segment_intersection};
use crate::registry::{PointRegistry, snap_registry, snap_result};
use crate::extract::{seg_known, seg_known_exec, segs_in_range};

verus! {

/// Some ordered pair of distinct segments breaks the arrangement.
pub open spec fn has_breaking(ss: Seq<Segment>) -> bool {
    exists|i: int, j: int|
        0 <= i < j < ss.len() && #[trigger] arrangement_breaking(ss[i], ss[j])
}

/// `(i, j)` is the first breaking pair in the scan order: outer index
/// ascending, inner index ascending.
pub open spec fn is_first_breaking(ss: Seq<Segment>, i: int, j: int) -> bool {
    &&& 0 <= i < j < ss.len()
    &&& arrangement_breaking(ss[i], ss[j])
    &&& forall|a: int, b: int|
        0 <= a < b < ss.len() && (a < i || (a == i && b < j)) ==> !#[trigger] arrangement_breaking(
            ss[a],
            ss[b],
        )
}

/// The first breaking pair, as a spec-level value.
pub open spec fn first_breaking_pair(ss: Seq<Segment>) -> (int, int) {
    choose|ij: (int, int)| is_first_breaking(ss, ij.0, ij.1)
}

/// How the resolver splits a breaking pair: at the single crossing point,
/// or along the collinear chain.
pub open spec fn breaking_kind(l0: Segment, l1: Segment) -> SegIntersection {
    if proper_cross(l0, l1) {
        SegIntersection::SinglePoint(crossing_point(l0, l1))
    } else {
        SegIntersection::CollinearOverlap
    }
}

/// Sort a pair of points lexicographically.
pub open spec fn sort2(p: Point, q: Point) -> (Point, Point) {
    if lex_le(p, q) {
        (p, q)
    } else {
        (q, p)
    }
}

/// Sort four points lexicographically with a fixed five-comparator network.
pub open spec fn sort4(p0: Point, p1: Point, p2: Point, p3: Point) -> Seq<Point> {
    let (a0, a1) = sort2(p0, p1);
    let (b2, b3) = sort2(p2, p3);
    let (c0, c2) = sort2(a0, b2);
    let (d1, d3) = sort2(a1, b3);
    let (e1, e2) = sort2(d1, c2);
    seq![c0, e1, e2, d3]
}

/// The replacement segments for a split pair: four spokes from the original
/// endpoints to a single crossing point, or the three consecutive segments
/// between the four collinearly sorted endpoints.
pub open spec fn split_spec(l0: Segment, l1: Segment, k: SegIntersection) -> Seq<Segment> {
    match k {
        SegIntersection::SinglePoint(p) => seq![
            Segment { a: l0.a, b: p },
            Segment { a: l0.b, b: p },
            Segment { a: l1.a, b: p },
            Segment { a: l1.b, b: p },
        ],
        SegIntersection::CollinearOverlap => {
            let s = sort4(l0.a, l0.b, l1.a, l1.b);
            seq![
                Segment { a: s[0], b: s[1] },
                Segment { a: s[1], b: s[2] },
                Segment { a: s[2], b: s[3] },
            ]
        },
    }
}

/// One cleanup step for a fresh fragment: snap both endpoints through the
/// registry, then keep the fragment unless it is degenerate or already
/// present (in either orientation) in the remaining working set.
pub open spec fn cleanup_step(
    reg: Seq<Point>,
    acc: Seq<Segment>,
    existing: Seq<Segment>,
    s: Segment,
    eps: i64,
) -> (Seq<Point>, Seq<Segment>) {
    let a = snap_result(reg, s.a, eps);
    let reg1 = snap_registry(reg, s.a, eps);
    let b = snap_result(reg1, s.b, eps);
    let reg2 = snap_registry(reg1, s.b, eps);
    let t = Segment { a, b };
    if a != b && !seg_known(existing, t) {
        (reg2, acc.push(t))
    } else {
        (reg2, acc)
    }
}

/// Cleanup folded over all fresh fragments, in order.
pub open spec fn cleanup_fold(
    reg: Seq<Point>,
    existing: Seq<Segment>,
    news: Seq<Segment>,
    eps: i64,
) -> (Seq<Point>, Seq<Segment>)
    decreases news.len(),
{
    if news.len() == 0 {
        (reg, Seq::empty())
    } else {
        let (reg1, acc) = cleanup_fold(reg, existing, news.drop_last(), eps);
        cleanup_step(reg1, acc, existing, news.last(), eps)
    }
}

/// One resolution round: remove the first breaking pair, split it, snap and
/// filter the fragments against the remaining set, and append the
/// survivors.
pub open spec fn resolve_step(lines: Seq<Segment>, reg: Seq<Point>, eps: i64) -> (
    Seq<Segment>,
    Seq<Point>,
) {
    let (i, j) = first_breaking_pair(lines);
    let l0 = lines[i];
    let l1 = lines[j];
    let rest = lines.remove(j).remove(i);
    let news = split_spec(l0, l1, breaking_kind(l0, l1));
    let (reg2, kept) = cleanup_fold(reg, rest, news, eps);
    (rest + kept, reg2)
}

/// What resolution returns: the current set once it is planar, an error
/// once the fuel is spent, and otherwise one more round.
pub open spec fn resolve_spec(lines: Seq<Segment>, reg: Seq<Point>, eps: i64, fuel: nat) -> Result<
    Seq<Segment>,
    (),
>
    decreases fuel,
{
    if !has_breaking(lines) {
        Ok(lines)
    } else if fuel == 0 {
        Err(())
    } else {
        let (lines2, reg2) = resolve_step(lines, reg, eps);
        resolve_spec(lines2, reg2, eps, (fuel - 1) as nat)
    }
}

/// A collinear overlap with four distinct endpoints splits into exactly
/// three non-degenerate segments, chained end to end in lexicographic
/// order with no gaps, covering the union of both segments from its lowest
/// endpoint to its highest, with all four original endpoints preserved.
pub proof fn lemma_collinear_split_chain(l0: Segment, l1: Segment)
    requires
        collinear_overlap(l0, l1),
        l0.a != l0.b,
        l0.a != l1.a,
        l0.a != l1.b,
        l0.b != l1.a,
        l0.b != l1.b,
        l1.a != l1.b,
    ensures
        ({
            let out = split_spec(l0, l1, SegIntersection::CollinearOverlap);
            let s = sort4(l0.a, l0.b, l1.a, l1.b);
            &&& out.len() == 3
            &&& out[0].b == out[1].a && out[1].b == out[2].a
            &&& lex_lt(out[0].a, out[0].b) && lex_lt(out[1].a, out[1].b) && lex_lt(
                out[2].a,
                out[2].b,
            )
            &&& out[0].a == lex_min(lex_min(l0.a, l0.b), lex_min(l1.a, l1.b))
            &&& out[2].b == lex_max(lex_max(l0.a, l0.b), lex_max(l1.a, l1.b))
            &&& s.contains(l0.a) && s.contains(l0.b) && s.contains(l1.a) && s.contains(l1.b)
        }),
{
    let s = sort4(l0.a, l0.b, l1.a, l1.b);
    assert(s.contains(l0.a) && s.contains(l0.b) && s.contains(l1.a) && s.contains(l1.b)) by {
        assert(s[0] == l0.a || s[1] == l0.a || s[2] == l0.a || s[3] == l0.a);
        assert(s[0] == l0.b || s[1] == l0.b || s[2] == l0.b || s[3] == l0.b);
        assert(s[0] == l1.a || s[1] == l1.a || s[2] == l1.a || s[3] == l1.a);
        assert(s[0] == l1.b || s[1] == l1.b || s[2] == l1.b || s[3] == l1.b);
    }
}

/// An already planar segment set resolves to itself, whatever fuel it is
/// given.
pub proof fn lemma_planar_resolves_unchanged(
    lines: Seq<Segment>,
    reg: Seq<Point>,
    eps: i64,
    fuel: nat,
)
    requires
        planar(lines),
    ensures
        resolve_spec(lines, reg, eps, fuel) == Ok::<Seq<Segment>, ()>(lines),
{
    if has_breaking(lines) {
        let (i, j) = choose|i: int, j: int|
            0 <= i < j < lines.len() && #[trigger] arrangement_breaking(lines[i], lines[j]);
        assert(!arrangement_breaking(lines[i], lines[j]));
    }
}

/// Breaking an arrangement does not depend on the order of the pair.
pub proof fn lemma_breaking_symmetric(s1: Segment, s2: Segment)
    ensures
        arrangement_breaking(s1, s2) == arrangement_breaking(s2, s1),
{
}

/// The first breaking pair is unique.
pub proof fn lemma_first_breaking_unique(ss: Seq<Segment>, i1: int, j1: int, i2: int, j2: int)
    requires
        is_first_breaking(ss, i1, j1),
        is_first_breaking(ss, i2, j2),
    ensures
        i1 == i2 && j1 == j2,
{
    if i1 < i2 || (i1 == i2 && j1 < j2) {
        assert(!arrangement_breaking(ss[i1], ss[j1]));
    } else if i2 < i1 || (i2 == i1 && j2 < j1) {
        assert(!arrangement_breaking(ss[i2], ss[j2]));
    }
}

/// Pin the spec-level first pair to a witness found by the scan.
pub proof fn lemma_first_pair_is(ss: Seq<Segment>, i: int, j: int)
    requires
        is_first_breaking(ss, i, j),
    ensures
        first_breaking_pair(ss) == (i, j),
{
    let w = (i, j);
    assert(is_first_breaking(ss, w.0, w.1));
    let ij = choose|ij: (int, int)| is_first_breaking(ss, ij.0, ij.1);
    lemma_first_breaking_unique(ss, ij.0, ij.1, i, j);
}

/// Whatever resolution accepts is planar: the resolver only answers `Ok`
/// once no two distinct segments intersect improperly.
pub proof fn lemma_resolve_output_planar(
    lines: Seq<Segment>,
    reg: Seq<Point>,
    eps: i64,
    fuel: nat,
    out: Seq<Segment>,
)
    requires
        resolve_spec(lines, reg, eps, fuel) == Ok::<Seq<Segment>, ()>(out),
    ensures
        planar(out),
    decreases fuel,
{
    if !has_breaking(lines) {
        assert forall|i: int, j: int|
            0 <= i < out.len() && 0 <= j < out.len() && i != j implies !arrangement_breaking(
            out[i],
            out[j],
        ) by {
            if i < j {
                assert(!arrangement_breaking(out[i], out[j]));
            } else {
                lemma_breaking_symmetric(out[i], out[j]);
                assert(!arrangement_breaking(out[j], out[i]));
            }
        }
    } else {
        let (lines2, reg2) = resolve_step(lines, reg, eps);
        lemma_resolve_output_planar(lines2, reg2, eps, (fuel - 1) as nat, out);
    }
}

/// Find the first breaking pair by scanning outer index ascending, inner
/// index ascending, exactly as the resolver eliminates them.
pub fn find_intersecting_lines(lines: &Vec<Segment>) -> (r: Option<(usize, usize, SegIntersection)>)
    requires
        segs_in_range(lines@),
    ensures
        match r {
            None => !has_breaking(lines@) && planar(lines@),
            Some((i, j, k)) => is_first_breaking(lines@, i as int, j as int) && k == breaking_kind(
                lines@[i as int],
                lines@[j as int],
            ) && (k matches SegIntersection::SinglePoint(p) ==> p.in_range()),
        },
{
    let ghost ss = lines@;
    let n = lines.len();
    let mut i: usize = 0;
    while i < n
        invariant
            0 <= i <= n,
            n == ss.len(),
            ss == lines@,
            segs_in_range(ss),
            forall|a: int, b: int|
                0 <= a < b < ss.len() && a < i ==> !#[trigger] arrangement_breaking(ss[a], ss[b]),
        decreases n - i,
    {
        let mut j: usize = i + 1;
        while j < n
            invariant
                0 <= i < j <= n,
                n == ss.len(),
                ss == lines@,
                segs_in_range(ss),
                forall|a: int, b: int|
                    0 <= a < b < ss.len() && a < i ==> !#[trigger] arrangement_breaking(
                        ss[a],
                        ss[b],
                    ),
                forall|b: int|
                    i < b < j ==> !#[trigger] arrangement_breaking(ss[i as int], ss[b]),
            decreases n - j,
        {
            match segment_intersection(lines[i], lines[j]) {
                Some(k) => {
                    return Some((i, j, k));
                },
                None => {},
            }
            j += 1;
        }
        i += 1;
    }
    proof {
        assert forall|a: int, b: int|
            0 <= a < ss.len() && 0 <= b < ss.len() && a != b implies !arrangement_breaking(
            ss[a],
            ss[b],
        ) by {
            if a < b {
                assert(!arrangement_breaking(ss[a], ss[b]));
            } else {
                lemma_breaking_symmetric(ss[a], ss[b]);
                assert(!arrangement_breaking(ss[b], ss[a]));
            }
        }
    }
    None
}

/// Remove the breaking pair, higher index first so the lower index stays
/// valid, and hand both segments back.
pub fn remove_lines_by_index(lines: &mut Vec<Segment>, i: usize, j: usize) -> (pair: (
    Segment,
    Segment,
))
    requires
        i < j < old(lines)@.len(),
    ensures
        pair.0 == old(lines)@[i as int],
        pair.1 == old(lines)@[j as int],
        final(lines)@ == old(lines)@.remove(j as int).remove(i as int),
{
    let l1 = lines.remove(j);
    let l0 = lines.remove(i);
    (l0, l1)
}

/// Sort four points lexicographically.
fn sort4_exec(p0: Point, p1: Point, p2: Point, p3: Point) -> (out: [Point; 4])
    ensures
        out@ == sort4(p0, p1, p2, p3),
{
    let (a0, a1) = if lex_le_exec(p0, p1) {
        (p0, p1)
    } else {
        (p1, p0)
    };
    let (b2, b3) = if lex_le_exec(p2, p3) {
        (p2, p3)
    } else {
        (p3, p2)
    };
    let (c0, c2) = if lex_le_exec(a0, b2) {
        (a0, b2)
    } else {
        (b2, a0)
    };
    let (d1, d3) = if lex_le_exec(a1, b3) {
        (a1, b3)
    } else {
        (b3, a1)
    };
    let (e1, e2) = if lex_le_exec(d1, c2) {
        (d1, c2)
    } else {
        (c2, d1)
    };
    let out = [c0, e1, e2, d3];
    proof {
        assert(out@ =~= sort4(p0, p1, p2, p3));
    }
    out
}

/// Split a breaking pair: four spokes to a single crossing point, or the
/// chain of three segments between the sorted collinear endpoints.
pub fn split_lines(l0: Segment, l1: Segment, k: SegIntersection) -> (out: Vec<Segment>)
    requires
        l0.in_range(),
        l1.in_range(),
        k matches SegIntersection::SinglePoint(p) ==> p.in_range(),
    ensures
        out@ == split_spec(l0, l1, k),
        segs_in_range(out@),
{
    let mut out: Vec<Segment> = Vec::new();
    match k {
        SegIntersection::SinglePoint(p) => {
            out.push(Segment { a: l0.a, b: p });
            out.push(Segment { a: l0.b, b: p });
            out.push(Segment { a: l1.a, b: p });
            out.push(Segment { a: l1.b, b: p });
            proof {
                assert(out@ =~= split_spec(l0, l1, k));
            }
        },
        SegIntersection::CollinearOverlap => {
            let s = sort4_exec(l0.a, l0.b, l1.a, l1.b);
            out.push(Segment { a: s[0], b: s[1] });
            out.push(Segment { a: s[1], b: s[2] });
            out.push(Segment { a: s[2], b: s[3] });
            proof {
                assert(out@ =~= split_spec(l0, l1, k));
            }
        },
    }
    out
}

/// Snap every fresh fragment's endpoints, then drop the fragments that are
/// degenerate or already present, in either orientation, in the remaining
/// working set.
pub fn cleanup_filter_lines(
    news: &Vec<Segment>,
    existing: &Vec<Segment>,
    reg: &mut PointRegistry,
) -> (kept: Vec<Segment>)
    requires
        old(reg).wf(),
        segs_in_range(news@),
    ensures
        (final(reg).points@, kept@) == cleanup_fold(
            old(reg).points@,
            existing@,
            news@,
            old(reg).eps,
        ),
        final(reg).wf(),
        final(reg).eps == old(reg).eps,
        segs_in_range(kept@),
{
    let ghost eps = reg.eps;
    let ghost reg0 = reg.points@;
    let mut kept: Vec<Segment> = Vec::new();
    let mut i: usize = 0;
    while i < news.len()
        invariant
            0 <= i <= news@.len(),
            segs_in_range(news@),
            (reg.points@, kept@) == cleanup_fold(reg0, existing@, news@.take(i as int), eps),
            reg.wf(),
            reg.eps == eps,
            segs_in_range(kept@),
        decreases news@.len() - i,
    {
        proof {
            assert(news@.take(i + 1).drop_last() =~= news@.take(i as int));
            assert(news@.take(i + 1).last() == news@[i as int]);
        }
        let s = news[i];
        let a = reg.snap_or_register_point(s.a);
        let b = reg.snap_or_register_point(s.b);
        let t = Segment { a, b };
        if !(a.x == b.x && a.y == b.y) && !seg_known_exec(existing, t) {
            kept.push(t);
        }
        i += 1;
    }
    proof {
        assert(news@.take(news@.len() as int) =~= news@);
    }
    kept
}

/// An exact copy of a segment list, kept for error reporting.
fn copy_segments(src: &Vec<Segment>) -> (out: Vec<Segment>)
    ensures
        out@ == src@,
{
    let mut out: Vec<Segment> = Vec::new();
    let mut i: usize = 0;
    while i < src.len()
        invariant
            0 <= i <= src@.len(),
            out@ == src@.take(i as int),
        decreases src@.len() - i,
    {
        out.push(src[i]);
        proof {
            assert(out@ =~= src@.take(i + 1));
        }
        i += 1;
    }
    proof {
        assert(src@.take(src@.len() as int) =~= src@);
    }
    out
}

/// Errors a Boolean operation can end in. Resolution itself only produces
/// `LoopTrap`; the two triangulation-side failures are declared here so
/// that callers running an external triangulation primitive over the
/// resolved arrangement share one error type.
#[derive(Debug, PartialEq, Eq)]
pub enum SpadeBoolopsError {
    /// Resolution did not converge within the iteration cap; carries the
    /// original, pre-resolution segment set for diagnosis.
    LoopTrap(Vec<Segment>),
    /// The triangulation primitive refused a constraint edge that a planar
    /// arrangement should have admitted.
    ConstraintFailure,
    /// The triangulation primitive rejected a point insertion.
    InsertionFailure,
}

impl SpadeBoolopsError {
    /// A short description of the failure.
    pub fn message(&self) -> &'static str {
        match self {
            SpadeBoolopsError::LoopTrap(_) => "hit the iteration cap while resolving intersections",
            SpadeBoolopsError::ConstraintFailure => "couldn't add a constraint even after preprocessing",
            SpadeBoolopsError::InsertionFailure => "the triangulation primitive rejected a point insertion",
        }
    }
}

/// Resolve a segment set into a planar arrangement, spending at most `cap`
/// splitting rounds. On success the result is exactly what the resolution
/// recurrence yields and is planar; when the cap is exhausted the error
/// carries the original segment set.
pub fn resolve_lines(lines: &Vec<Segment>, reg: &mut PointRegistry, cap: u64) -> (res: Result<
    Vec<Segment>,
    SpadeBoolopsError,
>)
    requires
        old(reg).wf(),
        segs_in_range(lines@),
    ensures
        final(reg).wf(),
        final(reg).eps == old(reg).eps,
        match res {
            Ok(out) => {
                &&& resolve_spec(lines@, old(reg).points@, old(reg).eps, cap as nat)
                    == Ok::<Seq<Segment>, ()>(out@)
                &&& planar(out@)
                &&& segs_in_range(out@)
            },
            Err(e) => {
                &&& e matches SpadeBoolopsError::LoopTrap(orig) && orig@ == lines@
                &&& resolve_spec(lines@, old(reg).points@, old(reg).eps, cap as nat) is Err
            },
        },
{
    let ghost eps = reg.eps;
    let original = copy_segments(lines);
    let mut work = copy_segments(lines);
    let mut fuel: u64 = cap;
    loop
        invariant
            reg.wf(),
            reg.eps == eps,
            eps == old(reg).eps,
            segs_in_range(work@),
            original@ == lines@,
            fuel <= cap,
            resolve_spec(lines@, old(reg).points@, eps, cap as nat) == resolve_spec(
                work@,
                reg.points@,
                eps,
                fuel as nat,
            ),
        decreases fuel,
    {
        let found = find_intersecting_lines(&work);
        match found {
            None => {
                proof {
                    assert(resolve_spec(work@, reg.points@, eps, fuel as nat) == Ok::<
                        Seq<Segment>,
                        (),
                    >(work@));
                }
                return Ok(work);
            },
            Some((i, j, k)) => {
                proof {
                    assert(has_breaking(work@)) by {
                        let w = (i as int, j as int);
                        assert(is_first_breaking(work@, w.0, w.1));
                        assert(arrangement_breaking(work@[w.0], work@[w.1]));
                    }
                }
                if fuel == 0 {
                    proof {
                        assert(resolve_spec(work@, reg.points@, eps, 0) is Err);
                    }
                    return Err(SpadeBoolopsError::LoopTrap(original));
                }
                let ghost cur = work@;
                let ghost curreg = reg.points@;
                let ghost oldfuel = fuel as nat;
                proof {
                    lemma_first_pair_is(cur, i as int, j as int);
                }
                let (l0, l1) = remove_lines_by_index(&mut work, i, j);
                let news = split_lines(l0, l1, k);
                let mut kept = cleanup_filter_lines(&news, &work, reg);
                work.append(&mut kept);
                fuel = fuel - 1;
                proof {
                    let (lines2, reg2) = resolve_step(cur, curreg, eps);
                    assert(work@ =~= lines2);
                    assert(reg.points@ == reg2);
                    assert(resolve_spec(cur, curreg, eps, oldfuel) == resolve_spec(
                        lines2,
                        reg2,
                        eps,
                        (oldfuel - 1) as nat,
                    ));
                }
            },
        }
    }
}

} // verus!
