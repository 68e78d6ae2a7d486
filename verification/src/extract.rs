//! The segment extractor: flattens polygon rings into edges, snaps every
//! endpoint through the point registry, and drops degenerate and duplicate
//! segments, yielding the resolver's starting segment set.
use vstd::prelude::*;

use crate::geom::{COORD_LIMIT, Point, Segment};
use crate::registry::{PointRegistry, snap_registry, snap_result};

verus! {

/// A polygon: one exterior ring and zero or more interior (hole) rings.
/// Rings need not repeat their first point; they are closed implicitly.
#[derive(Clone, Debug, PartialEq, Eq)]
pub struct Polygon {
    pub exterior: Vec<Point>,
    pub interiors: Vec<Vec<Point>>,
}

impl Polygon {
    /// All rings of the polygon, exterior first.
    pub open spec fn rings(self) -> Seq<Seq<Point>> {
        seq![self.exterior@] + self.interiors@.map_values(|r: Vec<Point>| r@)
    }

    /// Every vertex within the coordinate range.
    pub open spec fn in_range(self) -> bool {
        forall|i: int, j: int|
            0 <= i < self.rings().len() && 0 <= j < self.rings()[i].len() ==> (
            #[trigger] self.rings()[i][j]).in_range()
    }

    /// A polygon from its exterior ring alone.
    pub fn from_exterior(exterior: Vec<Point>) -> (p: Polygon)
        ensures
            p.exterior == exterior,
            p.interiors@ == Seq::<Vec<Point>>::empty(),
    {
        Polygon { exterior, interiors: Vec::new() }
    }

    /// An exact copy, ring for ring.
    pub fn duplicate(&self) -> (q: Polygon)
        ensures
            q.rings() == self.rings(),
            q.in_range() == self.in_range(),
    {
        let ext = copy_points(&self.exterior);
        let mut ints: Vec<Vec<Point>> = Vec::new();
        let mut i: usize = 0;
        while i < self.interiors.len()
            invariant
                0 <= i <= self.interiors@.len(),
                ints@.len() == i,
                forall|k: int| 0 <= k < i ==> #[trigger] ints@[k]@ == self.interiors@[k]@,
            decreases self.interiors@.len() - i,
        {
            let r = copy_points(&self.interiors[i]);
            ints.push(r);
            i += 1;
        }
        let q = Polygon { exterior: ext, interiors: ints };
        proof {
            assert(q.rings() =~~= self.rings());
        }
        q
    }
}

/// An exact copy of a point list.
fn copy_points(src: &Vec<Point>) -> (out: Vec<Point>)
    ensures
        out@ == src@,
{
    let mut out: Vec<Point> = Vec::new();
    let mut i: usize = 0;
    while i < src.len()
        invariant
            0 <= i <= src@.len(),
            out@ == src@.take(i as int),
        decreases src@.len() - i,
    {
        out.push(src[i]);
        proof {
            assert(out@ =~= src@.take(i + 1));
        }
        i += 1;
    }
    proof {
        assert(src@.take(src@.len() as int) =~= src@);
    }
    out
}

/// A ring closed by repeating its first point when needed.
pub open spec fn closed_ring(r: Seq<Point>) -> Seq<Point> {
    if r.len() > 0 && r.last() != r[0] {
        r.push(r[0])
    } else {
        r
    }
}

/// The consecutive vertex pairs of a ring, once closed.
pub open spec fn ring_edges(r: Seq<Point>) -> Seq<(Point, Point)> {
    let c = closed_ring(r);
    if c.len() < 2 {
        Seq::empty()
    } else {
        Seq::new((c.len() - 1) as nat, |i: int| (c[i], c[i + 1]))
    }
}

/// The edges of a list of rings, in order.
pub open spec fn rings_edges(rs: Seq<Seq<Point>>) -> Seq<(Point, Point)>
    decreases rs.len(),
{
    if rs.len() == 0 {
        Seq::empty()
    } else {
        rings_edges(rs.drop_last()) + ring_edges(rs.last())
    }
}

/// The edges of a list of polygons: each polygon's exterior ring first,
/// then its interior rings, polygons in order.
pub open spec fn polys_edges(ps: Seq<Polygon>) -> Seq<(Point, Point)>
    decreases ps.len(),
{
    if ps.len() == 0 {
        Seq::empty()
    } else {
        polys_edges(ps.drop_last()) + rings_edges(ps.last().rings())
    }
}

/// A segment is already present in the set, in either orientation.
pub open spec fn seg_known(ss: Seq<Segment>, s: Segment) -> bool {
    ss.contains(s) || ss.contains(s.flip())
}

/// Every polygon of the set within the coordinate range.
pub open spec fn polys_in_range(ps: Seq<Polygon>) -> bool {
    forall|i: int| 0 <= i < ps.len() ==> (#[trigger] ps[i]).in_range()
}

/// Every segment of the set has in-range endpoints.
pub open spec fn segs_in_range(ss: Seq<Segment>) -> bool {
    forall|i: int| 0 <= i < ss.len() ==> (#[trigger] ss[i]).in_range()
}

/// One extraction step: snap both endpoints of the edge through the
/// registry (in order), then keep the resulting segment unless it is
/// degenerate or already present in either orientation.
pub open spec fn extract_step(
    reg: Seq<Point>,
    lines: Seq<Segment>,
    e: (Point, Point),
    eps: i64,
) -> (Seq<Point>, Seq<Segment>) {
    let a = snap_result(reg, e.0, eps);
    let reg1 = snap_registry(reg, e.0, eps);
    let b = snap_result(reg1, e.1, eps);
    let reg2 = snap_registry(reg1, e.1, eps);
    let s = Segment { a, b };
    if a != b && !seg_known(lines, s) {
        (reg2, lines.push(s))
    } else {
        (reg2, lines)
    }
}

/// Folding the extraction step over an edge list, starting from an empty
/// registry and an empty segment set.
pub open spec fn extract_fold(edges: Seq<(Point, Point)>, eps: i64) -> (Seq<Point>, Seq<Segment>)
    decreases edges.len(),
{
    if edges.len() == 0 {
        (Seq::empty(), Seq::empty())
    } else {
        let (reg, lines) = extract_fold(edges.drop_last(), eps);
        extract_step(reg, lines, edges.last(), eps)
    }
}

/// Linear scan for a segment in either orientation.
pub fn seg_known_exec(lines: &Vec<Segment>, s: Segment) -> (r: bool)
    ensures
        r == seg_known(lines@, s),
{
    let f = Segment { a: s.b, b: s.a };
    let mut i: usize = 0;
    while i < lines.len()
        invariant
            0 <= i <= lines@.len(),
            f == s.flip(),
            forall|j: int| 0 <= j < i ==> #[trigger] lines@[j] != s && lines@[j] != s.flip(),
        decreases lines@.len() - i,
    {
        if lines[i] == s || lines[i] == f {
            return true;
        }
        i += 1;
    }
    false
}

/// Append the edges of one ring (closing it implicitly) to the edge list.
fn append_ring_edges(edges: &mut Vec<(Point, Point)>, ring: &Vec<Point>)
    ensures
        final(edges)@ == old(edges)@ + ring_edges(ring@),
{
    let ghost c = closed_ring(ring@);
    let n = ring.len();
    if n == 0 {
        proof {
            assert(old(edges)@ + ring_edges(ring@) =~= edges@);
        }
        return ;
    }
    let mut k: usize = 0;
    while k + 1 < n
        invariant
            0 <= k <= n - 1,
            n == ring@.len(),
            n >= 1,
            c == closed_ring(ring@),
            edges@ == old(edges)@ + Seq::new(k as nat, |i: int| (ring@[i], ring@[i + 1])),
        decreases n - k,
    {
        edges.push((ring[k], ring[k + 1]));
        proof {
            assert(edges@ =~= old(edges)@ + Seq::new(
                (k + 1) as nat,
                |i: int| (ring@[i], ring@[i + 1]),
            ));
        }
        k += 1;
    }
    let last = ring[n - 1];
    let first = ring[0];
    if !(last.x == first.x && last.y == first.y) {
        edges.push((last, first));
    }
    proof {
        assert(edges@ =~= old(edges)@ + ring_edges(ring@));
    }
}

/// Flatten a list of polygons into their edge list, every polygon's
/// exterior ring first, then its interior rings.
fn flatten_polys(polys: &Vec<Polygon>) -> (edges: Vec<(Point, Point)>)
    ensures
        edges@ == polys_edges(polys@),
{
    let mut edges: Vec<(Point, Point)> = Vec::new();
    let mut pi: usize = 0;
    while pi < polys.len()
        invariant
            0 <= pi <= polys@.len(),
            edges@ == polys_edges(polys@.take(pi as int)),
        decreases polys@.len() - pi,
    {
        let ghost r = polys@[pi as int].rings();
        append_ring_edges(&mut edges, &polys[pi].exterior);
        proof {
            reveal_with_fuel(rings_edges, 3);
            assert(r.take(1).drop_last() =~= Seq::<Seq<Point>>::empty());
            assert(r.take(1).last() == polys@[pi as int].exterior@);
            assert(rings_edges(r.take(1)) =~= ring_edges(polys@[pi as int].exterior@));
            assert(edges@ =~= polys_edges(polys@.take(pi as int)) + rings_edges(r.take(1)));
        }
        let mut ri: usize = 0;
        let n_int = polys[pi].interiors.len();
        while ri < n_int
            invariant
                0 <= ri <= n_int,
                0 <= pi < polys@.len(),
                n_int == polys@[pi as int].interiors@.len(),
                r == polys@[pi as int].rings(),
                edges@ == polys_edges(polys@.take(pi as int)) + rings_edges(r.take(ri + 1)),
            decreases n_int - ri,
        {
            append_ring_edges(&mut edges, &polys[pi].interiors[ri]);
            proof {
                assert(r.take(ri + 2).drop_last() =~= r.take(ri + 1));
                assert(r.take(ri + 2).last() == polys@[pi as int].interiors@[ri as int]@);
                assert(edges@ =~= polys_edges(polys@.take(pi as int)) + rings_edges(
                    r.take(ri + 2),
                ));
            }
            ri += 1;
        }
        proof {
            assert(r.take(r.len() as int) =~= r);
            assert(polys@.take(pi + 1).drop_last() =~= polys@.take(pi as int));
            assert(polys@.take(pi + 1).last() == polys@[pi as int]);
        }
        pi += 1;
    }
    proof {
        assert(polys@.take(polys@.len() as int) =~= polys@);
    }
    edges
}

/// Turn polygons into a snapped, deduplicated segment set together with the
/// registry of canonical points it was built with. The result never holds a
/// zero-length segment nor the same segment twice in either orientation,
/// but may still contain crossing segments: resolving those is the
/// arrangement resolver's job.
pub fn polys_to_lines(polys: &Vec<Polygon>, eps: i64) -> (r: (PointRegistry, Vec<Segment>))
    requires
        0 <= eps <= COORD_LIMIT,
        forall|i: int| 0 <= i < polys@.len() ==> (#[trigger] polys@[i]).in_range(),
    ensures
        (r.0.points@, r.1@) == extract_fold(polys_edges(polys@), eps),
        r.0.wf(),
        r.0.eps == eps,
        segs_in_range(r.1@),
{
    let edges = flatten_polys(polys);
    proof {
        lemma_polys_edges_in_range(polys@);
    }
    let mut reg = PointRegistry::new(eps);
    let mut lines: Vec<Segment> = Vec::new();
    let mut i: usize = 0;
    while i < edges.len()
        invariant
            0 <= i <= edges@.len(),
            forall|j: int|
                0 <= j < edges@.len() ==> (#[trigger] edges@[j]).0.in_range()
                    && edges@[j].1.in_range(),
            (reg.points@, lines@) == extract_fold(edges@.take(i as int), eps),
            reg.wf(),
            reg.eps == eps,
            segs_in_range(lines@),
        decreases edges@.len() - i,
    {
        proof {
            assert(edges@.take(i + 1).drop_last() =~= edges@.take(i as int));
            assert(edges@.take(i + 1).last() == edges@[i as int]);
        }
        let (pa, pb) = edges[i];
        let a = reg.snap_or_register_point(pa);
        let b = reg.snap_or_register_point(pb);
        let s = Segment { a, b };
        if !(a.x == b.x && a.y == b.y) && !seg_known_exec(&lines, s) {
            lines.push(s);
        }
        i += 1;
    }
    proof {
        assert(edges@.take(edges@.len() as int) =~= edges@);
    }
    (reg, lines)
}

/// The extracted set never holds a zero-length segment, nor the same
/// segment twice in either orientation.
pub proof fn lemma_extract_fold_clean(edges: Seq<(Point, Point)>, eps: i64)
    ensures
        ({
            let (reg, lines) = extract_fold(edges, eps);
            &&& forall|i: int| 0 <= i < lines.len() ==> !(#[trigger] lines[i]).degenerate()
            &&& forall|i: int, j: int|
                0 <= i < lines.len() && 0 <= j < lines.len() && i != j ==> lines[i] != lines[j]
                    && #[trigger] lines[i] != (#[trigger] lines[j]).flip()
        }),
    decreases edges.len(),
{
    if edges.len() > 0 {
        lemma_extract_fold_clean(edges.drop_last(), eps);
        let (reg, lines) = extract_fold(edges.drop_last(), eps);
        let (reg2, lines2) = extract_fold(edges, eps);
        if lines2.len() > lines.len() {
            let s = lines2.last();
            assert(!seg_known(lines, s));
            assert forall|i: int, j: int|
                0 <= i < lines2.len() && 0 <= j < lines2.len() && i != j implies lines2[i]
                != lines2[j] && #[trigger] lines2[i] != (#[trigger] lines2[j]).flip() by {
                if j == lines2.len() - 1 {
                    assert(!lines.contains(s));
                    assert(!lines.contains(s.flip()));
                    if lines2[i] == s.flip() {
                        assert(lines[i] == s.flip());
                    }
                } else if i == lines2.len() - 1 {
                    assert(!lines.contains(s));
                    assert(!lines.contains(s.flip()));
                    if s == lines2[j].flip() {
                        assert(lines[j] == s.flip());
                    }
                }
            }
        }
    }
}

/// Every edge extracted from in-range polygons has in-range endpoints.
proof fn lemma_polys_edges_in_range(ps: Seq<Polygon>)
    requires
        forall|i: int| 0 <= i < ps.len() ==> (#[trigger] ps[i]).in_range(),
    ensures
        forall|j: int|
            0 <= j < polys_edges(ps).len() ==> (#[trigger] polys_edges(ps)[j]).0.in_range()
                && polys_edges(ps)[j].1.in_range(),
    decreases ps.len(),
{
    if ps.len() > 0 {
        let pre = ps.drop_last();
        assert forall|i: int| 0 <= i < pre.len() implies (#[trigger] pre[i]).in_range() by {
            assert(pre[i] == ps[i]);
            assert(ps[i].in_range());
        }
        lemma_polys_edges_in_range(pre);
        assert(ps.last().in_range());
        lemma_rings_edges_in_range(ps.last().rings());
        let pe = polys_edges(pre);
        let re = rings_edges(ps.last().rings());
        assert forall|j: int| 0 <= j < polys_edges(ps).len() implies (#[trigger] polys_edges(
            ps,
        )[j]).0.in_range() && polys_edges(ps)[j].1.in_range() by {
            if j < pe.len() {
                assert(polys_edges(ps)[j] == pe[j]);
            } else {
                assert(polys_edges(ps)[j] == re[j - pe.len()]);
            }
        }
    }
}

/// Every edge of in-range rings has in-range endpoints.
proof fn lemma_rings_edges_in_range(rs: Seq<Seq<Point>>)
    requires
        forall|i: int, j: int|
            0 <= i < rs.len() && 0 <= j < rs[i].len() ==> (#[trigger] rs[i][j]).in_range(),
    ensures
        forall|j: int|
            0 <= j < rings_edges(rs).len() ==> (#[trigger] rings_edges(rs)[j]).0.in_range()
                && rings_edges(rs)[j].1.in_range(),
    decreases rs.len(),
{
    if rs.len() > 0 {
        let pre = rs.drop_last();
        assert forall|i: int, j: int|
            0 <= i < pre.len() && 0 <= j < pre[i].len() implies (
        #[trigger] pre[i][j]).in_range() by {
            assert(pre[i] == rs[i]);
            assert(rs[i][j].in_range());
        }
        lemma_rings_edges_in_range(pre);
        let lastr = rs.last();
        let c = closed_ring(lastr);
        assert forall|j: int| 0 <= j < c.len() implies (#[trigger] c[j]).in_range() by {
            if j < lastr.len() {
                assert(c[j] == rs[rs.len() - 1][j]);
                assert(rs[rs.len() - 1][j].in_range());
            } else {
                assert(c[j] == rs[rs.len() - 1][0]);
                assert(rs[rs.len() - 1][0].in_range());
            }
        }
        let pe = rings_edges(pre);
        let re = ring_edges(lastr);
        assert forall|j: int| 0 <= j < rings_edges(rs).len() implies (#[trigger] rings_edges(
            rs,
        )[j]).0.in_range() && rings_edges(rs)[j].1.in_range() by {
            if j < pe.len() {
                assert(rings_edges(rs)[j] == pe[j]);
            } else {
                assert(rings_edges(rs)[j] == re[j - pe.len()]);
                assert(re[j - pe.len()] == (c[j - pe.len()], c[j - pe.len() + 1]));
            }
        }
    }
}

} // verus!
