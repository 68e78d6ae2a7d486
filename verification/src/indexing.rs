//! Vertex indexing for triangulation back-ends that take a point list and
//! constraint edges by index: deduplicates ring vertices by exact equality
//! in first-occurrence order, and emits each ring's cyclic edges as index
//! pairs into that list.
use vstd::prelude::*;

use crate::extract::Polygon;
use crate::geom::Point;
use vstd::arithmetic::div_mod::{lemma_mod_self_0, lemma_small_mod};

verus! {

/// A ring without its closing duplicate vertex: when the last vertex
/// repeats the first it is dropped, so a single-vertex ring is empty.
pub open spec fn open_ring(r: Seq<Point>) -> Seq<Point> {
    if r.len() == 0 {
        r
    } else if r.last() == r[0] {
        r.drop_last()
    } else {
        r
    }
}

/// The rings of one polygon in indexing order: interior rings first, the
/// exterior ring last.
pub open spec fn poly_ring_list(p: Polygon) -> Seq<Seq<Point>> {
    p.interiors@.map_values(|v: Vec<Point>| v@).push(p.exterior@)
}

/// The open rings of a list of polygons, in indexing order.
pub open spec fn indexing_rings(ps: Seq<Polygon>) -> Seq<Seq<Point>>
    decreases ps.len(),
{
    if ps.len() == 0 {
        Seq::empty()
    } else {
        indexing_rings(ps.drop_last()) + poly_ring_list(ps.last()).map_values(
            |r: Seq<Point>| open_ring(r),
        )
    }
}

/// All ring vertices in traversal order.
pub open spec fn ring_vertices(rs: Seq<Seq<Point>>) -> Seq<Point>
    decreases rs.len(),
{
    if rs.len() == 0 {
        Seq::empty()
    } else {
        ring_vertices(rs.drop_last()) + rs.last()
    }
}

/// The vertex list deduplicated by exact equality, keeping each vertex at
/// its first occurrence.
pub open spec fn dedup(vs: Seq<Point>) -> Seq<Point>
    decreases vs.len(),
{
    if vs.len() == 0 {
        Seq::empty()
    } else {
        let pre = dedup(vs.drop_last());
        if pre.contains(vs.last()) {
            pre
        } else {
            pre.push(vs.last())
        }
    }
}

/// The index of the first occurrence of `p` in `ps`.
pub open spec fn index_of_first(ps: Seq<Point>, p: Point) -> int
    decreases ps.len(),
{
    if ps.len() == 0 {
        0
    } else if ps[0] == p {
        0
    } else {
        1 + index_of_first(ps.drop_first(), p)
    }
}

/// The cyclic edges of one ring, as first-occurrence index pairs into the
/// point list.
pub open spec fn ring_cyclic_edges(r: Seq<Point>, pts: Seq<Point>) -> Seq<(int, int)> {
    Seq::new(
        r.len(),
        |k: int| (index_of_first(pts, r[k]), index_of_first(pts, r[(k + 1) % (r.len() as int)])),
    )
}

/// The constraint edges of all rings: each ring's cyclic edges, looked up
/// in the point list as it stands once that ring's vertices are
/// registered. First occurrences never move, so these indices agree with a
/// lookup in the final list.
pub open spec fn index_edges(rs: Seq<Seq<Point>>) -> Seq<(int, int)>
    decreases rs.len(),
{
    if rs.len() == 0 {
        Seq::empty()
    } else {
        index_edges(rs.drop_last()) + ring_cyclic_edges(rs.last(), dedup(ring_vertices(rs)))
    }
}

/// Index pairs fit the executable representation.
pub open spec fn edges_match(es: Seq<(usize, usize)>, spec_es: Seq<(int, int)>) -> bool {
    es.len() == spec_es.len() && forall|k: int|
        0 <= k < es.len() ==> (#[trigger] es[k]).0 == spec_es[k].0 && es[k].1 == spec_es[k].1
}

/// Deduplication keeps every vertex.
pub proof fn lemma_dedup_contains(vs: Seq<Point>, p: Point)
    requires
        vs.contains(p),
    ensures
        dedup(vs).contains(p),
    decreases vs.len(),
{
    if vs.len() > 0 {
        if vs.last() == p {
            if !dedup(vs.drop_last()).contains(p) {
                assert(dedup(vs).last() == p);
            }
        } else {
            let k = choose|k: int| 0 <= k < vs.len() && vs[k] == p;
            assert(vs.drop_last()[k] == p);
            lemma_dedup_contains(vs.drop_last(), p);
            if !dedup(vs.drop_last()).contains(vs.last()) {
                let j = choose|j: int|
                    0 <= j < dedup(vs.drop_last()).len() && dedup(vs.drop_last())[j] == p;
                assert(dedup(vs)[j] == p);
            }
        }
    }
}

/// A first-occurrence index is a valid index of an equal point.
pub proof fn lemma_index_of_first_valid(ps: Seq<Point>, p: Point)
    requires
        ps.contains(p),
    ensures
        0 <= index_of_first(ps, p) < ps.len(),
        ps[index_of_first(ps, p)] == p,
        forall|k: int| 0 <= k < index_of_first(ps, p) ==> ps[k] != p,
    decreases ps.len(),
{
    if ps.len() > 0 && ps[0] != p {
        let k = choose|k: int| 0 <= k < ps.len() && ps[k] == p;
        assert(ps.drop_first()[k - 1] == p);
        lemma_index_of_first_valid(ps.drop_first(), p);
        assert forall|k: int| 0 <= k < index_of_first(ps, p) implies ps[k] != p by {
            if k > 0 {
                assert(ps.drop_first()[k - 1] != p);
            }
        }
    }
}

/// Look up the first occurrence of a point.
fn lookup_exec(ps: &Vec<Point>, p: Point) -> (n: usize)
    requires
        ps@.contains(p),
    ensures
        n == index_of_first(ps@, p),
        n < ps@.len(),
{
    proof {
        lemma_index_of_first_valid(ps@, p);
    }
    let mut i: usize = 0;
    loop
        invariant
            0 <= i <= ps@.len(),
            ps@.contains(p),
            0 <= index_of_first(ps@, p) < ps@.len(),
            ps@[index_of_first(ps@, p)] == p,
            forall|k: int| 0 <= k < index_of_first(ps@, p) ==> ps@[k] != p,
            forall|k: int| 0 <= k < i ==> ps@[k] != p,
        decreases ps@.len() - i,
    {
        if i < ps.len() {
            if ps[i] == p {
                proof {
                    if i < index_of_first(ps@, p) {
                        assert(ps@[i as int] != p);
                    }
                    if index_of_first(ps@, p) < i {
                        assert(ps@[index_of_first(ps@, p)] != p);
                    }
                }
                return i;
            }
            i += 1;
        } else {
            proof {
                assert(ps@[index_of_first(ps@, p)] != p);
            }
            return 0;
        }
    }
}

/// Whether a point is already registered.
fn point_known(ps: &Vec<Point>, p: Point) -> (r: bool)
    ensures
        r == ps@.contains(p),
{
    let mut i: usize = 0;
    while i < ps.len()
        invariant
            0 <= i <= ps@.len(),
            forall|k: int| 0 <= k < i ==> ps@[k] != p,
        decreases ps@.len() - i,
    {
        if ps[i] == p {
            return true;
        }
        i += 1;
    }
    false
}

/// A ring with its closing duplicate vertex dropped.
fn open_ring_exec(r: &Vec<Point>) -> (out: Vec<Point>)
    ensures
        out@ == open_ring(r@),
{
    let n = r.len();
    let mut out: Vec<Point> = Vec::new();
    let take_n = if n > 0 && r[n - 1] == r[0] {
        n - 1
    } else {
        n
    };
    let mut i: usize = 0;
    while i < take_n
        invariant
            0 <= i <= take_n <= r@.len(),
            out@ == r@.take(i as int),
        decreases take_n - i,
    {
        out.push(r[i]);
        proof {
            assert(out@ =~= r@.take(i + 1));
        }
        i += 1;
    }
    proof {
        assert(out@ =~= open_ring(r@));
    }
    out
}

/// Register one open ring: add its unseen vertices to the point list, then
/// append its cyclic edges as index pairs into that list.
fn process_ring(
    points: &mut Vec<Point>,
    edges: &mut Vec<(usize, usize)>,
    ring: Vec<Point>,
    Ghost(rs): Ghost<Seq<Seq<Point>>>,
)
    requires
        old(points)@ == dedup(ring_vertices(rs)),
        edges_match(old(edges)@, index_edges(rs)),
    ensures
        final(points)@ == dedup(ring_vertices(rs.push(ring@))),
        edges_match(final(edges)@, index_edges(rs.push(ring@))),
{
    let ghost rs2 = rs.push(ring@);
    proof {
        assert(rs2.drop_last() =~= rs);
        assert(rs2.last() == ring@);
    }
    let mut v: usize = 0;
    while v < ring.len()
        invariant
            0 <= v <= ring@.len(),
            points@ == dedup(ring_vertices(rs) + ring@.take(v as int)),
        decreases ring@.len() - v,
    {
        let ghost vs = ring_vertices(rs) + ring@.take(v as int);
        proof {
            assert((ring_vertices(rs) + ring@.take(v + 1)).drop_last() =~= vs);
            assert((ring_vertices(rs) + ring@.take(v + 1)).last() == ring@[v as int]);
        }
        let p = ring[v];
        if !point_known(points, p) {
            points.push(p);
        }
        v += 1;
    }
    proof {
        assert(ring_vertices(rs) + ring@.take(ring@.len() as int) =~= ring_vertices(rs2));
        assert(points@ == dedup(ring_vertices(rs2)));
    }
    let n = ring.len();
    let mut k: usize = 0;
    while k < n
        invariant
            0 <= k <= n,
            n == ring@.len(),
            points@ == dedup(ring_vertices(rs2)),
            rs2 == rs.push(ring@),
            edges_match(edges@, index_edges(rs) + ring_cyclic_edges(ring@, points@).take(k as int)),
        decreases n - k,
    {
        let succ = if k + 1 < n {
            k + 1
        } else {
            0
        };
        proof {
            assert(rs2.drop_last() =~= rs);
            assert(rs2.last() == ring@);
            assert(ring_vertices(rs2) =~= ring_vertices(rs) + ring@);
            assert(ring_vertices(rs2).contains(ring@[k as int])) by {
                assert((ring_vertices(rs) + ring@)[ring_vertices(rs).len() + k] == ring@[k as int]);
            }
            lemma_dedup_contains(ring_vertices(rs2), ring@[k as int]);
            assert(ring_vertices(rs2).contains(ring@[succ as int])) by {
                assert((ring_vertices(rs) + ring@)[ring_vertices(rs).len() + succ]
                    == ring@[succ as int]);
            }
            lemma_dedup_contains(ring_vertices(rs2), ring@[succ as int]);
            assert(succ == (k as int + 1) % (n as int)) by {
                if k + 1 < n {
                    lemma_small_mod((k + 1) as nat, n as nat);
                } else {
                    lemma_mod_self_0(n as int);
                }
            }
        }
        let ia = lookup_exec(points, ring[k]);
        let ib = lookup_exec(points, ring[succ]);
        edges.push((ia, ib));
        k += 1;
    }
    proof {
        assert(ring_cyclic_edges(ring@, points@).take(n as int) =~= ring_cyclic_edges(
            ring@,
            points@,
        ));
        assert(edges_match(edges@, index_edges(rs2))) by {
            assert(index_edges(rs2) =~= index_edges(rs) + ring_cyclic_edges(
                ring@,
                dedup(ring_vertices(rs2)),
            ));
        }
    }
}

/// Flatten the polygons' rings — interior rings first, exterior last, each
/// without its closing duplicate — into a deduplicated point list in
/// first-occurrence order, and the rings' cyclic edges as index pairs into
/// that list. This is the input an index-based constrained triangulation
/// takes.
pub fn index_rings(polys: &Vec<Polygon>) -> (r: (Vec<Point>, Vec<(usize, usize)>))
    ensures
        r.0@ == dedup(ring_vertices(indexing_rings(polys@))),
        edges_match(r.1@, index_edges(indexing_rings(polys@))),
{
    let mut points: Vec<Point> = Vec::new();
    let mut edges: Vec<(usize, usize)> = Vec::new();
    let mut pi: usize = 0;
    while pi < polys.len()
        invariant
            0 <= pi <= polys@.len(),
            points@ == dedup(ring_vertices(indexing_rings(polys@.take(pi as int)))),
            edges_match(edges@, index_edges(indexing_rings(polys@.take(pi as int)))),
        decreases polys@.len() - pi,
    {
        let ghost rl = poly_ring_list(polys@[pi as int]).map_values(|r: Seq<Point>| open_ring(r));
        let ghost base = indexing_rings(polys@.take(pi as int));
        let mut ri: usize = 0;
        let n_int = polys[pi].interiors.len();
        while ri < n_int
            invariant
                0 <= ri <= n_int,
                0 <= pi < polys@.len(),
                n_int == polys@[pi as int].interiors@.len(),
                rl == poly_ring_list(polys@[pi as int]).map_values(|r: Seq<Point>| open_ring(r)),
                base == indexing_rings(polys@.take(pi as int)),
                points@ == dedup(ring_vertices(base + rl.take(ri as int))),
                edges_match(edges@, index_edges(base + rl.take(ri as int))),
            decreases n_int - ri,
        {
            let ring = open_ring_exec(&polys[pi].interiors[ri]);
            proof {
                assert(rl[ri as int] == open_ring(polys@[pi as int].interiors@[ri as int]@));
                assert((base + rl.take(ri as int)).push(ring@) =~= base + rl.take(ri + 1));
            }
            process_ring(&mut points, &mut edges, ring, Ghost(base + rl.take(ri as int)));
            ri += 1;
        }
        let ring = open_ring_exec(&polys[pi].exterior);
        proof {
            assert(rl[n_int as int] == open_ring(polys@[pi as int].exterior@));
            assert((base + rl.take(n_int as int)).push(ring@) =~= base + rl.take(n_int + 1));
        }
        process_ring(&mut points, &mut edges, ring, Ghost(base + rl.take(n_int as int)));
        proof {
            assert(rl.take(n_int + 1) =~= rl);
            assert(polys@.take(pi + 1).drop_last() =~= polys@.take(pi as int));
            assert(polys@.take(pi + 1).last() == polys@[pi as int]);
            assert(indexing_rings(polys@.take(pi + 1)) =~= base + rl);
        }
        pi += 1;
    }
    proof {
        assert(polys@.take(polys@.len() as int) =~= polys@);
    }
    (points, edges)
}

} // verus!
