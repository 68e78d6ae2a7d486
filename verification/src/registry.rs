//! The point registry: deduplicates near-coincident coordinates by snapping
//! every incoming point to the nearest already-registered point when that one
//! lies within the configured epsilon.
use vstd::prelude::*;

use crate::geom::{COORD_LIMIT, Point, lemma_mul_bound};

verus! {

/// Squared Euclidean distance between two points.
pub open spec fn dist2(p: Point, q: Point) -> int {
    (p.x - q.x) * (p.x - q.x) + (p.y - q.y) * (p.y - q.y)
}

/// Index of the first registered point at minimal squared distance from
/// `p`, scanning left to right and replacing only on a strictly smaller
/// distance.
pub open spec fn nearest_in(ps: Seq<Point>, p: Point) -> int
    decreases ps.len(),
{
    if ps.len() <= 1 {
        0
    } else {
        let r = nearest_in(ps.drop_last(), p);
        if dist2(ps.last(), p) < dist2(ps[r], p) {
            ps.len() - 1
        } else {
            r
        }
    }
}

/// The canonical point that snapping `p` against `ps` yields: the nearest
/// registered point if it lies strictly within epsilon, otherwise `p`
/// itself.
pub open spec fn snap_result(ps: Seq<Point>, p: Point, eps: i64) -> Point {
    if ps.len() > 0 && dist2(ps[nearest_in(ps, p)], p) < eps * eps {
        ps[nearest_in(ps, p)]
    } else {
        p
    }
}

/// The registry contents after snapping `p`: unchanged on a merge, extended
/// by `p` on a fresh registration.
pub open spec fn snap_registry(ps: Seq<Point>, p: Point, eps: i64) -> Seq<Point> {
    if ps.len() > 0 && dist2(ps[nearest_in(ps, p)], p) < eps * eps {
        ps
    } else {
        ps.push(p)
    }
}

/// An ordered collection of canonical coordinates already seen, with the
/// snapping epsilon it was built with.
pub struct PointRegistry {
    pub points: Vec<Point>,
    pub eps: i64,
}

impl PointRegistry {
    /// Registry invariant: a valid epsilon, every registered point in
    /// range, and no two distinct registered points within epsilon of each
    /// other.
    pub open spec fn wf(self) -> bool {
        &&& 0 <= self.eps <= COORD_LIMIT
        &&& forall|i: int| 0 <= i < self.points@.len() ==> (#[trigger] self.points@[i]).in_range()
        &&& forall|i: int, j: int|
            0 <= i < self.points@.len() && 0 <= j < self.points@.len() && i != j ==> dist2(
                self.points@[i],
                self.points@[j],
            ) >= self.eps * self.eps
    }

    /// An empty registry with the given snapping epsilon (in grid units).
    pub fn new(eps: i64) -> (r: PointRegistry)
        requires
            0 <= eps <= COORD_LIMIT,
        ensures
            r.points@ == Seq::<Point>::empty(),
            r.eps == eps,
            r.wf(),
    {
        PointRegistry { points: Vec::new(), eps }
    }

    /// Snap `p` to the nearest registered point when that one lies strictly
    /// within epsilon; otherwise register `p` as a new canonical point and
    /// return it. Registration always succeeds; the registry only grows.
    pub fn snap_or_register_point(&mut self, p: Point) -> (q: Point)
        requires
            old(self).wf(),
            p.in_range(),
        ensures
            q == snap_result(old(self).points@, p, old(self).eps),
            final(self).points@ == snap_registry(old(self).points@, p, old(self).eps),
            final(self).eps == old(self).eps,
            final(self).wf(),
            q.in_range(),
    {
        let ghost ps = self.points@;
        if self.points.len() == 0 {
            self.points.push(p);
            return p;
        }
        let mut best: usize = 0;
        let mut bd: i128 = dist2_exec(self.points[0], p);
        let mut i: usize = 1;
        while i < self.points.len()
            invariant
                self == old(self),
                1 <= i <= ps.len(),
                ps.len() >= 1,
                ps == self.points@,
                old(self).wf(),
                p.in_range(),
                0 <= best < i,
                bd == dist2(ps[best as int], p),
                best == nearest_in(ps.take(i as int), p),
            decreases ps.len() - i,
        {
            proof {
                assert(ps.take(i as int + 1).drop_last() =~= ps.take(i as int));
                assert(ps.take(i as int + 1).last() == ps[i as int]);
            }
            let d = dist2_exec(self.points[i], p);
            if d < bd {
                best = i;
                bd = d;
            }
            i += 1;
        }
        proof {
            assert(ps.take(ps.len() as int) =~= ps);
        }
        let e = self.eps;
        proof {
            lemma_mul_bound(e as int, e as int, COORD_LIMIT as int);
        }
        if bd < (e as i128) * (e as i128) {
            self.points[best]
        } else {
            proof {
                lemma_nearest_is_min(ps, p);
                assert forall|j: int| 0 <= j < ps.len() implies #[trigger] dist2(p, ps[j])
                    >= self.eps * self.eps by {
                    lemma_dist2_sym(p, ps[j]);
                };
            }
            self.points.push(p);
            p
        }
    }

    /// Number of registered canonical points.
    pub fn len(&self) -> (n: usize)
        ensures
            n == self.points@.len(),
    {
        self.points.len()
    }
}

/// Exact squared distance, evaluated in `i128` without overflow.
pub fn dist2_exec(p: Point, q: Point) -> (d: i128)
    requires
        p.in_range(),
        q.in_range(),
    ensures
        d == dist2(p, q),
{
    let dx: i128 = (p.x as i128) - (q.x as i128);
    let dy: i128 = (p.y as i128) - (q.y as i128);
    proof {
        lemma_mul_bound(dx as int, dx as int, 2 * COORD_LIMIT as int);
        lemma_mul_bound(dy as int, dy as int, 2 * COORD_LIMIT as int);
    }
    dx * dx + dy * dy
}

/// The nearest index really is an index, and no registered point is closer
/// to `p` than the one it selects.
pub proof fn lemma_nearest_is_min(ps: Seq<Point>, p: Point)
    requires
        ps.len() > 0,
    ensures
        0 <= nearest_in(ps, p) < ps.len(),
        forall|i: int| 0 <= i < ps.len() ==> dist2(ps[nearest_in(ps, p)], p) <= dist2(
            #[trigger] ps[i],
            p,
        ),
    decreases ps.len(),
{
    if ps.len() > 1 {
        let pre = ps.drop_last();
        lemma_nearest_is_min(pre, p);
        let r = nearest_in(pre, p);
        assert forall|i: int| 0 <= i < ps.len() implies dist2(ps[nearest_in(ps, p)], p) <= dist2(
            #[trigger] ps[i],
            p,
        ) by {
            if i < ps.len() - 1 {
                assert(pre[i] == ps[i]);
                assert(dist2(pre[r], p) <= dist2(pre[i], p));
            }
        }
    }
}

/// A point is at distance zero only from itself.
pub proof fn lemma_dist2_zero(p: Point, q: Point)
    by (nonlinear_arith)
    ensures
        dist2(p, q) == 0 <==> p == q,
        dist2(p, q) >= 0,
{
}

/// Squared distance is symmetric.
pub proof fn lemma_dist2_sym(p: Point, q: Point)
    by (nonlinear_arith)
    ensures
        dist2(p, q) == dist2(q, p),
{
}

/// Idempotence of registration: snapping the canonical point that a snap
/// returned yields that same point again, and with a positive epsilon the
/// registry does not change a second time.
pub proof fn lemma_snap_idempotent(ps: Seq<Point>, p: Point, eps: i64)
    requires
        eps >= 0,
    ensures
        snap_result(snap_registry(ps, p, eps), snap_result(ps, p, eps), eps) == snap_result(
            ps,
            p,
            eps,
        ),
        eps > 0 ==> snap_registry(snap_registry(ps, p, eps), snap_result(ps, p, eps), eps)
            == snap_registry(ps, p, eps),
{
    let q = snap_result(ps, p, eps);
    let ps2 = snap_registry(ps, p, eps);
    lemma_dist2_zero(q, q);
    if ps.len() > 0 && dist2(ps[nearest_in(ps, p)], p) < eps * eps {
        // merged into an existing canonical point: that point is in the
        // registry at distance zero, so it snaps to itself
        lemma_nearest_is_min(ps, p);
        lemma_snap_self_member(ps, q, eps, nearest_in(ps, p));
    } else {
        // freshly registered: p now sits in the registry at distance zero
        lemma_snap_self_member(ps2, q, eps, ps2.len() - 1);
    }
}

/// Snapping a point that is itself registered returns that point, and with
/// a positive epsilon leaves the registry unchanged.
proof fn lemma_snap_self_member(ps: Seq<Point>, q: Point, eps: i64, k: int)
    requires
        0 <= k < ps.len(),
        ps[k] == q,
        eps >= 0,
    ensures
        snap_result(ps, q, eps) == q,
        eps > 0 ==> snap_registry(ps, q, eps) == ps,
{
    lemma_nearest_is_min(ps, q);
    let n = nearest_in(ps, q);
    lemma_dist2_zero(ps[k], q);
    lemma_dist2_zero(ps[n], q);
    if eps > 0 {
        assert(eps * eps > 0) by (nonlinear_arith)
            requires
                eps > 0,
        ;
    }
}

/// Clustering collapses: when some registered point already lies within
/// epsilon of `p`, snapping `p` merges it and registers nothing new. A run
/// of points all within epsilon of one canonical point therefore yields
/// exactly that one canonical point.
pub proof fn lemma_snap_merges_cluster(ps: Seq<Point>, p: Point, eps: i64, k: int)
    requires
        0 <= k < ps.len(),
        dist2(ps[k], p) < eps * eps,
    ensures
        snap_registry(ps, p, eps) == ps,
        dist2(snap_result(ps, p, eps), p) < eps * eps,
{
    lemma_nearest_is_min(ps, p);
}

} // verus!
