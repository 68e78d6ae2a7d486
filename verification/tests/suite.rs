use polygon_boolops::boolops::{
    difference_triangulation, general_intersection_triangulation, intersection_triangulation,
    resolve_polygons, symmetric_difference_triangulation,
};
use polygon_boolops::classify::{Triangle, triangle_in_polygon};
use polygon_boolops::extract::{Polygon, polys_to_lines};
use polygon_boolops::geom::{Point, Segment};
use polygon_boolops::indexing::index_rings;
use polygon_boolops::intersect::{SegIntersection, segment_intersection};
use polygon_boolops::registry::PointRegistry;
use polygon_boolops::resolve::{SpadeBoolopsError, find_intersecting_lines, resolve_lines};

use geo::{Area, StitchTriangles};
use spade::{ConstrainedDelaunayTriangulation, Point2, Triangulation};

fn pt(x: i64, y: i64) -> Point {
    Point::new(x, y)
}

fn seg(ax: i64, ay: i64, bx: i64, by: i64) -> Segment {
    Segment::new(pt(ax, ay), pt(bx, by))
}

fn square(x0: i64, y0: i64, side: i64) -> Polygon {
    Polygon::from_exterior(vec![
        pt(x0, y0),
        pt(x0 + side, y0),
        pt(x0 + side, y0 + side),
        pt(x0, y0 + side),
    ])
}

/// Feed a planar arrangement to the constrained Delaunay triangulation and
/// collect its interior faces as fixed-point triangles. Inserted
/// coordinates are integers well below 2^53, so they survive the trip
/// through f64 exactly.
fn triangulate_with_spade(lines: &Vec<Segment>) -> Vec<Triangle> {
    let mut cdt: ConstrainedDelaunayTriangulation<Point2<f64>> =
        ConstrainedDelaunayTriangulation::new();
    for s in lines.iter() {
        let a = cdt.insert(Point2::new(s.a.x as f64, s.a.y as f64)).unwrap();
        let b = cdt.insert(Point2::new(s.b.x as f64, s.b.y as f64)).unwrap();
        assert!(cdt.can_add_constraint(a, b));
        cdt.add_constraint(a, b);
    }
    cdt.inner_faces()
        .map(|f| {
            let ps = f.positions();
            Triangle::new(
                pt(ps[0].x.round() as i64, ps[0].y.round() as i64),
                pt(ps[1].x.round() as i64, ps[1].y.round() as i64),
                pt(ps[2].x.round() as i64, ps[2].y.round() as i64),
            )
        })
        .collect()
}

fn double_area(t: &Triangle) -> i64 {
    ((t.b.x - t.a.x) * (t.c.y - t.a.y) - (t.b.y - t.a.y) * (t.c.x - t.a.x)).abs()
}

fn total_double_area(ts: &Vec<Triangle>) -> i64 {
    ts.iter().map(double_area).sum()
}

// Idempotence of registration: snapping the same point twice returns the
// same canonical coordinate, and the registry does not grow again.
#[test]
fn snap_same_point_twice() {
    let mut reg = PointRegistry::new(2);
    let p = reg.snap_or_register_point(pt(100, 100));
    assert_eq!(p, pt(100, 100));
    assert_eq!(reg.len(), 1);
    let q = reg.snap_or_register_point(pt(100, 100));
    assert_eq!(q, pt(100, 100));
    assert_eq!(reg.len(), 1);
}

// Registering a cluster of points within epsilon of the first yields
// exactly one canonical point.
#[test]
fn snap_cluster_collapses() {
    let mut reg = PointRegistry::new(2);
    assert_eq!(reg.snap_or_register_point(pt(0, 0)), pt(0, 0));
    assert_eq!(reg.snap_or_register_point(pt(1, 0)), pt(0, 0));
    assert_eq!(reg.snap_or_register_point(pt(0, 1)), pt(0, 0));
    assert_eq!(reg.snap_or_register_point(pt(1, 1)), pt(0, 0));
    assert_eq!(reg.len(), 1);
}

// The nearest registered point wins, and the first such point on a tie.
#[test]
fn snap_picks_nearest_registered() {
    let mut reg = PointRegistry::new(3);
    reg.snap_or_register_point(pt(0, 0));
    reg.snap_or_register_point(pt(10, 0));
    assert_eq!(reg.len(), 2);
    assert_eq!(reg.snap_or_register_point(pt(9, 1)), pt(10, 0));
    assert_eq!(reg.len(), 2);
    assert_eq!(reg.snap_or_register_point(pt(5, 0)), pt(5, 0));
    assert_eq!(reg.len(), 3);
}

#[test]
fn proper_crossing_reports_grid_point() {
    let r = segment_intersection(seg(0, 0, 10, 10), seg(0, 10, 10, 0));
    assert_eq!(r, Some(SegIntersection::SinglePoint(pt(5, 5))));
}

// A T-junction is not a proper crossing: the touching endpoint is not
// interior to both segments.
#[test]
fn t_junction_is_not_breaking() {
    let r = segment_intersection(seg(0, 0, 10, 0), seg(5, -5, 5, 0));
    assert_eq!(r, None);
}

#[test]
fn shared_endpoint_is_not_breaking() {
    let r = segment_intersection(seg(0, 0, 10, 0), seg(10, 0, 20, 10));
    assert_eq!(r, None);
}

#[test]
fn collinear_touch_is_not_breaking() {
    let r = segment_intersection(seg(0, 0, 10, 0), seg(10, 0, 20, 0));
    assert_eq!(r, None);
}

#[test]
fn collinear_overlap_is_breaking() {
    let r = segment_intersection(seg(0, 0, 20, 0), seg(10, 0, 30, 0));
    assert_eq!(r, Some(SegIntersection::CollinearOverlap));
    let r2 = segment_intersection(seg(0, 0, 30, 0), seg(10, 0, 20, 0));
    assert_eq!(r2, Some(SegIntersection::CollinearOverlap));
}

// Collinear overlap: the pair is split into exactly three non-degenerate
// segments covering the union of both originals with no gaps.
#[test]
fn collinear_overlap_splits_into_three() {
    let lines = vec![seg(0, 0, 20, 0), seg(10, 0, 30, 0)];
    let mut reg = PointRegistry::new(1);
    let out = resolve_lines(&lines, &mut reg, 100).unwrap();
    assert_eq!(
        out,
        vec![seg(0, 0, 10, 0), seg(10, 0, 20, 0), seg(20, 0, 30, 0)]
    );
}

// A collinear overlap whose segments share an endpoint leaves only two
// fragments: the zero-length piece between the coincident endpoints is
// degenerate and is dropped.
#[test]
fn collinear_overlap_shared_endpoint() {
    let lines = vec![seg(0, 0, 20, 0), seg(0, 0, 10, 0)];
    let mut reg = PointRegistry::new(1);
    let out = resolve_lines(&lines, &mut reg, 100).unwrap();
    assert_eq!(out, vec![seg(0, 0, 10, 0), seg(10, 0, 20, 0)]);
}

// A proper crossing is replaced by four spokes meeting at the crossing.
#[test]
fn crossing_splits_into_four() {
    let lines = vec![seg(0, 0, 10, 10), seg(0, 10, 10, 0)];
    let mut reg = PointRegistry::new(1);
    let out = resolve_lines(&lines, &mut reg, 100).unwrap();
    assert_eq!(out.len(), 4);
    assert!(out.contains(&seg(0, 0, 5, 5)));
    assert!(out.contains(&seg(10, 10, 5, 5)));
    assert!(out.contains(&seg(0, 10, 5, 5)));
    assert!(out.contains(&seg(10, 0, 5, 5)));
    // arrangement planarity: the resolved set reports no breaking pair
    assert!(find_intersecting_lines(&out).is_none());
}

// Loop-trap bound: an input that cannot converge within the configured cap
// fails with LoopTrap carrying the original segment set, and never hangs.
#[test]
fn loop_trap_at_cap() {
    let lines = vec![seg(0, 0, 10, 10), seg(0, 10, 10, 0)];
    let mut reg = PointRegistry::new(1);
    match resolve_lines(&lines, &mut reg, 0) {
        Err(SpadeBoolopsError::LoopTrap(orig)) => assert_eq!(orig, lines),
        other => panic!("expected LoopTrap, got {:?}", other),
    }
}

#[test]
fn error_messages_name_the_failure() {
    let e = SpadeBoolopsError::LoopTrap(vec![]);
    assert!(e.message().contains("iteration cap"));
    assert!(SpadeBoolopsError::ConstraintFailure.message().contains("constraint"));
    assert!(SpadeBoolopsError::InsertionFailure.message().contains("insertion"));
}

// Extraction: a square yields its four edges, snapped and deduplicated.
#[test]
fn extract_square_edges() {
    let polys = vec![square(0, 0, 100)];
    let (reg, lines) = polys_to_lines(&polys, 1);
    assert_eq!(reg.len(), 4);
    assert_eq!(
        lines,
        vec![
            seg(0, 0, 100, 0),
            seg(100, 0, 100, 100),
            seg(100, 100, 0, 100),
            seg(0, 100, 0, 0)
        ]
    );
}

// Extraction drops a shared edge's duplicate whichever way round it runs.
#[test]
fn extract_dedups_shared_edge() {
    let polys = vec![square(0, 0, 100), square(100, 0, 100)];
    let (_, lines) = polys_to_lines(&polys, 1);
    assert_eq!(lines.len(), 7);
    let n = lines
        .iter()
        .filter(|l| {
            (l.a == pt(100, 0) && l.b == pt(100, 100)) || (l.a == pt(100, 100) && l.b == pt(100, 0))
        })
        .count();
    assert_eq!(n, 1);
}

// Extraction drops degenerate edges left by snapping near-duplicate
// vertices.
#[test]
fn extract_drops_degenerate_edges() {
    let poly = Polygon::from_exterior(vec![pt(0, 0), pt(100, 0), pt(100, 1), pt(100, 100)]);
    let (reg, lines) = polys_to_lines(&vec![poly], 2);
    // (100, 1) snaps onto (100, 0): its edge from (100, 0) collapses
    assert_eq!(reg.len(), 3);
    assert_eq!(
        lines,
        vec![seg(0, 0, 100, 0), seg(100, 0, 100, 100), seg(100, 100, 0, 0)]
    );
}

// The containment wrapper distinguishes inside, outside and hole points.
#[test]
fn centroid_containment_with_holes() {
    let poly = Polygon {
        exterior: vec![pt(0, 0), pt(100, 0), pt(100, 100), pt(0, 100)],
        interiors: vec![vec![pt(40, 40), pt(60, 40), pt(60, 60), pt(40, 60)]],
    };
    let inside = Triangle::new(pt(10, 10), pt(20, 10), pt(10, 20));
    let outside = Triangle::new(pt(200, 200), pt(210, 200), pt(200, 210));
    let in_hole = Triangle::new(pt(45, 45), pt(55, 45), pt(45, 55));
    assert!(triangle_in_polygon(&inside, &poly));
    assert!(!triangle_in_polygon(&outside, &poly));
    assert!(!triangle_in_polygon(&in_hole, &poly));
}

// Classification keeps exactly the triangles the predicate selects.
#[test]
fn classifiers_filter_by_centroid() {
    let a = square(0, 0, 100);
    let b = square(50, 0, 100);
    // one triangle in A only, one in the overlap, one in B only
    let t_a = Triangle::new(pt(10, 10), pt(20, 10), pt(10, 20));
    let t_ab = Triangle::new(pt(70, 10), pt(80, 10), pt(70, 20));
    let t_b = Triangle::new(pt(120, 10), pt(130, 10), pt(120, 20));
    let tris = vec![t_a, t_ab, t_b];
    assert_eq!(intersection_triangulation(&tris, &a, &b), vec![t_ab]);
    assert_eq!(difference_triangulation(&tris, &a, &b), vec![t_a]);
    assert_eq!(difference_triangulation(&tris, &b, &a), vec![t_b]);
    assert_eq!(symmetric_difference_triangulation(&tris, &a, &b), vec![t_a, t_b]);
}

// Symmetry: intersection keeps the same triangles whichever way round its
// operands come; difference in general does not.
#[test]
fn intersection_symmetric_difference_not() {
    let a = square(0, 0, 100);
    let b = square(50, 0, 100);
    let t_a = Triangle::new(pt(10, 10), pt(20, 10), pt(10, 20));
    let t_ab = Triangle::new(pt(70, 10), pt(80, 10), pt(70, 20));
    let t_b = Triangle::new(pt(120, 10), pt(130, 10), pt(120, 20));
    let tris = vec![t_a, t_ab, t_b];
    assert_eq!(
        intersection_triangulation(&tris, &a, &b),
        intersection_triangulation(&tris, &b, &a)
    );
    assert_ne!(
        difference_triangulation(&tris, &a, &b),
        difference_triangulation(&tris, &b, &a)
    );
}

// The general rule keeps triangles whose centroid lies in at least two of
// the polygons.
#[test]
fn general_intersection_needs_two() {
    let a = square(0, 0, 100);
    let b = square(50, 0, 100);
    let c = square(0, 50, 100);
    let polys = vec![a, b, c];
    let t_one = Triangle::new(pt(10, 10), pt(20, 10), pt(10, 20));
    let t_two = Triangle::new(pt(70, 10), pt(80, 10), pt(70, 20));
    let t_three = Triangle::new(pt(70, 70), pt(80, 70), pt(70, 80));
    let tris = vec![t_one, t_two, t_three];
    assert_eq!(
        general_intersection_triangulation(&tris, &polys),
        vec![t_two, t_three]
    );
}

// Degenerate input: two disjoint squares produce an empty intersection,
// and the difference returns each square's full area.
#[test]
fn disjoint_squares() {
    let a = square(0, 0, 10000);
    let b = square(20000, 0, 10000);
    let polys = vec![square(0, 0, 10000), square(20000, 0, 10000)];
    let lines = resolve_polygons(&polys, 1, 1000).unwrap();
    assert!(find_intersecting_lines(&lines).is_none());
    let tris = triangulate_with_spade(&lines);
    assert_eq!(intersection_triangulation(&tris, &a, &b), vec![]);
    let diff = difference_triangulation(&tris, &a, &b);
    assert_eq!(total_double_area(&diff), 2 * 10000 * 10000);
    let diff_rev = difference_triangulation(&tris, &b, &a);
    assert_eq!(total_double_area(&diff_rev), 2 * 10000 * 10000);
}

// Concrete scenario: a unit square against itself shifted by half its side
// in both axes. The intersection is the quarter square; the one-sided
// difference is the L-shaped three quarters.
#[test]
fn half_shifted_squares() {
    let a = square(0, 0, 10000);
    let b = square(5000, 5000, 10000);
    let polys = vec![square(0, 0, 10000), square(5000, 5000, 10000)];
    let lines = resolve_polygons(&polys, 1, 1000).unwrap();
    assert!(find_intersecting_lines(&lines).is_none());
    let tris = triangulate_with_spade(&lines);
    let inter = intersection_triangulation(&tris, &a, &b);
    assert_eq!(total_double_area(&inter), 2 * 5000 * 5000);
    for t in inter.iter() {
        assert!(t.a.x >= 5000 && t.a.x <= 10000 && t.a.y >= 5000 && t.a.y <= 10000);
        assert!(t.b.x >= 5000 && t.b.x <= 10000 && t.b.y >= 5000 && t.b.y <= 10000);
        assert!(t.c.x >= 5000 && t.c.x <= 10000 && t.c.y >= 5000 && t.c.y <= 10000);
    }
    let diff = difference_triangulation(&tris, &a, &b);
    // area 0.75 of the unit square, in doubled grid units
    assert_eq!(total_double_area(&diff), 150_000_000);
    let sym = symmetric_difference_triangulation(&tris, &a, &b);
    assert_eq!(total_double_area(&sym), 300_000_000);
}

// End to end: the classified intersection triangles stitch into a single
// polygon with the expected area.
#[test]
fn stitched_intersection_area() {
    let a = square(0, 0, 10000);
    let b = square(5000, 5000, 10000);
    let polys = vec![square(0, 0, 10000), square(5000, 5000, 10000)];
    let lines = resolve_polygons(&polys, 1, 1000).unwrap();
    let tris = triangulate_with_spade(&lines);
    let inter = intersection_triangulation(&tris, &a, &b);
    let world: Vec<geo::Triangle<f64>> = inter
        .iter()
        .map(|t| {
            geo::Triangle::from([
                geo::Coord { x: t.a.x as f64 / 10000.0, y: t.a.y as f64 / 10000.0 },
                geo::Coord { x: t.b.x as f64 / 10000.0, y: t.b.y as f64 / 10000.0 },
                geo::Coord { x: t.c.x as f64 / 10000.0, y: t.c.y as f64 / 10000.0 },
            ])
        })
        .collect();
    let mp = world.stitch_triangulation().unwrap();
    assert_eq!(mp.0.len(), 1);
    assert!((mp.unsigned_area() - 0.25).abs() < 1e-9);
}

// Hole awareness end to end: a polygon contained in another's hole
// intersects it nowhere, and subtracting it changes nothing.
#[test]
fn hole_swallows_operand() {
    let a = Polygon {
        exterior: vec![pt(0, 0), pt(10000, 0), pt(10000, 10000), pt(0, 10000)],
        interiors: vec![vec![pt(3000, 3000), pt(7000, 3000), pt(7000, 7000), pt(3000, 7000)]],
    };
    let b = square(4000, 4000, 2000);
    let polys = vec![a.clone(), square(4000, 4000, 2000)];
    let (_, lines_raw) = polys_to_lines(&polys, 1);
    // hole and inner square contribute their own edges
    assert_eq!(lines_raw.len(), 12);
    let lines = resolve_polygons(&polys, 1, 1000).unwrap();
    let tris = triangulate_with_spade(&lines);
    assert_eq!(intersection_triangulation(&tris, &a, &b), vec![]);
    let diff = difference_triangulation(&tris, &a, &b);
    // the full outer square minus its hole, in doubled grid units
    assert_eq!(total_double_area(&diff), 2 * (10000 * 10000 - 4000 * 4000));
}

// Vertex indexing: a square's vertices in first-occurrence order with its
// four cyclic edges.
#[test]
fn index_square() {
    let polys = vec![square(0, 0, 100)];
    let (points, edges) = index_rings(&polys);
    assert_eq!(points, vec![pt(0, 0), pt(100, 0), pt(100, 100), pt(0, 100)]);
    assert_eq!(edges, vec![(0, 1), (1, 2), (2, 3), (3, 0)]);
}

// Vertex indexing lists hole rings before the exterior and deduplicates
// vertices shared between polygons.
#[test]
fn index_holes_first_and_dedup() {
    let with_hole = Polygon {
        exterior: vec![pt(0, 0), pt(100, 0), pt(100, 100), pt(0, 100)],
        interiors: vec![vec![pt(40, 40), pt(60, 40), pt(60, 60), pt(40, 60)]],
    };
    let (points, edges) = index_rings(&vec![with_hole]);
    assert_eq!(points[0], pt(40, 40));
    assert_eq!(points.len(), 8);
    assert_eq!(edges[0], (0, 1));
    assert_eq!(edges[3], (3, 0));
    assert_eq!(edges[4], (4, 5));
    assert_eq!(edges[7], (7, 4));

    let shared = vec![square(0, 0, 100), square(100, 0, 100)];
    let (points2, edges2) = index_rings(&shared);
    // (100, 0) and (100, 100) appear once
    assert_eq!(points2.len(), 6);
    assert_eq!(edges2.len(), 8);
    // the second square's edges reuse the first occurrence indices
    assert_eq!(edges2[4], (1, 4));
}

// A ring given with an explicit closing duplicate indexes the same as an
// open one.
#[test]
fn index_closed_ring_input() {
    let closed = Polygon::from_exterior(vec![
        pt(0, 0),
        pt(100, 0),
        pt(100, 100),
        pt(0, 100),
        pt(0, 0),
    ]);
    let (points, edges) = index_rings(&vec![closed]);
    assert_eq!(points.len(), 4);
    assert_eq!(edges, vec![(0, 1), (1, 2), (2, 3), (3, 0)]);
}
