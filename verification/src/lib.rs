//! Boolean set operations on simple polygons with holes, built on a
//! triangulation pipeline: polygons are flattened to snapped segments, the
//! segment set is resolved into a planar arrangement, an external constrained
//! triangulation consumes the arrangement, and the resulting triangles are
//! classified by which input polygons contain their centroids.
//!
//! All geometry here works on exact fixed-point coordinates; callers choose
//! the grid (for example, one step per 1e-4 world units) and hand the final
//! planar arrangement to whatever triangulation primitive they use.
pub mod geom;
pub mod intersect;
pub mod registry;
pub mod extract;
pub mod resolve;
pub mod classify;
pub mod boolops;
pub mod indexing;
