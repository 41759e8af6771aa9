//! A narrow-phase collision-detection geometry kernel over exact integer
//! coordinates.
//!
//! Two components form the core:
//!
//! * a support-mapping algebra: implicit Minkowski sums of two placed convex
//!   shapes, a reflection adapter, and an annotated variant that tracks which
//!   original point of each operand produced every computed sum point
//!   (the configuration-space-obstacle support used by convex distance
//!   algorithms such as GJK);
//! * a composite-shape-vs-any-shape proximity dispatcher: a best-first
//!   branch-and-bound search over the bounding-volume tree of a composite
//!   shape, pruning subtrees whose bounding volume cannot lie within the
//!   query margin of the other shape, and classifying the pair as disjoint,
//!   within the margin, or intersecting.

pub mod vec2;
pub mod placement;
pub mod implicit;
pub mod minkowski_sum;
pub mod proximity;
pub mod ray;
