//! Hierarchical keys for a discrete global grid on the sphere.
//!
//! The sphere is cut into ten regions of an icosahedral net, each region into two
//! triangles, and each triangle is subdivided recursively. A node of that subdivision
//! is packed into a single `u64` whose leading set bit marks its depth.
use vstd::prelude::*;

pub mod region;
pub mod subdivision;
pub mod packing;
pub mod quadtree;
pub mod octree;
pub mod generation;
pub mod key;
pub mod surface;
pub mod tetra;
