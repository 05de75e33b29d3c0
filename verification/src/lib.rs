//! Adaptive visibility culling for a height-mapped terrain.
//!
//! The terrain is an axis-aligned grid of elevation samples. A virtual
//! kd-tree recursively splits the grid into rectangular patches, classifies
//! each patch against the current projection, and keeps only the patches
//! that may be at least partially visible. No tree is ever materialised:
//! the partition is recomputed from the root patch on every query, and a
//! controller memoises the last result keyed on the exact transform.

pub mod chunk_manager;
pub mod indexing;
pub mod los;
pub mod pipeline;
pub mod quadtree;
