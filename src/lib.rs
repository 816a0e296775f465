//! An octree over points in three dimensions: insertion with lazy
//! subdivision, and exact point lookup.
//!
//! Coordinates and sizes are fixed-point integers, `STEPS_PER_UNIT` steps to
//! one unit of length, so that every comparison and every halving the tree
//! makes is exact.

mod point;
mod node;
mod laws;
mod demo;

pub use point::{Point, STEPS_PER_UNIT, octant_of, child_center, shifted, in_bounds};
pub use node::{OctreeNode, MIN_CELL_SIZE, lookup, child_ok, children_ok, children_contents};
pub use laws::{
    lemma_query_after_insert, lemma_never_inserted_not_found, lemma_reinsert,
    lemma_octant_bijection, lemma_depth,
};
pub use demo::{DEMO_ROOT_SIZE, probe_spec, probe_point, demo_lookup, run_demo};
