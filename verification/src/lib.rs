//! A small in-memory graph: values stored as nodes in a slot arena, addressed by
//! generation-checked handles, with a flat list of directed edges between slots.
//!
//! The free list, the edge list and the neighbour lists live in `smallvec`
//! vectors; everything else is verified against the model in [`model`].

use vstd::prelude::*;

pub mod cut;
pub mod graph;
pub mod laws;
pub mod lists;
pub mod model;

pub use cut::Cut;
pub use graph::SmallGraph;
pub use lists::NeighborList;
pub use model::GraphModel;

verus! {

/// Position of a slot in the arena.
pub type NodeIndex = usize;

/// Version counter of a slot.
pub type Generation = usize;

/// What callers hold to address a node: the slot and the generation it had
/// when the handle was given out.
pub type NodeHandle = (NodeIndex, Generation);

} // verus!
