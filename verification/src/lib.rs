//! Derivation graph resolution, build-order planning, and interactive
//! graph navigation for a content-addressed build system.
//!
//! A derivation is a named unit of build work described by an on-disk
//! descriptor.  The resolver links descriptors into a directed graph,
//! the planner computes a leaves-first build order over that graph, and
//! the navigator maintains tree-view state (expansion, scroll,
//! selection) for interactive inspection.

use vstd::prelude::*;

pub mod descriptor;
pub mod graph;
pub mod navigator;
pub mod planner;
pub mod resolver;

verus! {

/// Direction of a selection movement in the navigator.
pub enum Direction {
    Up,
    Down,
}

} // verus!
