//! Records the control-flow graph of each workflow of a compilation unit from a
//! stream of structural events, and hands them over as a versioned manifest.
use vstd::prelude::*;

pub mod builder;
pub mod laws;
pub mod model;
pub mod text;

pub use builder::GraphBuilder;
pub use model::{GraphEdge, GraphNode, NodeData, Position, WorkflowGraph, WorkflowGraphManifest};

verus! {

} // verus!
