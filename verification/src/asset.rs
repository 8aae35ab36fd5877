//! The loaded-asset wrapper around one dialogue graph.

use vstd::prelude::*;

use crate::graph::DialogueGraph;
use crate::node::clone_opt_string;

verus! {

/// A complete dialogue as loaded from storage: a graph plus an optional
/// asset-level name.
///
/// Once a graph is wrapped in an asset and handed to runners it is treated as
/// read-only "compiled" data; runners only perform lookups against it.
#[derive(Debug)]
pub struct DialogueAsset {
    /// The dialogue graph containing all nodes and connections.
    pub graph: DialogueGraph,
    /// Optional name to identify this dialogue.
    pub name: Option<String>,
}

impl DialogueAsset {
    /// Wraps a graph into an asset, copying the graph's name as the asset
    /// name.
    pub fn new(graph: DialogueGraph) -> (r: Self)
        ensures
            r.graph == graph,
            r.name == graph.name,
    {
        let name = clone_opt_string(&graph.name);
        DialogueAsset { graph, name }
    }
}

} // verus!
