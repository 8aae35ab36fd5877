//! Identifier and connection primitives for dialogue graphs.

use vstd::prelude::*;

verus! {

/// Unique identifier for a node in a dialogue graph.
///
/// A `NodeId` is a stable logical key: it never implies a storage position,
/// and it stays valid across graph mutations.
#[derive(Debug, Clone, Copy, PartialEq, Eq, Hash, Structural)]
pub struct NodeId(pub u32);

/// A directed link to another node, with an optional label.
///
/// For choice nodes the label doubles as the player-visible choice text.
#[derive(Debug)]
pub struct Connection {
    /// The id of the target node.
    pub target_id: NodeId,
    /// Optional label for this connection.
    pub label: Option<String>,
}

/// Data stored on an edge between two dialogue nodes.
#[derive(Debug)]
pub struct ConnectionData {
    /// Optional label for this edge (used as choice text for choice nodes).
    pub label: Option<String>,
}

/// Copies an optional string; the copy holds the very same text.
pub fn clone_opt_string(s: &Option<String>) -> (r: Option<String>)
    ensures
        r == *s,
{
    match s {
        Some(v) => Some(v.clone()),
        None => None,
    }
}

impl Clone for Connection {
    /// The copy equals the original.
    fn clone(&self) -> (r: Self)
        ensures
            r == *self,
    {
        Connection { target_id: self.target_id, label: clone_opt_string(&self.label) }
    }
}

impl Clone for ConnectionData {
    /// The copy equals the original.
    fn clone(&self) -> (r: Self)
        ensures
            r == *self,
    {
        ConnectionData { label: clone_opt_string(&self.label) }
    }
}

impl ConnectionData {
    /// Creates edge data with an optional label.
    pub fn new(label: Option<String>) -> (r: Self)
        ensures
            r.label == label,
    {
        ConnectionData { label }
    }
}

} // verus!
