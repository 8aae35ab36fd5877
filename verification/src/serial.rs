//! The interchange form of a dialogue graph.
//!
//! A `GraphData` is the plain record a loader or editor exchanges with the
//! library: an ordered list of node records, an ordered list of connection
//! records, the start node and the optional name. `serialize` and
//! `deserialize` translate between it and `DialogueGraph`, and the
//! translation round-trips: deserializing a serialized graph reproduces the
//! same nodes, the same edges in the same order, the same start node and the
//! same name.

use vstd::prelude::*;

use crate::graph::{DialogueGraph, Edge};
use crate::node::{clone_opt_string, ConnectionData, NodeId};
use crate::nodes::DialogueNode;

verus! {

/// The kind tag of a node record.
#[derive(Debug, Clone, Copy, PartialEq, Eq, Structural)]
pub enum NodeKind {
    /// A narrative text node.
    Text,
    /// A branching choice node.
    Choice,
}

/// The record form of one node.
#[derive(Debug)]
pub struct NodeData {
    /// Which variant the record describes.
    pub kind: NodeKind,
    /// The node's stable id.
    pub id: NodeId,
    /// The text content; present exactly for text nodes.
    pub text: Option<String>,
    /// The optional prompt of a choice node.
    pub prompt: Option<String>,
    /// The optional speaker name.
    pub speaker: Option<String>,
    /// The optional portrait identifier.
    pub portrait: Option<String>,
}

impl NodeData {
    /// A record is well-formed when its optional fields match its kind.
    pub open spec fn wf(&self) -> bool {
        match self.kind {
            NodeKind::Text => self.text is Some && self.prompt is None,
            NodeKind::Choice => self.text is None,
        }
    }
}

/// The record form of one directed labeled edge.
#[derive(Debug)]
pub struct ConnectionRecord {
    /// The id of the source node.
    pub from: NodeId,
    /// The id of the target node.
    pub to: NodeId,
    /// The optional label of the edge.
    pub label: Option<String>,
}

/// The record form of a whole dialogue graph.
#[derive(Debug)]
pub struct GraphData {
    /// The node records, in the graph's storage order.
    pub nodes: Vec<NodeData>,
    /// The connection records, in the graph's edge insertion order.
    pub connections: Vec<ConnectionRecord>,
    /// The designated start node id.
    pub start_node: NodeId,
    /// The optional dialogue name.
    pub name: Option<String>,
}

/// The record that describes `n`.
pub open spec fn node_to_data(n: DialogueNode) -> NodeData {
    match n {
        DialogueNode::Text { id, text, speaker, portrait } => NodeData {
            kind: NodeKind::Text,
            id,
            text: Some(text),
            prompt: None,
            speaker,
            portrait,
        },
        DialogueNode::Choice { id, prompt, speaker, portrait } => NodeData {
            kind: NodeKind::Choice,
            id,
            text: None,
            prompt,
            speaker,
            portrait,
        },
    }
}

/// The node a record describes (meaningful for well-formed records).
pub open spec fn data_to_node(d: NodeData) -> DialogueNode {
    match d.kind {
        NodeKind::Text => DialogueNode::Text {
            id: d.id,
            text: d.text->0,
            speaker: d.speaker,
            portrait: d.portrait,
        },
        NodeKind::Choice => DialogueNode::Choice {
            id: d.id,
            prompt: d.prompt,
            speaker: d.speaker,
            portrait: d.portrait,
        },
    }
}

/// The record that describes `e`.
pub open spec fn edge_to_record(e: Edge) -> ConnectionRecord {
    ConnectionRecord { from: e.from, to: e.to, label: e.data.label }
}

/// The edge a connection record describes.
pub open spec fn record_to_edge(c: ConnectionRecord) -> Edge {
    Edge { from: c.from, to: c.to, data: ConnectionData { label: c.label } }
}

/// Describing a node and reading the record back gives the node itself.
pub proof fn lemma_node_round_trip(n: DialogueNode)
    ensures
        node_to_data(n).wf(),
        data_to_node(node_to_data(n)) == n,
{
}

/// Describing an edge and reading the record back gives the edge itself.
pub proof fn lemma_edge_round_trip(e: Edge)
    ensures
        record_to_edge(edge_to_record(e)) == e,
{
}

impl GraphData {
    /// Whether a node record with the given id is present.
    pub open spec fn has_id(&self, id: NodeId) -> bool {
        exists|i: int| 0 <= i < self.nodes@.len() && (#[trigger] self.nodes@[i]).id == id
    }

    /// A record set is well-formed when node records are well-formed with
    /// unique ids and every connection endpoint names a listed node.
    pub open spec fn wf(&self) -> bool {
        &&& forall|i: int| 0 <= i < self.nodes@.len() ==> (#[trigger] self.nodes@[i]).wf()
        &&& forall|i: int, j: int|
            0 <= i < j < self.nodes@.len() ==> (#[trigger] self.nodes@[i]).id != (
            #[trigger] self.nodes@[j]).id
        &&& forall|i: int|
            0 <= i < self.connections@.len() ==> self.has_id(
                (#[trigger] self.connections@[i]).from,
            ) && self.has_id(self.connections@[i].to)
    }
}

impl DialogueGraph {
    /// Writes the graph out as its record form.
    ///
    /// Nodes appear in storage order and connections in edge insertion order,
    /// so the record preserves the per-node outgoing-edge order that choice
    /// indices depend on.
    pub fn serialize(&self) -> (r: GraphData)
        requires
            self.wf(),
        ensures
            r.nodes@.len() == self.nodes_seq().len(),
            forall|i: int|
                0 <= i < r.nodes@.len() ==> r.nodes@[i] == node_to_data(
                    #[trigger] self.nodes_seq()[i],
                ),
            r.connections@.len() == self.edges_seq().len(),
            forall|i: int|
                0 <= i < r.connections@.len() ==> r.connections@[i] == edge_to_record(
                    #[trigger] self.edges_seq()[i],
                ),
            r.start_node == self.start_node,
            r.name == self.name,
            r.wf(),
    {
        let mut nodes: Vec<NodeData> = Vec::new();
        let mut i: usize = 0;
        while i < self.nodes.len()
            invariant
                i <= self.nodes@.len(),
                nodes@.len() == i as int,
                forall|j: int|
                    0 <= j < i as int ==> nodes@[j] == node_to_data(#[trigger] self.nodes@[j]),
            decreases self.nodes@.len() - i,
        {
            let record = match &self.nodes[i] {
                DialogueNode::Text { id, text, speaker, portrait } => NodeData {
                    kind: NodeKind::Text,
                    id: *id,
                    text: Some(text.clone()),
                    prompt: None,
                    speaker: clone_opt_string(speaker),
                    portrait: clone_opt_string(portrait),
                },
                DialogueNode::Choice { id, prompt, speaker, portrait } => NodeData {
                    kind: NodeKind::Choice,
                    id: *id,
                    text: None,
                    prompt: clone_opt_string(prompt),
                    speaker: clone_opt_string(speaker),
                    portrait: clone_opt_string(portrait),
                },
            };
            nodes.push(record);
            i += 1;
        }
        let mut connections: Vec<ConnectionRecord> = Vec::new();
        let mut j: usize = 0;
        while j < self.edges.len()
            invariant
                j <= self.edges@.len(),
                connections@.len() == j as int,
                forall|k: int|
                    0 <= k < j as int ==> connections@[k] == edge_to_record(
                        #[trigger] self.edges@[k],
                    ),
            decreases self.edges@.len() - j,
        {
            let e = &self.edges[j];
            connections.push(
                ConnectionRecord { from: e.from, to: e.to, label: clone_opt_string(&e.data.label) },
            );
            j += 1;
        }
        let r = GraphData {
            nodes,
            connections,
            start_node: self.start_node,
            name: clone_opt_string(&self.name),
        };
        proof {
            self.lemma_wf_ids_unique();
            assert forall|i: int| 0 <= i < r.nodes@.len() implies (#[trigger] r.nodes@[i]).wf() by {
                lemma_node_round_trip(self.nodes_seq()[i]);
                assert(r.nodes@[i] == node_to_data(self.nodes_seq()[i]));
            }
            assert forall|a: int, b: int| 0 <= a < b < r.nodes@.len() implies (
            #[trigger] r.nodes@[a]).id != (#[trigger] r.nodes@[b]).id by {
                assert(self.nodes_seq()[a].spec_id() != self.nodes_seq()[b].spec_id());
                assert(r.nodes@[a].id == self.nodes_seq()[a].spec_id());
                assert(r.nodes@[b].id == self.nodes_seq()[b].spec_id());
            }
            assert forall|k: int| 0 <= k < r.connections@.len() implies r.has_id(
                (#[trigger] r.connections@[k]).from,
            ) && r.has_id(r.connections@[k].to) by {
                assert(self.has_node(self.edges_seq()[k].from));
                assert(self.has_node(self.edges_seq()[k].to));
                let a = choose|a: int|
                    0 <= a < self.nodes_seq().len() && (#[trigger] self.nodes_seq()[a]).spec_id()
                        == self.edges_seq()[k].from;
                assert(r.nodes@[a].id == self.edges_seq()[k].from);
                let b = choose|b: int|
                    0 <= b < self.nodes_seq().len() && (#[trigger] self.nodes_seq()[b]).spec_id()
                        == self.edges_seq()[k].to;
                assert(r.nodes@[b].id == self.edges_seq()[k].to);
            }
        }
        r
    }

    /// Reads a graph back from its record form.
    ///
    /// Node records are inserted in order (a duplicate id overwrites, as
    /// `add_node` does); connection records whose endpoints are absent are
    /// skipped. For a well-formed record set neither case arises and the
    /// result reproduces the records exactly.
    pub fn deserialize(data: &GraphData) -> (r: DialogueGraph)
        ensures
            r.wf(),
            r.start_node == data.start_node,
            r.name == data.name,
            forall|i: int|
                0 <= i < r.edges_seq().len() ==> exists|k: int|
                    0 <= k < data.connections@.len() && (#[trigger] r.edges_seq()[i])
                        == record_to_edge(data.connections@[k]),
            data.wf() ==> {
                &&& r.nodes_seq().len() == data.nodes@.len()
                &&& forall|i: int|
                    0 <= i < data.nodes@.len() ==> r.nodes_seq()[i] == data_to_node(
                        #[trigger] data.nodes@[i],
                    )
                &&& r.edges_seq().len() == data.connections@.len()
                &&& forall|i: int|
                    0 <= i < data.connections@.len() ==> r.edges_seq()[i] == record_to_edge(
                        #[trigger] data.connections@[i],
                    )
            },
    {
        let mut g = DialogueGraph::new(data.start_node);
        let ghost g0 = g;
        g.name = clone_opt_string(&data.name);
        proof {
            assert(g.nodes_seq() == g0.nodes_seq());
            assert(g.edges_seq() == g0.edges_seq());
            assert(g.map_view() == g0.map_view());
            assert(g.wf());
        }
        let mut i: usize = 0;
        while i < data.nodes.len()
            invariant
                g.wf(),
                g.start_node == data.start_node,
                g.name == data.name,
                g.edges_seq().len() == 0,
                i <= data.nodes@.len(),
                data.wf() ==> g.nodes_seq().len() == i as int && forall|j: int|
                    0 <= j < i as int ==> g.nodes_seq()[j] == data_to_node(
                        #[trigger] data.nodes@[j],
                    ),
            decreases data.nodes@.len() - i,
        {
            let d = &data.nodes[i];
            let node = match d.kind {
                NodeKind::Text => DialogueNode::Text {
                    id: d.id,
                    text: match &d.text {
                        Some(t) => t.clone(),
                        None => String::new(),
                    },
                    speaker: clone_opt_string(&d.speaker),
                    portrait: clone_opt_string(&d.portrait),
                },
                NodeKind::Choice => DialogueNode::Choice {
                    id: d.id,
                    prompt: clone_opt_string(&d.prompt),
                    speaker: clone_opt_string(&d.speaker),
                    portrait: clone_opt_string(&d.portrait),
                },
            };
            proof {
                if data.wf() {
                    assert(data.nodes@[i as int].wf());
                    assert(node == data_to_node(data.nodes@[i as int]));
                    assert(node.spec_id() == data.nodes@[i as int].id);
                    assert(!g.has_node(node.spec_id())) by {
                        if g.has_node(node.spec_id()) {
                            let j = choose|j: int|
                                0 <= j < g.nodes_seq().len() && (
                                #[trigger] g.nodes_seq()[j]).spec_id() == node.spec_id();
                            assert(g.nodes_seq()[j] == data_to_node(data.nodes@[j]));
                            assert(data.nodes@[j].id == data.nodes@[i as int].id);
                        }
                    }
                }
            }
            g.add_node(node);
            i += 1;
        }
        let ghost g_nodes = g.nodes_seq();
        let mut j: usize = 0;
        while j < data.connections.len()
            invariant
                g.wf(),
                g.start_node == data.start_node,
                g.name == data.name,
                g.nodes_seq() == g_nodes,
                j <= data.connections@.len(),
                forall|i: int|
                    0 <= i < g.edges_seq().len() ==> exists|k: int|
                        0 <= k < j as int && (#[trigger] g.edges_seq()[i]) == record_to_edge(
                            data.connections@[k],
                        ),
                data.wf() ==> g_nodes.len() == data.nodes@.len() && (forall|jj: int|
                    0 <= jj < data.nodes@.len() ==> g_nodes[jj] == data_to_node(
                        #[trigger] data.nodes@[jj],
                    )),
                data.wf() ==> g.edges_seq().len() == j as int && forall|k: int|
                    0 <= k < j as int ==> g.edges_seq()[k] == record_to_edge(
                        #[trigger] data.connections@[k],
                    ),
            decreases data.connections@.len() - j,
        {
            let c = &data.connections[j];
            proof {
                if data.wf() {
                    assert(data.has_id(c.from) && data.has_id(c.to));
                    assert(g.has_node(c.from)) by {
                        let a = choose|a: int|
                            0 <= a < data.nodes@.len() && (#[trigger] data.nodes@[a]).id == c.from;
                        assert(g_nodes[a] == data_to_node(data.nodes@[a]));
                        assert(g.nodes_seq()[a].spec_id() == c.from);
                    }
                    assert(g.has_node(c.to)) by {
                        let b = choose|b: int|
                            0 <= b < data.nodes@.len() && (#[trigger] data.nodes@[b]).id == c.to;
                        assert(g_nodes[b] == data_to_node(data.nodes@[b]));
                        assert(g.nodes_seq()[b].spec_id() == c.to);
                    }
                }
            }
            let ghost edges_before = g.edges_seq();
            let _ = g.connect(c.from, c.to, ConnectionData::new(clone_opt_string(&c.label)));
            proof {
                assert forall|i: int| 0 <= i < g.edges_seq().len() implies exists|k: int|
                    0 <= k < j as int + 1 && (#[trigger] g.edges_seq()[i]) == record_to_edge(
                        data.connections@[k],
                    ) by {
                    if i < edges_before.len() {
                        assert(g.edges_seq()[i] == edges_before[i]);
                        let k = choose|k: int|
                            0 <= k < j as int && edges_before[i] == record_to_edge(
                                data.connections@[k],
                            );
                        assert(g.edges_seq()[i] == record_to_edge(data.connections@[k]));
                    } else {
                        assert(g.edges_seq()[i] == record_to_edge(data.connections@[j as int]));
                    }
                }
            }
            j += 1;
        }
        g
    }
}

/// Round-trip serialization: for any well-formed graph, reading its record
/// form back yields a graph with the same node sequence (hence the same node
/// set), the same edges in the same order (hence the same outgoing-edge order
/// per node), the same start node and the same name.
///
/// The hypotheses state exactly what `serialize` ensures of `data` and what
/// `deserialize` ensures of `back`.
pub proof fn lemma_serialize_round_trip(g: DialogueGraph, data: GraphData, back: DialogueGraph)
    requires
        g.wf(),
        data.wf(),
        data.nodes@.len() == g.nodes_seq().len(),
        forall|i: int|
            0 <= i < data.nodes@.len() ==> data.nodes@[i] == node_to_data(
                #[trigger] g.nodes_seq()[i],
            ),
        data.connections@.len() == g.edges_seq().len(),
        forall|i: int|
            0 <= i < data.connections@.len() ==> data.connections@[i] == edge_to_record(
                #[trigger] g.edges_seq()[i],
            ),
        data.start_node == g.start_node,
        data.name == g.name,
        back.start_node == data.start_node,
        back.name == data.name,
        back.nodes_seq().len() == data.nodes@.len(),
        forall|i: int|
            0 <= i < data.nodes@.len() ==> back.nodes_seq()[i] == data_to_node(
                #[trigger] data.nodes@[i],
            ),
        back.edges_seq().len() == data.connections@.len(),
        forall|i: int|
            0 <= i < data.connections@.len() ==> back.edges_seq()[i] == record_to_edge(
                #[trigger] data.connections@[i],
            ),
    ensures
        back.nodes_seq() == g.nodes_seq(),
        back.edges_seq() == g.edges_seq(),
        back.start_node == g.start_node,
        back.name == g.name,
{
    assert forall|i: int| 0 <= i < g.nodes_seq().len() implies back.nodes_seq()[i] == (
    #[trigger] g.nodes_seq()[i]) by {
        lemma_node_round_trip(g.nodes_seq()[i]);
    }
    assert(back.nodes_seq() =~= g.nodes_seq());
    assert forall|i: int| 0 <= i < g.edges_seq().len() implies back.edges_seq()[i] == (
    #[trigger] g.edges_seq()[i]) by {
        lemma_edge_round_trip(g.edges_seq()[i]);
    }
    assert(back.edges_seq() =~= g.edges_seq());
}

} // verus!
