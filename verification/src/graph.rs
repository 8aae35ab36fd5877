//! Core dialogue graph structure.
//!
//! `DialogueGraph` owns the nodes and directed labeled edges of one dialogue.
//! Nodes live in a dense vector; a side map translates each stable `NodeId`
//! to its current position. Keeping that map synchronized across mutations —
//! in particular across removal, which compacts the vector by moving the last
//! node into the vacated slot — is the central correctness obligation of this
//! module, stated by `wf` and proved for every operation.

use vstd::prelude::*;

use std::collections::HashMap;

use crate::error::GraphError;
use crate::node::{ConnectionData, NodeId};
use crate::nodes::DialogueNode;

verus! {

/// A directed labeled edge between two nodes, stored by stable ids.
#[derive(Debug)]
pub struct Edge {
    /// The id of the source node.
    pub from: NodeId,
    /// The id of the target node.
    pub to: NodeId,
    /// The label and any other data carried by this edge.
    pub data: ConnectionData,
}

impl Clone for Edge {
    /// The copy equals the original.
    fn clone(&self) -> (r: Self)
        ensures
            r == *self,
    {
        Edge { from: self.from, to: self.to, data: self.data.clone() }
    }
}

/// The edges of `s` whose source is `from`, in order.
///
/// This is the ordered list of outgoing connections of a node; its positions
/// are the zero-based choice indices of a choice node.
pub open spec fn connections_from(s: Seq<Edge>, from: NodeId) -> Seq<Edge>
    decreases s.len(),
{
    if s.len() == 0 {
        Seq::empty()
    } else {
        let rest = connections_from(s.drop_last(), from);
        if s.last().from == from {
            rest.push(s.last())
        } else {
            rest
        }
    }
}

/// The edges of `s` that touch neither endpoint of the removed node `id`.
pub open spec fn edges_without_node(s: Seq<Edge>, id: NodeId) -> Seq<Edge>
    decreases s.len(),
{
    if s.len() == 0 {
        Seq::empty()
    } else {
        let rest = edges_without_node(s.drop_last(), id);
        if s.last().from != id && s.last().to != id {
            rest.push(s.last())
        } else {
            rest
        }
    }
}

/// The edges of `s` other than those from `from` to `to`.
pub open spec fn edges_without_pair(s: Seq<Edge>, from: NodeId, to: NodeId) -> Seq<Edge>
    decreases s.len(),
{
    if s.len() == 0 {
        Seq::empty()
    } else {
        let rest = edges_without_pair(s.drop_last(), from, to);
        if !(s.last().from == from && s.last().to == to) {
            rest.push(s.last())
        } else {
            rest
        }
    }
}

/// Whether `s` holds at least one edge from `a` to `b`.
pub open spec fn edge_exists(s: Seq<Edge>, a: NodeId, b: NodeId) -> bool {
    exists|i: int| 0 <= i < s.len() && s[i].from == a && (#[trigger] s[i]).to == b
}

/// Whether a directed path of at most `k` edges leads from `from` to `to`.
pub open spec fn reachable_in(s: Seq<Edge>, from: NodeId, to: NodeId, k: nat) -> bool
    decreases k,
{
    if from == to {
        true
    } else if k == 0 {
        false
    } else {
        exists|m: NodeId| #[trigger] edge_exists(s, from, m) && reachable_in(s, m, to, (k - 1) as nat)
    }
}

/// Whether some directed path leads from `from` to `to` over the edges `s`.
pub open spec fn reachable(s: Seq<Edge>, from: NodeId, to: NodeId) -> bool {
    exists|k: nat| reachable_in(s, from, to, k)
}

/// A path can be extended by one more edge at its end.
pub proof fn lemma_reachable_in_extend(s: Seq<Edge>, a: NodeId, b: NodeId, c: NodeId, k: nat)
    requires
        reachable_in(s, a, b, k),
        edge_exists(s, b, c),
    ensures
        reachable_in(s, a, c, (k + 1) as nat),
    decreases k,
{
    if a == b {
        if a == c {
        } else {
            assert(reachable_in(s, c, c, k));
            assert(edge_exists(s, a, c) && reachable_in(s, c, c, ((k + 1) - 1) as nat));
        }
    } else {
        let m = choose|m: NodeId| #[trigger]
            edge_exists(s, a, m) && reachable_in(s, m, b, (k - 1) as nat);
        lemma_reachable_in_extend(s, m, b, c, (k - 1) as nat);
        assert(edge_exists(s, a, m) && reachable_in(s, m, c, ((k + 1) - 1) as nat));
    }
}

/// Reachability extends along one more edge.
pub proof fn lemma_reachable_step(s: Seq<Edge>, a: NodeId, b: NodeId, c: NodeId)
    requires
        reachable(s, a, b),
        edge_exists(s, b, c),
    ensures
        reachable(s, a, c),
{
    let k = choose|k: nat| reachable_in(s, a, b, k);
    lemma_reachable_in_extend(s, a, b, c, k);
}

/// How many entries of `s` are true.
pub open spec fn count_true(s: Seq<bool>) -> int
    decreases s.len(),
{
    if s.len() == 0 {
        0
    } else {
        count_true(s.drop_last()) + if s.last() {
            1int
        } else {
            0int
        }
    }
}

/// The count of true entries is bounded by the length.
proof fn lemma_count_true_le_len(s: Seq<bool>)
    ensures
        0 <= count_true(s) <= s.len(),
    decreases s.len(),
{
    if s.len() > 0 {
        lemma_count_true_le_len(s.drop_last());
    }
}

/// Setting a false entry to true raises the count by one.
proof fn lemma_count_true_update(s: Seq<bool>, i: int)
    requires
        0 <= i < s.len(),
        !s[i],
    ensures
        count_true(s.update(i, true)) == count_true(s) + 1,
    decreases s.len(),
{
    let t = s.update(i, true);
    if i == s.len() - 1 {
        assert(t.drop_last() =~= s.drop_last());
        assert(t.last());
    } else {
        assert(t.drop_last() =~= s.drop_last().update(i, true));
        lemma_count_true_update(s.drop_last(), i);
        assert(t.last() == s.last());
    }
}

/// One step of `connections_from` along a growing prefix of `s`.
proof fn lemma_connections_from_step(s: Seq<Edge>, from: NodeId, k: int)
    requires
        0 <= k < s.len(),
    ensures
        connections_from(s.take(k + 1), from) == if s[k].from == from {
            connections_from(s.take(k), from).push(s[k])
        } else {
            connections_from(s.take(k), from)
        },
{
    assert(s.take(k + 1).drop_last() =~= s.take(k));
    assert(s.take(k + 1).last() == s[k]);
}

/// One step of `edges_without_node` along a growing prefix of `s`.
proof fn lemma_edges_without_node_step(s: Seq<Edge>, id: NodeId, k: int)
    requires
        0 <= k < s.len(),
    ensures
        edges_without_node(s.take(k + 1), id) == if s[k].from != id && s[k].to != id {
            edges_without_node(s.take(k), id).push(s[k])
        } else {
            edges_without_node(s.take(k), id)
        },
{
    assert(s.take(k + 1).drop_last() =~= s.take(k));
    assert(s.take(k + 1).last() == s[k]);
}

/// One step of `edges_without_pair` along a growing prefix of `s`.
proof fn lemma_edges_without_pair_step(s: Seq<Edge>, from: NodeId, to: NodeId, k: int)
    requires
        0 <= k < s.len(),
    ensures
        edges_without_pair(s.take(k + 1), from, to) == if !(s[k].from == from && s[k].to == to) {
            edges_without_pair(s.take(k), from, to).push(s[k])
        } else {
            edges_without_pair(s.take(k), from, to)
        },
{
    assert(s.take(k + 1).drop_last() =~= s.take(k));
    assert(s.take(k + 1).last() == s[k]);
}

/// Every connection listed by `connections_from` starts at `from` and comes
/// from `s`.
pub proof fn lemma_connections_from_elems(s: Seq<Edge>, from: NodeId)
    ensures
        forall|j: int|
            0 <= j < connections_from(s, from).len() ==> (#[trigger] connections_from(s, from)[j]).from
                == from && exists|k: int| 0 <= k < s.len() && s[k] == connections_from(s, from)[j],
    decreases s.len(),
{
    if s.len() > 0 {
        lemma_connections_from_elems(s.drop_last(), from);
        let rest = connections_from(s.drop_last(), from);
        assert forall|j: int| 0 <= j < connections_from(s, from).len() implies (
        #[trigger] connections_from(s, from)[j]).from == from && exists|k: int|
            0 <= k < s.len() && s[k] == connections_from(s, from)[j] by {
            if j < rest.len() {
                assert(connections_from(s, from)[j] == rest[j]);
                let k = choose|k: int| 0 <= k < s.drop_last().len() && s.drop_last()[k] == rest[j];
                assert(s[k] == connections_from(s, from)[j]);
            } else {
                assert(connections_from(s, from)[j] == s.last());
                assert(s[s.len() - 1] == connections_from(s, from)[j]);
            }
        }
    }
}

/// Every edge kept by `edges_without_node` avoids `id` and comes from `s`.
pub proof fn lemma_edges_without_node_elems(s: Seq<Edge>, id: NodeId)
    ensures
        forall|j: int|
            0 <= j < edges_without_node(s, id).len() ==> (#[trigger] edges_without_node(s, id)[j]).from
                != id && edges_without_node(s, id)[j].to != id && exists|k: int|
                0 <= k < s.len() && s[k] == edges_without_node(s, id)[j],
    decreases s.len(),
{
    if s.len() > 0 {
        lemma_edges_without_node_elems(s.drop_last(), id);
        let rest = edges_without_node(s.drop_last(), id);
        assert forall|j: int| 0 <= j < edges_without_node(s, id).len() implies (
        #[trigger] edges_without_node(s, id)[j]).from != id && edges_without_node(s, id)[j].to != id
            && exists|k: int| 0 <= k < s.len() && s[k] == edges_without_node(s, id)[j] by {
            if j < rest.len() {
                assert(edges_without_node(s, id)[j] == rest[j]);
                let k = choose|k: int| 0 <= k < s.drop_last().len() && s.drop_last()[k] == rest[j];
                assert(s[k] == edges_without_node(s, id)[j]);
            } else {
                assert(edges_without_node(s, id)[j] == s.last());
                assert(s[s.len() - 1] == edges_without_node(s, id)[j]);
            }
        }
    }
}

/// Every edge kept by `edges_without_pair` is not an `from`-to-`to` edge and
/// comes from `s`.
pub proof fn lemma_edges_without_pair_elems(s: Seq<Edge>, from: NodeId, to: NodeId)
    ensures
        forall|j: int|
            0 <= j < edges_without_pair(s, from, to).len() ==> !((#[trigger] edges_without_pair(
                s,
                from,
                to,
            )[j]).from == from && edges_without_pair(s, from, to)[j].to == to) && exists|k: int|
                0 <= k < s.len() && s[k] == edges_without_pair(s, from, to)[j],
    decreases s.len(),
{
    if s.len() > 0 {
        lemma_edges_without_pair_elems(s.drop_last(), from, to);
        let rest = edges_without_pair(s.drop_last(), from, to);
        assert forall|j: int| 0 <= j < edges_without_pair(s, from, to).len() implies !((
        #[trigger] edges_without_pair(s, from, to)[j]).from == from && edges_without_pair(
            s,
            from,
            to,
        )[j].to == to) && exists|k: int|
            0 <= k < s.len() && s[k] == edges_without_pair(s, from, to)[j] by {
            if j < rest.len() {
                assert(edges_without_pair(s, from, to)[j] == rest[j]);
                let k = choose|k: int|
                    0 <= k < s.drop_last().len() && s.drop_last()[k] == rest[j];
                assert(s[k] == edges_without_pair(s, from, to)[j]);
            } else {
                assert(edges_without_pair(s, from, to)[j] == s.last());
                assert(s[s.len() - 1] == edges_without_pair(s, from, to)[j]);
            }
        }
    }
}

/// Edge removal is total per ordered pair: after all edges from `a` to `b`
/// are removed — however many parallel edges had been added — the ordered
/// connection list of `a` contains no entry targeting `b`.
pub proof fn lemma_disconnect_removes_all(s: Seq<Edge>, a: NodeId, b: NodeId)
    ensures
        forall|j: int|
            0 <= j < connections_from(edges_without_pair(s, a, b), a).len() ==> (
            #[trigger] connections_from(edges_without_pair(s, a, b), a)[j]).to != b,
{
    let kept = edges_without_pair(s, a, b);
    lemma_edges_without_pair_elems(s, a, b);
    lemma_connections_from_elems(kept, a);
    assert forall|j: int| 0 <= j < connections_from(kept, a).len() implies (
    #[trigger] connections_from(kept, a)[j]).to != b by {
        let e = connections_from(kept, a)[j];
        let k = choose|k: int| 0 <= k < kept.len() && kept[k] == e;
        assert(!(kept[k].from == a && kept[k].to == b));
    }
}

/// Choice index stability: appending an edge leaves every node's ordered
/// connection list unchanged, except the new edge's source, whose list gains
/// the new edge at the end. Connecting a choice node's options in order
/// therefore lists them in that order, at stable zero-based indices.
pub proof fn lemma_connections_after_connect(s: Seq<Edge>, e: Edge, a: NodeId)
    ensures
        e.from == a ==> connections_from(s.push(e), a) == connections_from(s, a).push(e),
        e.from != a ==> connections_from(s.push(e), a) == connections_from(s, a),
{
    assert(s.push(e).drop_last() =~= s);
    assert(s.push(e).last() == e);
}

/// Removes every edge with `id` as either endpoint, keeping the rest in
/// order.
fn remove_edges_touching(edges: &mut Vec<Edge>, id: NodeId)
    ensures
        final(edges)@ == edges_without_node(old(edges)@, id),
{
    let ghost g: Seq<Edge> = edges@;
    let mut i: usize = 0;
    let ghost mut k: int = 0;
    proof {
        assert(g.take(0) =~= Seq::<Edge>::empty());
        assert(edges@ =~= edges_without_node(g.take(0), id) + g.skip(0));
    }
    while i < edges.len()
        invariant
            0 <= k <= g.len(),
            i as int == edges_without_node(g.take(k), id).len(),
            edges@ == edges_without_node(g.take(k), id) + g.skip(k),
        decreases g.len() - k,
    {
        proof {
            assert(edges@[i as int] == g.skip(k)[0]);
            assert(g.skip(k)[0] == g[k]);
            lemma_edges_without_node_step(g, id, k);
        }
        if edges[i].from == id || edges[i].to == id {
            edges.remove(i);
            proof {
                k = k + 1;
                assert(edges@ =~= edges_without_node(g.take(k), id) + g.skip(k));
            }
        } else {
            i += 1;
            proof {
                k = k + 1;
                assert(edges@ =~= edges_without_node(g.take(k), id) + g.skip(k));
            }
        }
    }
    proof {
        assert(g.skip(k).len() == 0);
        assert(k == g.len());
        assert(g.take(k) =~= g);
        assert(edges@ =~= edges_without_node(g, id));
    }
}

/// Removes every edge from `from` to `to`, keeping the rest in order.
fn remove_edges_between(edges: &mut Vec<Edge>, from: NodeId, to: NodeId)
    ensures
        final(edges)@ == edges_without_pair(old(edges)@, from, to),
{
    let ghost g: Seq<Edge> = edges@;
    let mut i: usize = 0;
    let ghost mut k: int = 0;
    proof {
        assert(g.take(0) =~= Seq::<Edge>::empty());
        assert(edges@ =~= edges_without_pair(g.take(0), from, to) + g.skip(0));
    }
    while i < edges.len()
        invariant
            0 <= k <= g.len(),
            i as int == edges_without_pair(g.take(k), from, to).len(),
            edges@ == edges_without_pair(g.take(k), from, to) + g.skip(k),
        decreases g.len() - k,
    {
        proof {
            assert(edges@[i as int] == g.skip(k)[0]);
            assert(g.skip(k)[0] == g[k]);
            lemma_edges_without_pair_step(g, from, to, k);
        }
        if edges[i].from == from && edges[i].to == to {
            edges.remove(i);
            proof {
                k = k + 1;
                assert(edges@ =~= edges_without_pair(g.take(k), from, to) + g.skip(k));
            }
        } else {
            i += 1;
            proof {
                k = k + 1;
                assert(edges@ =~= edges_without_pair(g.take(k), from, to) + g.skip(k));
            }
        }
    }
    proof {
        assert(g.skip(k).len() == 0);
        assert(k == g.len());
        assert(g.take(k) =~= g);
        assert(edges@ =~= edges_without_pair(g, from, to));
    }
}

/// A complete dialogue graph: nodes, directed labeled edges, a designated
/// start node and an optional name.
///
/// Graphs are intentionally allowed to be transiently invalid while they are
/// being built (the start node may be missing, nodes may be unreachable);
/// `validate` checks those properties on demand. What every operation does
/// preserve is `wf`: node ids are unique, the id-to-position map agrees with
/// the node vector, and every edge endpoint names a present node.
#[derive(Debug)]
pub struct DialogueGraph {
    /// Dense storage of the nodes; positions may change on removal.
    pub nodes: Vec<DialogueNode>,
    /// Directed labeled edges over stable node ids, in insertion order.
    pub edges: Vec<Edge>,
    /// Mapping from each node's stable id to its current position in `nodes`.
    pub node_indices: HashMap<u32, usize>,
    /// The starting node id for this dialogue.
    pub start_node: NodeId,
    /// Optional name or identifier for this dialogue.
    pub name: Option<String>,
}

impl DialogueGraph {
    /// The stored nodes, in storage order.
    pub open spec fn nodes_seq(&self) -> Seq<DialogueNode> {
        self.nodes@
    }

    /// The stored edges, in insertion order.
    pub open spec fn edges_seq(&self) -> Seq<Edge> {
        self.edges@
    }

    /// The id-to-position map.
    pub open spec fn map_view(&self) -> Map<u32, usize> {
        self.node_indices@
    }

    /// Whether a node with the given id is present.
    pub open spec fn has_node(&self, id: NodeId) -> bool {
        exists|i: int|
            0 <= i < self.nodes_seq().len() && (#[trigger] self.nodes_seq()[i]).spec_id() == id
    }

    /// The position the id map assigns to `id`.
    pub open spec fn node_index(&self, id: NodeId) -> int {
        self.map_view()[id.0] as int
    }

    /// The node stored under `id` (meaningful when `has_node(id)`).
    pub open spec fn spec_get_node(&self, id: NodeId) -> DialogueNode {
        self.nodes_seq()[self.node_index(id)]
    }

    /// The ordered outgoing edges of `id`.
    pub open spec fn spec_connections(&self, id: NodeId) -> Seq<Edge> {
        connections_from(self.edges_seq(), id)
    }

    /// Every entry of the id map names an in-range position holding the node
    /// with that id.
    pub open spec fn mapping_sound(&self) -> bool {
        forall|k: u32| #[trigger]
            self.map_view().contains_key(k) ==> 0 <= self.map_view()[k] < self.nodes_seq().len()
                && self.nodes_seq()[self.map_view()[k] as int].spec_id() == NodeId(k)
    }

    /// Every stored node is found by the id map at its actual position.
    pub open spec fn mapping_complete(&self) -> bool {
        forall|i: int|
            0 <= i < self.nodes_seq().len() ==> self.map_view().contains_key(
                (#[trigger] self.nodes_seq()[i]).spec_id().0,
            ) && self.map_view()[self.nodes_seq()[i].spec_id().0] as int == i
    }

    /// No two stored nodes share an id.
    pub open spec fn ids_unique(&self) -> bool {
        forall|i: int, j: int|
            0 <= i < j < self.nodes_seq().len() ==> (#[trigger] self.nodes_seq()[i]).spec_id() != (
            #[trigger] self.nodes_seq()[j]).spec_id()
    }

    /// Every edge endpoint names a present node.
    pub open spec fn edges_closed(&self) -> bool {
        forall|j: int|
            0 <= j < self.edges_seq().len() ==> self.has_node(
                (#[trigger] self.edges_seq()[j]).from,
            ) && self.has_node(self.edges_seq()[j].to)
    }

    /// Well-formedness: the id map and the node vector agree in both
    /// directions (which makes node ids unique), and every edge endpoint
    /// names a present node.
    pub open spec fn wf(&self) -> bool {
        &&& self.mapping_sound()
        &&& self.mapping_complete()
        &&& self.edges_closed()
    }

    /// Two graphs with the same node storage hold the same node ids.
    pub proof fn lemma_same_nodes_presence(g1: DialogueGraph, g2: DialogueGraph)
        requires
            g1.nodes_seq() == g2.nodes_seq(),
        ensures
            forall|y: NodeId| g1.has_node(y) <==> g2.has_node(y),
    {
        assert forall|y: NodeId| g1.has_node(y) implies g2.has_node(y) by {
            let i = choose|i: int|
                0 <= i < g1.nodes_seq().len() && (#[trigger] g1.nodes_seq()[i]).spec_id() == y;
            assert(g2.nodes_seq()[i].spec_id() == y);
        }
        assert forall|y: NodeId| g2.has_node(y) implies g1.has_node(y) by {
            let i = choose|i: int|
                0 <= i < g2.nodes_seq().len() && (#[trigger] g2.nodes_seq()[i]).spec_id() == y;
            assert(g1.nodes_seq()[i].spec_id() == y);
        }
    }

    /// A well-formed graph has no two nodes with the same id.
    pub proof fn lemma_wf_ids_unique(&self)
        requires
            self.wf(),
        ensures
            self.ids_unique(),
    {
        assert forall|i: int, j: int| 0 <= i < j < self.nodes_seq().len() implies (
        #[trigger] self.nodes_seq()[i]).spec_id() != (#[trigger] self.nodes_seq()[j]).spec_id() by {
            if self.nodes_seq()[i].spec_id() == self.nodes_seq()[j].spec_id() {
                assert(self.map_view()[self.nodes_seq()[i].spec_id().0] as int == i);
                assert(self.map_view()[self.nodes_seq()[j].spec_id().0] as int == j);
            }
        }
    }

    /// In a well-formed graph, presence in the id map and presence in the
    /// node vector coincide, the mapped position holds the node with that id,
    /// and no other position does.
    pub proof fn lemma_wf_lookup(&self, id: NodeId)
        requires
            self.wf(),
        ensures
            self.has_node(id) <==> self.map_view().contains_key(id.0),
            self.has_node(id) ==> 0 <= self.node_index(id) < self.nodes_seq().len(),
            self.has_node(id) ==> self.nodes_seq()[self.node_index(id)].spec_id() == id,
            forall|i: int|
                0 <= i < self.nodes_seq().len() && (#[trigger] self.nodes_seq()[i]).spec_id() == id
                    ==> i == self.node_index(id),
    {
        if self.has_node(id) {
            let i = choose|i: int|
                0 <= i < self.nodes_seq().len() && (#[trigger] self.nodes_seq()[i]).spec_id()
                    == id;
            assert(self.map_view().contains_key(self.nodes_seq()[i].spec_id().0));
        }
        if self.map_view().contains_key(id.0) {
            assert(self.nodes_seq()[self.map_view()[id.0] as int].spec_id() == NodeId(id.0));
            assert(NodeId(id.0) == id);
        }
    }

    /// Creates a new empty dialogue graph with the given start node id.
    pub fn new(start_node: NodeId) -> (r: Self)
        ensures
            r.wf(),
            r.nodes_seq() == Seq::<DialogueNode>::empty(),
            r.edges_seq() == Seq::<Edge>::empty(),
            r.map_view() == Map::<u32, usize>::empty(),
            r.start_node == start_node,
            r.name is None,
    {
        DialogueGraph {
            nodes: Vec::new(),
            edges: Vec::new(),
            node_indices: HashMap::new(),
            start_node,
            name: None,
        }
    }

    /// Sets the name of this dialogue graph (builder form).
    pub fn with_name(self, name: String) -> (r: Self)
        ensures
            r.nodes_seq() == self.nodes_seq(),
            r.edges_seq() == self.edges_seq(),
            r.map_view() == self.map_view(),
            r.start_node == self.start_node,
            r.name == Some(name),
            self.wf() ==> r.wf(),
    {
        let r = DialogueGraph { name: Some(name), ..self };
        proof {
            assert(r.nodes_seq() == self.nodes_seq());
            assert(r.edges_seq() == self.edges_seq());
            assert(r.map_view() == self.map_view());
            if self.wf() {
                assert forall|y: NodeId| self.has_node(y) implies r.has_node(y) by {
                    let i = choose|i: int|
                        0 <= i < self.nodes_seq().len() && (#[trigger] self.nodes_seq()[i]).spec_id()
                            == y;
                    assert(r.nodes_seq()[i].spec_id() == y);
                }
                assert(r.wf());
            }
        }
        r
    }

    /// Inserts a node, or replaces the node already stored under its id.
    ///
    /// Re-adding an existing id is an upsert: the node is replaced in place,
    /// its positional slot and all its edges are kept. This never fails.
    pub fn add_node(&mut self, node: DialogueNode)
        requires
            old(self).wf(),
        ensures
            final(self).wf(),
            final(self).start_node == old(self).start_node,
            final(self).name == old(self).name,
            final(self).edges_seq() == old(self).edges_seq(),
            final(self).has_node(node.spec_id()),
            final(self).spec_get_node(node.spec_id()) == node,
            old(self).has_node(node.spec_id()) ==> final(self).nodes_seq() == old(
                self,
            ).nodes_seq().update(old(self).node_index(node.spec_id()), node) && final(self).map_view()
                == old(self).map_view(),
            !old(self).has_node(node.spec_id()) ==> final(self).nodes_seq() == old(
                self,
            ).nodes_seq().push(node),
            forall|y: NodeId|
                y != node.spec_id() ==> (final(self).has_node(y) <==> old(self).has_node(y)),
            forall|y: NodeId|
                y != node.spec_id() && old(self).has_node(y) ==> final(self).spec_get_node(y)
                    == old(self).spec_get_node(y),
    {
        let id = node.id();
        proof {
            old(self).lemma_wf_lookup(id);
        }
        let existing: Option<usize> = match self.node_indices.get(&id.0) {
            Some(i) => Some(*i),
            None => None,
        };
        match existing {
            Some(idx) => {
                self.nodes[idx] = node;
                proof {
                    let oldg = *old(self);
                    let newg = *self;
                    let idxi = idx as int;
                    assert(oldg.map_view().contains_key(id.0));
                    assert(oldg.nodes_seq()[idxi].spec_id() == id);
                    assert(newg.nodes_seq() == oldg.nodes_seq().update(idxi, node));
                    assert(newg.map_view() == oldg.map_view());
                    // both directions of node presence, for every id
                    assert forall|y: NodeId| oldg.has_node(y) implies newg.has_node(y) by {
                        let i = choose|i: int|
                            0 <= i < oldg.nodes_seq().len() && (#[trigger] oldg.nodes_seq()[i]).spec_id()
                                == y;
                        if i == idxi {
                            assert(newg.nodes_seq()[idxi].spec_id() == id);
                        } else {
                            assert(newg.nodes_seq()[i].spec_id() == y);
                        }
                    }
                    assert forall|y: NodeId| newg.has_node(y) implies oldg.has_node(y) by {
                        let i = choose|i: int|
                            0 <= i < newg.nodes_seq().len() && (#[trigger] newg.nodes_seq()[i]).spec_id()
                                == y;
                        if i == idxi {
                            assert(oldg.nodes_seq()[idxi].spec_id() == id);
                        } else {
                            assert(oldg.nodes_seq()[i].spec_id() == y);
                        }
                    }
                    // the map still points every key at a slot holding its node
                    assert forall|k: u32| #[trigger]
                        newg.map_view().contains_key(k) implies 0 <= newg.map_view()[k]
                        < newg.nodes_seq().len() && newg.nodes_seq()[newg.map_view()[k] as int].spec_id()
                        == NodeId(k) by {
                        assert(oldg.map_view().contains_key(k));
                        let p = oldg.map_view()[k] as int;
                        if p == idxi {
                            assert(oldg.nodes_seq()[p].spec_id() == NodeId(k));
                            assert(NodeId(k) == id);
                        } else {
                            assert(newg.nodes_seq()[p] == oldg.nodes_seq()[p]);
                        }
                    }
                    // every slot is still found by the map under its node's id
                    assert forall|i: int| 0 <= i < newg.nodes_seq().len() implies newg.map_view().contains_key(
                        (#[trigger] newg.nodes_seq()[i]).spec_id().0,
                    ) && newg.map_view()[newg.nodes_seq()[i].spec_id().0] as int == i by {
                        if i == idxi {
                            assert(newg.nodes_seq()[i] == node);
                            assert(newg.map_view()[id.0] as int == idxi);
                        } else {
                            assert(newg.nodes_seq()[i] == oldg.nodes_seq()[i]);
                        }
                    }
                    assert(newg.spec_get_node(id) == node);
                    assert forall|y: NodeId| y != id && oldg.has_node(y) implies newg.spec_get_node(
                        y,
                    ) == oldg.spec_get_node(y) by {
                        oldg.lemma_wf_lookup(y);
                        assert(oldg.node_index(y) != idxi);
                    }
                }
            },
            None => {
                let idx = self.nodes.len();
                self.nodes.push(node);
                self.node_indices.insert(id.0, idx);
                proof {
                    let oldg = *old(self);
                    let newg = *self;
                    let new_nodes = newg.nodes_seq();
                    let old_nodes = oldg.nodes_seq();
                    assert(new_nodes == old_nodes.push(node));
                    assert(newg.map_view() == oldg.map_view().insert(id.0, idx));
                    assert(newg.has_node(id)) by {
                        assert(new_nodes[old_nodes.len() as int].spec_id() == id);
                    }
                    assert forall|y: NodeId| y != id && oldg.has_node(y) implies newg.has_node(y)
                        && newg.spec_get_node(y) == oldg.spec_get_node(y) by {
                        let i = choose|i: int|
                            0 <= i < old_nodes.len() && (#[trigger] old_nodes[i]).spec_id() == y;
                        assert(new_nodes[i].spec_id() == y);
                        oldg.lemma_wf_lookup(y);
                        assert(y.0 != id.0);
                        assert(newg.map_view()[y.0] == oldg.map_view()[y.0]);
                    }
                    assert forall|y: NodeId| y != id && newg.has_node(y) implies oldg.has_node(
                        y,
                    ) by {
                        let i = choose|i: int|
                            0 <= i < new_nodes.len() && (#[trigger] new_nodes[i]).spec_id() == y;
                        assert(i < old_nodes.len());
                        assert(old_nodes[i].spec_id() == y);
                    }
                    // the map still points every key at a slot holding its node
                    assert forall|k: u32| #[trigger]
                        newg.map_view().contains_key(k) implies 0 <= newg.map_view()[k]
                        < new_nodes.len() && new_nodes[newg.map_view()[k] as int].spec_id()
                        == NodeId(k) by {
                        if k == id.0 {
                            assert(new_nodes[idx as int].spec_id() == id);
                        } else {
                            assert(oldg.map_view().contains_key(k));
                            let p = oldg.map_view()[k] as int;
                            assert(new_nodes[p] == old_nodes[p]);
                        }
                    }
                    // every slot is still found by the map under its node's id
                    assert forall|i: int| 0 <= i < new_nodes.len() implies newg.map_view().contains_key(
                        (#[trigger] new_nodes[i]).spec_id().0,
                    ) && newg.map_view()[new_nodes[i].spec_id().0] as int == i by {
                        if i < old_nodes.len() {
                            assert(new_nodes[i] == old_nodes[i]);
                            assert(old_nodes[i].spec_id().0 != id.0) by {
                                assert(!oldg.has_node(id));
                                if old_nodes[i].spec_id().0 == id.0 {
                                    assert(old_nodes[i].spec_id() == id);
                                }
                            }
                        } else {
                            assert(new_nodes[i] == node);
                        }
                    }
                    assert(newg.spec_get_node(id) == node);
                }
            },
        }
    }

    /// Adds a node, builder form.
    pub fn with_node(self, node: DialogueNode) -> (r: Self)
        requires
            self.wf(),
        ensures
            r.wf(),
            r.start_node == self.start_node,
            r.name == self.name,
            r.edges_seq() == self.edges_seq(),
            r.has_node(node.spec_id()),
            r.spec_get_node(node.spec_id()) == node,
            !self.has_node(node.spec_id()) ==> r.nodes_seq() == self.nodes_seq().push(node),
            self.has_node(node.spec_id()) ==> r.nodes_seq() == self.nodes_seq().update(
                self.node_index(node.spec_id()),
                node,
            ),
    {
        let mut g = self;
        g.add_node(node);
        g
    }

    /// Looks a node up by its id.
    ///
    /// Returns the node stored under `id`, or `None` when no node has that
    /// id.
    pub fn get_node(&self, id: NodeId) -> (r: Option<&DialogueNode>)
        requires
            self.wf(),
        ensures
            match r {
                Some(node) => self.has_node(id) && *node == self.spec_get_node(id)
                    && node.spec_id() == id,
                None => !self.has_node(id),
            },
    {
        proof {
            self.lemma_wf_lookup(id);
        }
        match self.node_indices.get(&id.0) {
            Some(idx) => Some(&self.nodes[*idx]),
            None => None,
        }
    }

    /// Looks the designated start node up.
    pub fn get_start_node(&self) -> (r: Option<&DialogueNode>)
        requires
            self.wf(),
        ensures
            match r {
                Some(node) => self.has_node(self.start_node) && *node == self.spec_get_node(
                    self.start_node,
                ) && node.spec_id() == self.start_node,
                None => !self.has_node(self.start_node),
            },
    {
        self.get_node(self.start_node)
    }

    /// Returns the number of nodes in the graph.
    pub fn node_count(&self) -> (r: usize)
        ensures
            r == self.nodes_seq().len(),
    {
        self.nodes.len()
    }

    /// Returns all node ids, in storage order.
    pub fn node_ids(&self) -> (r: Vec<NodeId>)
        ensures
            r@.len() == self.nodes_seq().len(),
            forall|i: int|
                0 <= i < r@.len() ==> r@[i] == (#[trigger] self.nodes_seq()[i]).spec_id(),
    {
        let mut ids: Vec<NodeId> = Vec::new();
        let mut i: usize = 0;
        while i < self.nodes.len()
            invariant
                i <= self.nodes@.len(),
                ids@.len() == i as int,
                forall|j: int| 0 <= j < i as int ==> ids@[j] == (#[trigger] self.nodes@[j]).spec_id(),
            decreases self.nodes@.len() - i,
        {
            ids.push(self.nodes[i].id());
            i += 1;
        }
        ids
    }

    /// Read-only access to all nodes, in storage order.
    pub fn nodes_iter(&self) -> (r: &Vec<DialogueNode>)
        ensures
            r@ == self.nodes_seq(),
    {
        &self.nodes
    }

    /// Replaces the node stored under `id` with `node`.
    ///
    /// The node keeps its positional slot, so existing edges stay intact even
    /// though the node's contents — including its variant — may change. Fails
    /// with `NodeNotFound` when `id` is absent.
    pub fn update_node(&mut self, id: NodeId, node: DialogueNode) -> (r: Result<(), GraphError>)
        requires
            old(self).wf(),
            node.spec_id() == id,
        ensures
            final(self).wf(),
            final(self).start_node == old(self).start_node,
            final(self).name == old(self).name,
            final(self).edges_seq() == old(self).edges_seq(),
            final(self).map_view() == old(self).map_view(),
            r is Ok <==> old(self).has_node(id),
            r is Err ==> r == Err::<(), GraphError>(GraphError::NodeNotFound(id)) && *final(self)
                == *old(self),
            old(self).has_node(id) ==> final(self).nodes_seq() == old(self).nodes_seq().update(
                old(self).node_index(id),
                node,
            ),
            old(self).has_node(id) ==> final(self).spec_get_node(id) == node,
            forall|y: NodeId|
                y != id && old(self).has_node(y) ==> final(self).spec_get_node(y) == old(
                    self,
                ).spec_get_node(y),
    {
        if self.contains_node(id) {
            self.add_node(node);
            Ok(())
        } else {
            Err(GraphError::NodeNotFound(id))
        }
    }

    /// Removes the node stored under `id` together with every edge touching
    /// it, in either direction.
    ///
    /// The dense node store is compacted by moving the last node into the
    /// vacated slot, and the id map entry of whichever node was moved is
    /// updated, so that every surviving id keeps resolving to the same
    /// logical node. Fails with `NodeNotFound` when `id` is absent.
    pub fn remove_node(&mut self, id: NodeId) -> (r: Result<(), GraphError>)
        requires
            old(self).wf(),
        ensures
            final(self).wf(),
            final(self).start_node == old(self).start_node,
            final(self).name == old(self).name,
            r is Ok <==> old(self).has_node(id),
            r is Err ==> r == Err::<(), GraphError>(GraphError::NodeNotFound(id)) && *final(self)
                == *old(self),
            old(self).has_node(id) ==> !final(self).has_node(id),
            old(self).has_node(id) ==> final(self).nodes_seq().len() == old(
                self,
            ).nodes_seq().len() - 1,
            old(self).has_node(id) ==> final(self).edges_seq() == edges_without_node(
                old(self).edges_seq(),
                id,
            ),
            forall|y: NodeId|
                y != id ==> (final(self).has_node(y) <==> old(self).has_node(y)),
            forall|y: NodeId|
                y != id && old(self).has_node(y) ==> final(self).spec_get_node(y) == old(
                    self,
                ).spec_get_node(y),
    {
        proof {
            old(self).lemma_wf_lookup(id);
            old(self).lemma_wf_ids_unique();
        }
        let idx_opt: Option<usize> = match self.node_indices.get(&id.0) {
            Some(i) => Some(*i),
            None => None,
        };
        let idx = match idx_opt {
            Some(i) => i,
            None => {
                return Err(GraphError::NodeNotFound(id));
            },
        };
        let last = self.nodes.len() - 1;
        self.nodes.swap_remove(idx);
        self.node_indices.remove(&id.0);
        if idx < last {
            let moved_id = self.nodes[idx].id();
            self.node_indices.insert(moved_id.0, idx);
        }
        proof {
            let oldg = *old(self);
            let newg = *self;
            let old_nodes = oldg.nodes_seq();
            let new_nodes = newg.nodes_seq();
            let idxi = idx as int;
            let lasti = last as int;
            assert(old_nodes[idxi].spec_id() == id);
            assert(new_nodes =~= old_nodes.update(idxi, old_nodes.last()).drop_last());
            // contents of every surviving slot
            assert forall|i: int| 0 <= i < new_nodes.len() implies new_nodes[i] == (if i == idxi
                && idxi < lasti {
                old_nodes[lasti]
            } else {
                old_nodes[i]
            }) by {}
            // the removed id is gone
            assert forall|i: int| 0 <= i < new_nodes.len() implies (
            #[trigger] new_nodes[i]).spec_id() != id by {
                if i == idxi && idxi < lasti {
                    assert(old_nodes[lasti].spec_id() != id);
                } else {
                    assert(old_nodes[i].spec_id() != id);
                }
            }
            // presence of every other id carries over, in both directions
            assert forall|y: NodeId| y != id && oldg.has_node(y) implies newg.has_node(y)
                && newg.spec_get_node(y) == oldg.spec_get_node(y) by {
                oldg.lemma_wf_lookup(y);
                let p = oldg.node_index(y);
                assert(old_nodes[p].spec_id() == y);
                assert(p != idxi);
                if p == lasti {
                    assert(idxi < lasti);
                    assert(new_nodes[idxi].spec_id() == y);
                    assert(newg.map_view()[y.0] == idx);
                } else {
                    assert(new_nodes[p].spec_id() == y);
                    assert(y.0 != id.0);
                    if idxi < lasti {
                        assert(y.0 != old_nodes[lasti].spec_id().0);
                    }
                    assert(newg.map_view()[y.0] == oldg.map_view()[y.0]);
                }
            }
            assert forall|y: NodeId| y != id && newg.has_node(y) implies oldg.has_node(y) by {
                let i = choose|i: int|
                    0 <= i < new_nodes.len() && (#[trigger] new_nodes[i]).spec_id() == y;
                if i == idxi && idxi < lasti {
                    assert(old_nodes[lasti].spec_id() == y);
                } else {
                    assert(old_nodes[i].spec_id() == y);
                }
            }
            // the map stays sound
            assert forall|k: u32| #[trigger] newg.map_view().contains_key(k) implies 0
                <= newg.map_view()[k] < new_nodes.len() && new_nodes[newg.map_view()[k] as int].spec_id()
                == NodeId(k) by {
                if idxi < lasti && k == old_nodes[lasti].spec_id().0 {
                    assert(newg.map_view()[k] == idx);
                    assert(new_nodes[idxi].spec_id() == old_nodes[lasti].spec_id());
                } else {
                    assert(k != id.0);
                    assert(oldg.map_view().contains_key(k));
                    let p = oldg.map_view()[k] as int;
                    assert(old_nodes[p].spec_id() == NodeId(k));
                    assert(p != idxi);
                    assert(p != lasti);
                    assert(new_nodes[p] == old_nodes[p]);
                }
            }
            // the map stays complete
            assert forall|i: int| 0 <= i < new_nodes.len() implies newg.map_view().contains_key(
                (#[trigger] new_nodes[i]).spec_id().0,
            ) && newg.map_view()[new_nodes[i].spec_id().0] as int == i by {
                if i == idxi && idxi < lasti {
                    assert(new_nodes[i] == old_nodes[lasti]);
                    assert(newg.map_view()[new_nodes[i].spec_id().0] == idx);
                } else {
                    let k = old_nodes[i].spec_id().0;
                    assert(k != id.0);
                    if idxi < lasti {
                        assert(i != lasti);
                        assert(NodeId(k) != old_nodes[lasti].spec_id());
                    }
                    assert(newg.map_view()[k] == oldg.map_view()[k]);
                }
            }
        }
        let ghost mid = *self;
        remove_edges_touching(&mut self.edges, id);
        proof {
            let oldg = *old(self);
            let newg = *self;
            assert(newg.nodes_seq() == mid.nodes_seq());
            assert(newg.map_view() == mid.map_view());
            assert(newg.edges_seq() == edges_without_node(oldg.edges_seq(), id));
            lemma_edges_without_node_elems(oldg.edges_seq(), id);
            // surviving edges keep both endpoints present
            assert forall|j: int| 0 <= j < newg.edges_seq().len() implies newg.has_node(
                (#[trigger] newg.edges_seq()[j]).from,
            ) && newg.has_node(newg.edges_seq()[j].to) by {
                let e = newg.edges_seq()[j];
                let k = choose|k: int|
                    0 <= k < oldg.edges_seq().len() && oldg.edges_seq()[k] == e;
                assert(oldg.has_node(e.from) && oldg.has_node(e.to));
                assert(newg.has_node(e.from) <==> oldg.has_node(e.from));
                assert(newg.has_node(e.to) <==> oldg.has_node(e.to));
            }
        }
        Ok(())
    }

    /// Checks whether a node with the given id exists in the graph.
    pub fn contains_node(&self, id: NodeId) -> (r: bool)
        requires
            self.wf(),
        ensures
            r == self.has_node(id),
    {
        proof {
            self.lemma_wf_lookup(id);
        }
        self.node_indices.contains_key(&id.0)
    }

    /// Recomputes the id-to-position map from scratch by scanning the stored
    /// nodes.
    ///
    /// An escape hatch for recovering from a suspected desynchronization: it
    /// restores well-formedness from any prior map state, and is idempotent.
    pub fn rebuild_mapping(&mut self)
        requires
            old(self).ids_unique(),
            old(self).edges_closed(),
        ensures
            final(self).wf(),
            final(self).nodes_seq() == old(self).nodes_seq(),
            final(self).edges_seq() == old(self).edges_seq(),
            final(self).start_node == old(self).start_node,
            final(self).name == old(self).name,
    {
        self.node_indices.clear();
        let mut i: usize = 0;
        while i < self.nodes.len()
            invariant
                self.nodes@ == old(self).nodes@,
                self.edges@ == old(self).edges@,
                self.start_node == old(self).start_node,
                self.name == old(self).name,
                old(self).ids_unique(),
                i <= self.nodes@.len(),
                forall|k: u32| #[trigger]
                    self.node_indices@.contains_key(k) ==> 0 <= self.node_indices@[k] < i as int
                        && self.nodes@[self.node_indices@[k] as int].spec_id() == NodeId(k),
                forall|j: int|
                    0 <= j < i as int ==> self.node_indices@.contains_key(
                        (#[trigger] self.nodes@[j]).spec_id().0,
                    ) && self.node_indices@[self.nodes@[j].spec_id().0] as int == j,
            decreases self.nodes@.len() - i,
        {
            let nid = self.nodes[i].id();
            proof {
                let onodes = old(self).nodes_seq();
                assert forall|j: int| 0 <= j < i as int implies (
                #[trigger] self.nodes@[j]).spec_id().0 != nid.0 by {
                    assert(onodes[j].spec_id() != onodes[i as int].spec_id());
                    assert(self.nodes@[j] == onodes[j]);
                    assert(self.nodes@[i as int] == onodes[i as int]);
                }
            }
            self.node_indices.insert(nid.0, i);
            i += 1;
        }
        proof {
            let oldg = *old(self);
            let newg = *self;
            DialogueGraph::lemma_same_nodes_presence(oldg, newg);
            assert forall|j: int| 0 <= j < newg.edges_seq().len() implies newg.has_node(
                (#[trigger] newg.edges_seq()[j]).from,
            ) && newg.has_node(newg.edges_seq()[j].to) by {
                assert(oldg.has_node(oldg.edges_seq()[j].from));
                assert(oldg.has_node(oldg.edges_seq()[j].to));
            }
        }
    }

    /// Checks that the id-to-position map agrees with the stored nodes, in
    /// both directions.
    ///
    /// Returns `Ok` exactly when the map is consistent: every node is found
    /// at its actual position, and the map holds no entry beyond those.
    pub fn validate_mapping(&self) -> (r: Result<(), GraphError>)
        ensures
            r is Ok <==> self.mapping_sound() && self.mapping_complete(),
            r matches Err(GraphError::MappingInconsistent(id)) ==> exists|i: int|
                0 <= i < self.nodes_seq().len() && (#[trigger] self.nodes_seq()[i]).spec_id() == id
                    && !(self.map_view().contains_key(id.0) && self.map_view()[id.0] as int == i)
                    && (forall|j: int|
                    0 <= j < i ==> self.map_view().contains_key(
                        (#[trigger] self.nodes_seq()[j]).spec_id().0,
                    ) && self.map_view()[self.nodes_seq()[j].spec_id().0] as int == j),
            r == Err::<(), GraphError>(GraphError::MappingStale) ==> self.mapping_complete()
                && !self.mapping_sound(),
    {
        let n = self.nodes.len();
        let mut i: usize = 0;
        let ghost mut seen: Set<u32> = Set::empty();
        while i < n
            invariant
                n == self.nodes@.len(),
                i <= n,
                seen.finite(),
                seen.len() == i as int,
                forall|j: int|
                    0 <= j < i as int ==> self.node_indices@.contains_key(
                        (#[trigger] self.nodes@[j]).spec_id().0,
                    ) && self.node_indices@[self.nodes@[j].spec_id().0] as int == j,
                forall|k: u32| #[trigger]
                    seen.contains(k) ==> exists|j: int|
                        0 <= j < i as int && (#[trigger] self.nodes@[j]).spec_id().0 == k,
                forall|j: int| 0 <= j < i as int ==> seen.contains(
                    (#[trigger] self.nodes@[j]).spec_id().0,
                ),
            decreases n - i,
        {
            let nid = self.nodes[i].id();
            let ok = match self.node_indices.get(&nid.0) {
                Some(p) => *p == i,
                None => false,
            };
            if !ok {
                proof {
                    assert(!(self.node_indices@.contains_key(nid.0) && self.node_indices@[nid.0]
                        == i));
                    if self.mapping_complete() {
                        assert(self.map_view().contains_key(
                            (self.nodes_seq()[i as int]).spec_id().0,
                        ) && self.map_view()[self.nodes_seq()[i as int].spec_id().0] as int
                            == i as int);
                        assert(self.nodes_seq()[i as int].spec_id() == nid);
                    }
                    // this node is the first whose map entry is missing or wrong
                    assert(self.nodes_seq()[i as int].spec_id() == nid);
                    assert(!(self.map_view().contains_key(nid.0) && self.map_view()[nid.0] as int
                        == i as int));
                    assert forall|j: int| 0 <= j < i as int implies self.map_view().contains_key(
                        (#[trigger] self.nodes_seq()[j]).spec_id().0,
                    ) && self.map_view()[self.nodes_seq()[j].spec_id().0] as int == j by {
                        assert(self.node_indices@.contains_key(
                            (self.nodes@[j]).spec_id().0,
                        ) && self.node_indices@[self.nodes@[j].spec_id().0] as int == j);
                    }
                }
                return Err(GraphError::MappingInconsistent(nid));
            }
            proof {
                assert(!seen.contains(nid.0)) by {
                    if seen.contains(nid.0) {
                        let j = choose|j: int|
                            0 <= j < i as int && (#[trigger] self.nodes@[j]).spec_id().0 == nid.0;
                        assert(self.node_indices@[nid.0] as int == j);
                    }
                }
                seen = seen.insert(nid.0);
            }
            i += 1;
        }
        let m = self.node_indices.len();
        if m != n {
            proof {
                // every stored node was found correctly mapped by the scan
                assert(self.mapping_complete()) by {
                    assert forall|j: int| 0 <= j < self.nodes_seq().len() implies self.map_view().contains_key(
                        (#[trigger] self.nodes_seq()[j]).spec_id().0,
                    ) && self.map_view()[self.nodes_seq()[j].spec_id().0] as int == j by {
                        assert(self.node_indices@.contains_key(
                            (self.nodes@[j]).spec_id().0,
                        ) && self.node_indices@[self.nodes@[j].spec_id().0] as int == j);
                    }
                }
                // yet the map holds more entries than there are nodes, so
                // some entry names no live node
                assert(!self.mapping_sound()) by {
                    if self.mapping_sound() {
                        assert forall|k: u32| #[trigger]
                            self.node_indices@.dom().contains(k) implies seen.contains(k) by {
                            assert(self.map_view().contains_key(k));
                            assert(0 <= self.map_view()[k] < self.nodes_seq().len()
                                && self.nodes_seq()[self.map_view()[k] as int].spec_id() == NodeId(
                                k,
                            ));
                            let p = self.node_indices@[k] as int;
                            assert(seen.contains(self.nodes@[p].spec_id().0));
                        }
                        assert forall|k: u32| #[trigger] seen.contains(k) implies self.node_indices@.dom().contains(
                            k,
                        ) by {
                            let j = choose|j: int|
                                0 <= j < n && (#[trigger] self.nodes@[j]).spec_id().0 == k;
                            assert(self.map_view().contains_key(
                                (self.nodes_seq()[j]).spec_id().0,
                            ));
                        }
                        assert(self.node_indices@.dom() =~= seen);
                        assert(self.node_indices@.dom().len() == n);
                    }
                }
            }
            return Err(GraphError::MappingStale);
        }
        proof {
            assert(self.node_indices@.dom().len() == n);
            assert forall|k: u32| #[trigger] self.node_indices@.contains_key(k) implies 0
                <= self.node_indices@[k] < self.nodes@.len()
                && self.nodes@[self.node_indices@[k] as int].spec_id() == NodeId(k) by {
                if !seen.contains(k) {
                    assert(seen.insert(k).len() == n + 1);
                    assert(seen.insert(k).subset_of(self.node_indices@.dom()));
                    vstd::set_lib::lemma_len_subset::<u32>(
                        seen.insert(k),
                        self.node_indices@.dom(),
                    );
                }
                let j = choose|j: int|
                    0 <= j < n && (#[trigger] self.nodes@[j]).spec_id().0 == k;
                assert(self.node_indices@[self.nodes@[j].spec_id().0] as int == j);
                assert(self.nodes@[j].spec_id() == NodeId(k));
            }
        }
        Ok(())
    }

    /// Checks the whole well-formedness predicate at run time: the id map
    /// consistent in both directions, and every edge endpoint present.
    ///
    /// The structure's fields are public, so code outside the library can
    /// disturb them; this check lets such a caller establish `wf` before
    /// using operations that rely on it.
    pub fn is_well_formed(&self) -> (r: bool)
        ensures
            r == self.wf(),
    {
        match self.validate_mapping() {
            Err(_) => false,
            Ok(()) => {
                let mut j: usize = 0;
                while j < self.edges.len()
                    invariant
                        self.mapping_sound(),
                        self.mapping_complete(),
                        j <= self.edges@.len(),
                        forall|k: int|
                            0 <= k < j as int ==> self.has_node(
                                (#[trigger] self.edges_seq()[k]).from,
                            ) && self.has_node(self.edges_seq()[k].to),
                    decreases self.edges@.len() - j,
                {
                    let from_present = self.node_indices.contains_key(&self.edges[j].from.0);
                    let to_present = self.node_indices.contains_key(&self.edges[j].to.0);
                    if !from_present || !to_present {
                        proof {
                            let e = self.edges_seq()[j as int];
                            assert(!self.edges_closed()) by {
                                if self.edges_closed() {
                                    assert(self.has_node(e.from) && self.has_node(e.to));
                                    if !self.map_view().contains_key(e.from.0) {
                                        let i = choose|i: int|
                                            0 <= i < self.nodes_seq().len() && (
                                            #[trigger] self.nodes_seq()[i]).spec_id() == e.from;
                                        assert(self.map_view().contains_key(
                                            self.nodes_seq()[i].spec_id().0,
                                        ));
                                    }
                                    if !self.map_view().contains_key(e.to.0) {
                                        let i = choose|i: int|
                                            0 <= i < self.nodes_seq().len() && (
                                            #[trigger] self.nodes_seq()[i]).spec_id() == e.to;
                                        assert(self.map_view().contains_key(
                                            self.nodes_seq()[i].spec_id().0,
                                        ));
                                    }
                                }
                            }
                        }
                        return false;
                    }
                    proof {
                        let e = self.edges_seq()[j as int];
                        assert(self.map_view().contains_key(e.from.0));
                        assert(self.nodes_seq()[self.map_view()[e.from.0] as int].spec_id()
                            == NodeId(e.from.0));
                        assert(self.has_node(e.from));
                        assert(self.map_view().contains_key(e.to.0));
                        assert(self.nodes_seq()[self.map_view()[e.to.0] as int].spec_id()
                            == NodeId(e.to.0));
                        assert(self.has_node(e.to));
                    }
                    j += 1;
                }
                true
            },
        }
    }

    /// Appends a directed labeled edge from `from` to `to`.
    ///
    /// Fails with `EdgeEndpointNotFound`, naming whichever endpoint is
    /// missing (the source is reported first), when either id is absent.
    /// Parallel edges and self-loops are permitted.
    pub fn connect(&mut self, from: NodeId, to: NodeId, data: ConnectionData) -> (r: Result<
        (),
        GraphError,
    >)
        requires
            old(self).wf(),
        ensures
            final(self).wf(),
            final(self).nodes_seq() == old(self).nodes_seq(),
            final(self).map_view() == old(self).map_view(),
            final(self).start_node == old(self).start_node,
            final(self).name == old(self).name,
            r is Ok <==> old(self).has_node(from) && old(self).has_node(to),
            r is Ok ==> final(self).edges_seq() == old(self).edges_seq().push(
                Edge { from, to, data },
            ),
            r is Err ==> *final(self) == *old(self),
            !old(self).has_node(from) ==> r == Err::<(), GraphError>(
                GraphError::EdgeEndpointNotFound { from, to, missing: from },
            ),
            old(self).has_node(from) && !old(self).has_node(to) ==> r == Err::<(), GraphError>(
                GraphError::EdgeEndpointNotFound { from, to, missing: to },
            ),
    {
        if !self.contains_node(from) {
            return Err(GraphError::EdgeEndpointNotFound { from, to, missing: from });
        }
        if !self.contains_node(to) {
            return Err(GraphError::EdgeEndpointNotFound { from, to, missing: to });
        }
        self.edges.push(Edge { from, to, data });
        proof {
            let oldg = *old(self);
            let newg = *self;
            DialogueGraph::lemma_same_nodes_presence(oldg, newg);
            assert forall|j: int| 0 <= j < newg.edges_seq().len() implies newg.has_node(
                (#[trigger] newg.edges_seq()[j]).from,
            ) && newg.has_node(newg.edges_seq()[j].to) by {
                if j < oldg.edges_seq().len() {
                    assert(newg.edges_seq()[j] == oldg.edges_seq()[j]);
                    assert(oldg.has_node(oldg.edges_seq()[j].from));
                    assert(oldg.has_node(oldg.edges_seq()[j].to));
                } else {
                    assert(newg.edges_seq()[j] == (Edge { from, to, data }));
                }
            }
        }
        Ok(())
    }

    /// Removes every edge from `from` to `to` — all parallel edges of that
    /// ordered pair at once.
    ///
    /// Fails with `EdgeEndpointNotFound` when either id is absent, and with
    /// `NoConnection` when both are present but no such edge exists.
    pub fn disconnect(&mut self, from: NodeId, to: NodeId) -> (r: Result<(), GraphError>)
        requires
            old(self).wf(),
        ensures
            final(self).wf(),
            final(self).nodes_seq() == old(self).nodes_seq(),
            final(self).map_view() == old(self).map_view(),
            final(self).start_node == old(self).start_node,
            final(self).name == old(self).name,
            r is Ok <==> old(self).has_node(from) && old(self).has_node(to) && edge_exists(
                old(self).edges_seq(),
                from,
                to,
            ),
            r is Ok ==> final(self).edges_seq() == edges_without_pair(
                old(self).edges_seq(),
                from,
                to,
            ) && !edge_exists(final(self).edges_seq(), from, to),
            r is Err ==> *final(self) == *old(self),
            !old(self).has_node(from) ==> r == Err::<(), GraphError>(
                GraphError::EdgeEndpointNotFound { from, to, missing: from },
            ),
            old(self).has_node(from) && !old(self).has_node(to) ==> r == Err::<(), GraphError>(
                GraphError::EdgeEndpointNotFound { from, to, missing: to },
            ),
            old(self).has_node(from) && old(self).has_node(to) && !edge_exists(
                old(self).edges_seq(),
                from,
                to,
            ) ==> r == Err::<(), GraphError>(GraphError::NoConnection { from, to }),
    {
        if !self.contains_node(from) {
            return Err(GraphError::EdgeEndpointNotFound { from, to, missing: from });
        }
        if !self.contains_node(to) {
            return Err(GraphError::EdgeEndpointNotFound { from, to, missing: to });
        }
        let mut found = false;
        let mut i: usize = 0;
        while i < self.edges.len()
            invariant
                i <= self.edges@.len(),
                found <==> exists|j: int|
                    0 <= j < i as int && (#[trigger] self.edges@[j]).from == from
                        && self.edges@[j].to == to,
            decreases self.edges@.len() - i,
        {
            if self.edges[i].from == from && self.edges[i].to == to {
                found = true;
            }
            i += 1;
        }
        if !found {
            proof {
                assert(!edge_exists(self.edges@, from, to)) by {
                    if edge_exists(self.edges@, from, to) {
                        let j = choose|j: int|
                            0 <= j < self.edges@.len() && self.edges@[j].from == from && (
                            #[trigger] self.edges@[j]).to == to;
                        assert(exists|j: int|
                            0 <= j < self.edges@.len() && (#[trigger] self.edges@[j]).from == from
                                && self.edges@[j].to == to);
                    }
                }
            }
            return Err(GraphError::NoConnection { from, to });
        }
        proof {
            let j = choose|j: int|
                0 <= j < self.edges@.len() && (#[trigger] self.edges@[j]).from == from
                    && self.edges@[j].to == to;
            assert(edge_exists(self.edges@, from, to));
        }
        remove_edges_between(&mut self.edges, from, to);
        proof {
            let oldg = *old(self);
            let newg = *self;
            DialogueGraph::lemma_same_nodes_presence(oldg, newg);
            lemma_edges_without_pair_elems(oldg.edges_seq(), from, to);
            assert forall|j: int| 0 <= j < newg.edges_seq().len() implies newg.has_node(
                (#[trigger] newg.edges_seq()[j]).from,
            ) && newg.has_node(newg.edges_seq()[j].to) by {
                let e = newg.edges_seq()[j];
                let k = choose|k: int|
                    0 <= k < oldg.edges_seq().len() && oldg.edges_seq()[k] == e;
                assert(oldg.has_node(e.from) && oldg.has_node(e.to));
            }
            assert(!edge_exists(newg.edges_seq(), from, to)) by {
                if edge_exists(newg.edges_seq(), from, to) {
                    let j = choose|j: int|
                        0 <= j < newg.edges_seq().len() && newg.edges_seq()[j].from == from && (
                        #[trigger] newg.edges_seq()[j]).to == to;
                }
            }
        }
        Ok(())
    }

    /// Validity: the start node exists, and every node is reachable from it
    /// via directed edges. (Edge endpoints referencing present nodes is
    /// already part of `wf`.)
    pub open spec fn valid(&self) -> bool {
        &&& self.has_node(self.start_node)
        &&& forall|i: int|
            0 <= i < self.nodes_seq().len() ==> reachable(
                self.edges_seq(),
                self.start_node,
                (#[trigger] self.nodes_seq()[i]).spec_id(),
            )
    }

    /// Every visited node outside `stack` has all its edge targets visited.
    pub open spec fn bfs_closed_except(&self, visited: Seq<bool>, stack: Seq<usize>) -> bool {
        forall|i: int, j: int|
            0 <= i < self.nodes_seq().len() && visited[i] && !stack.contains(i as usize) && 0 <= j
                < self.edges_seq().len() && (#[trigger] self.edges_seq()[j]).from == (
            #[trigger] self.nodes_seq()[i]).spec_id() ==> visited[self.node_index(
                self.edges_seq()[j].to,
            )]
    }

    /// In a closed visited set that holds `a`, every node reachable from `a`
    /// is visited too.
    proof fn lemma_closed_visited(&self, visited: Seq<bool>, a: NodeId, b: NodeId, k: nat)
        requires
            self.wf(),
            visited.len() == self.nodes_seq().len(),
            self.bfs_closed_except(visited, Seq::<usize>::empty()),
            self.has_node(a),
            visited[self.node_index(a)],
            reachable_in(self.edges_seq(), a, b, k),
        ensures
            self.has_node(b),
            visited[self.node_index(b)],
        decreases k,
    {
        self.lemma_wf_lookup(a);
        if a == b {
        } else {
            let edges = self.edges_seq();
            let m = choose|m: NodeId| #[trigger]
                edge_exists(edges, a, m) && reachable_in(edges, m, b, (k - 1) as nat);
            let j = choose|j: int|
                0 <= j < edges.len() && edges[j].from == a && (#[trigger] edges[j]).to == m;
            let ai = self.node_index(a);
            assert(self.nodes_seq()[ai].spec_id() == a);
            assert(!Seq::<usize>::empty().contains(ai as usize));
            assert(visited[self.node_index(edges[j].to)]);
            assert(self.has_node(m));
            self.lemma_closed_visited(visited, m, b, (k - 1) as nat);
        }
    }

    /// Reachability invariant: in a well-formed graph that `validate`
    /// accepts, every node in the graph is reachable from the start node via
    /// directed edges.
    pub proof fn lemma_valid_reachability(&self, id: NodeId)
        requires
            self.wf(),
            self.valid(),
            self.has_node(id),
        ensures
            reachable(self.edges_seq(), self.start_node, id),
    {
        let i = choose|i: int|
            0 <= i < self.nodes_seq().len() && (#[trigger] self.nodes_seq()[i]).spec_id() == id;
        assert(reachable(self.edges_seq(), self.start_node, self.nodes_seq()[i].spec_id()));
    }

    /// Validates the graph structure.
    ///
    /// Three checks in sequence: every edge's endpoints exist, the start node
    /// exists, and every node is reachable from the start node via a directed
    /// search that tolerates cycles. The first violation found is returned;
    /// success means the graph is `valid`.
    pub fn validate(&self) -> (r: Result<(), GraphError>)
        requires
            self.wf(),
        ensures
            r is Ok <==> self.valid(),
            !self.has_node(self.start_node) ==> r == Err::<(), GraphError>(
                GraphError::StartNodeMissing(self.start_node),
            ),
            match r {
                Ok(()) => true,
                Err(GraphError::StartNodeMissing(s)) => s == self.start_node && !self.has_node(
                    self.start_node,
                ),
                Err(GraphError::UnreachableNode(id)) => self.has_node(id) && !reachable(
                    self.edges_seq(),
                    self.start_node,
                    id,
                ) && exists|i: int|
                    0 <= i < self.nodes_seq().len() && (#[trigger] self.nodes_seq()[i]).spec_id()
                        == id && (forall|i2: int|
                        0 <= i2 < i ==> reachable(
                            self.edges_seq(),
                            self.start_node,
                            (#[trigger] self.nodes_seq()[i2]).spec_id(),
                        )),
                Err(_) => false,
            },
    {
        // every edge must reference present endpoints (always true of a
        // well-formed graph, but checked as part of validation)
        let mut j: usize = 0;
        while j < self.edges.len()
            invariant
                self.wf(),
                j <= self.edges@.len(),
            decreases self.edges@.len() - j,
        {
            let efrom = self.edges[j].from;
            let eto = self.edges[j].to;
            if !self.contains_node(efrom) {
                return Err(GraphError::EdgeEndpointNotFound { from: efrom, to: eto, missing: efrom });
            }
            if !self.contains_node(eto) {
                return Err(GraphError::EdgeEndpointNotFound { from: efrom, to: eto, missing: eto });
            }
            j += 1;
        }
        // the start node must exist
        if !self.contains_node(self.start_node) {
            return Err(GraphError::StartNodeMissing(self.start_node));
        }
        // every node must be reachable from the start node
        let n = self.nodes.len();
        let mut visited: Vec<bool> = vec![false; n];
        let mut stack: Vec<usize> = Vec::new();
        proof {
            self.lemma_wf_lookup(self.start_node);
        }
        let start_idx = match self.node_indices.get(&self.start_node.0) {
            Some(p) => *p,
            None => {
                return Err(GraphError::StartNodeMissing(self.start_node));
            },
        };
        visited[start_idx] = true;
        stack.push(start_idx);
        proof {
            lemma_count_true_update(Seq::new(n as nat, |i: int| false), start_idx as int);
            assert(reachable_in(self.edges_seq(), self.start_node, self.start_node, 0));
            assert(stack@[0] == start_idx);
            assert(stack@.contains(start_idx));
            assert forall|i: int, jj: int|
                0 <= i < self.nodes_seq().len() && visited@[i] && !stack@.contains(i as usize)
                    && 0 <= jj < self.edges_seq().len() && (#[trigger] self.edges_seq()[jj]).from
                    == (#[trigger] self.nodes_seq()[i]).spec_id() implies visited@[self.node_index(
                    self.edges_seq()[jj].to,
                )] by {
                assert(i == start_idx as int);
            }
        }
        while stack.len() > 0
            invariant
                self.wf(),
                visited@.len() == self.nodes_seq().len(),
                forall|p: int|
                    0 <= p < stack@.len() ==> (#[trigger] stack@[p]) < self.nodes_seq().len()
                        && visited@[stack@[p] as int],
                forall|i: int|
                    0 <= i < visited@.len() && visited@[i] ==> reachable(
                        self.edges_seq(),
                        self.start_node,
                        (#[trigger] self.nodes_seq()[i]).spec_id(),
                    ),
                self.has_node(self.start_node),
                visited@[self.node_index(self.start_node)],
                self.bfs_closed_except(visited@, stack@),
            decreases
                    self.nodes_seq().len() - count_true(visited@),
                    stack@.len(),

        {
            proof {
                lemma_count_true_le_len(visited@);
            }
            let ghost count0 = count_true(visited@);
            let ghost pre_stack = stack@;
            let ghost stack_len0 = pre_stack.len() as int - 1;
            let cur = match stack.pop() {
                Some(c) => c,
                None => {
                    proof {
                        assert(false);
                    }
                    0
                },
            };
            let cur_id = self.nodes[cur].id();
            proof {
                // the pre-pop stack equals the popped stack with cur re-added,
                // so the closure-except invariant carries over verbatim
                assert(stack@.push(cur) =~= pre_stack);
                assert(self.bfs_closed_except(visited@, stack@.push(cur)));
            }
            let mut je: usize = 0;
            while je < self.edges.len()
                invariant
                    self.wf(),
                    visited@.len() == self.nodes_seq().len(),
                    je <= self.edges@.len(),
                    cur < self.nodes_seq().len(),
                    visited@[cur as int],
                    cur_id == self.nodes_seq()[cur as int].spec_id(),
                    forall|p: int|
                        0 <= p < stack@.len() ==> (#[trigger] stack@[p]) < self.nodes_seq().len()
                            && visited@[stack@[p] as int],
                    forall|i: int|
                        0 <= i < visited@.len() && visited@[i] ==> reachable(
                            self.edges_seq(),
                            self.start_node,
                            (#[trigger] self.nodes_seq()[i]).spec_id(),
                        ),
                    self.has_node(self.start_node),
                    visited@[self.node_index(self.start_node)],
                    self.bfs_closed_except(visited@, stack@.push(cur)),
                    forall|jj: int|
                        0 <= jj < je as int && (#[trigger] self.edges_seq()[jj]).from == cur_id
                            ==> visited@[self.node_index(self.edges_seq()[jj].to)],
                    count_true(visited@) >= count0,
                    stack@.len() as int - stack_len0 == count_true(visited@) - count0,
                decreases self.edges@.len() - je,
            {
                if self.edges[je].from == cur_id {
                    let eto = self.edges[je].to;
                    proof {
                        self.lemma_wf_lookup(eto);
                        assert(self.has_node(eto));
                    }
                    let t = match self.node_indices.get(&eto.0) {
                        Some(p) => *p,
                        None => {
                            proof {
                                assert(false);
                            }
                            0
                        },
                    };
                    if !visited[t] {
                        proof {
                            lemma_count_true_update(visited@, t as int);
                            assert(edge_exists(self.edges_seq(), cur_id, eto)) by {
                                assert(self.edges_seq()[je as int].from == cur_id
                                    && self.edges_seq()[je as int].to == eto);
                            }
                            assert(reachable(self.edges_seq(), self.start_node, cur_id));
                            lemma_reachable_step(self.edges_seq(), self.start_node, cur_id, eto);
                        }
                        let ghost vis0 = visited@;
                        let ghost st0 = stack@;
                        visited[t] = true;
                        stack.push(t);
                        proof {
                            assert(self.nodes_seq()[t as int].spec_id() == eto);
                            assert(visited@ =~= vis0.update(t as int, true));
                            assert(stack@ =~= st0.push(t));
                            // whatever was on the pre-push stack is still there
                            assert forall|x: usize| st0.push(cur).contains(x) implies stack@.push(
                                cur,
                            ).contains(x) by {
                                let q = choose|q: int|
                                    0 <= q < st0.push(cur).len() && st0.push(cur)[q] == x;
                                if q < st0.len() {
                                    assert(stack@.push(cur)[q] == x);
                                } else {
                                    assert(stack@.push(cur)[stack@.len() as int] == cur);
                                }
                            }
                            // the newly marked node sits on the stack, so the
                            // closure-except invariant is preserved
                            assert forall|i: int, jj: int|
                                0 <= i < self.nodes_seq().len() && visited@[i] && !stack@.push(
                                    cur,
                                ).contains(i as usize) && 0 <= jj < self.edges_seq().len() && (
                            #[trigger] self.edges_seq()[jj]).from == (
                            #[trigger] self.nodes_seq()[i]).spec_id() implies visited@[self.node_index(
                                    self.edges_seq()[jj].to,
                                )] by {
                                if i == t as int {
                                    assert(stack@[st0.len() as int] == t);
                                    assert(stack@.push(cur)[st0.len() as int] == t);
                                    assert(stack@.push(cur).contains(t));
                                } else {
                                    assert(vis0[i]);
                                    assert(!st0.push(cur).contains(i as usize));
                                    assert(vis0[self.node_index(self.edges_seq()[jj].to)]);
                                }
                            }
                            // soundness carries over; the new node was just proved reachable
                            assert forall|i: int|
                                0 <= i < visited@.len() && visited@[i] implies reachable(
                                self.edges_seq(),
                                self.start_node,
                                (#[trigger] self.nodes_seq()[i]).spec_id(),
                            ) by {
                                if i == t as int {
                                    assert(self.nodes_seq()[i].spec_id() == eto);
                                } else {
                                    assert(vis0[i]);
                                }
                            }
                        }
                    }
                }
                je += 1;
            }
            proof {
                lemma_count_true_le_len(visited@);
                // cur is now fully processed: closure holds without it
                assert forall|i: int, jj: int|
                    0 <= i < self.nodes_seq().len() && visited@[i] && !stack@.contains(i as usize)
                        && 0 <= jj < self.edges_seq().len() && (
                    #[trigger] self.edges_seq()[jj]).from == (
                    #[trigger] self.nodes_seq()[i]).spec_id() implies visited@[self.node_index(
                        self.edges_seq()[jj].to,
                    )] by {
                    if i == cur as int {
                        assert(self.edges_seq()[jj].from == cur_id);
                    } else {
                        assert(!stack@.push(cur).contains(i as usize)) by {
                            if stack@.push(cur).contains(i as usize) {
                                let q = choose|q: int|
                                    0 <= q < stack@.push(cur).len() && stack@.push(cur)[q]
                                        == i as usize;
                                assert(q < stack@.len());
                                assert(stack@[q] == i as usize);
                            }
                        }
                    }
                }
            }
        }
        // everything marked; any unvisited node is unreachable
        let mut i: usize = 0;
        while i < n
            invariant
                self.wf(),
                n == self.nodes_seq().len(),
                visited@.len() == n as int,
                i <= n,
                forall|ii: int| 0 <= ii < i as int ==> visited@[ii],
                forall|ii: int|
                    0 <= ii < visited@.len() && visited@[ii] ==> reachable(
                        self.edges_seq(),
                        self.start_node,
                        (#[trigger] self.nodes_seq()[ii]).spec_id(),
                    ),
                self.has_node(self.start_node),
                visited@[self.node_index(self.start_node)],
                self.bfs_closed_except(visited@, Seq::<usize>::empty()),
            decreases n - i,
        {
            if !visited[i] {
                let uid = self.nodes[i].id();
                proof {
                    self.lemma_wf_lookup(uid);
                    assert(self.node_index(uid) == i as int);
                    assert(!reachable(self.edges_seq(), self.start_node, uid)) by {
                        if reachable(self.edges_seq(), self.start_node, uid) {
                            let k = choose|k: nat|
                                reachable_in(self.edges_seq(), self.start_node, uid, k);
                            self.lemma_closed_visited(visited@, self.start_node, uid, k);
                        }
                    }
                    // every node stored before this one was visited, hence reachable
                    assert forall|i2: int| 0 <= i2 < i as int implies reachable(
                        self.edges_seq(),
                        self.start_node,
                        (#[trigger] self.nodes_seq()[i2]).spec_id(),
                    ) by {
                        assert(visited@[i2]);
                    }
                    assert(self.nodes_seq()[i as int].spec_id() == uid);
                }
                return Err(GraphError::UnreachableNode(uid));
            }
            i += 1;
        }
        proof {
            assert(self.valid()) by {
                assert forall|ii: int| 0 <= ii < self.nodes_seq().len() implies reachable(
                    self.edges_seq(),
                    self.start_node,
                    (#[trigger] self.nodes_seq()[ii]).spec_id(),
                ) by {
                    assert(visited@[ii]);
                }
            }
        }
        Ok(())
    }

    /// Returns the outgoing edges of `from` as (target id, edge data) pairs,
    /// in insertion order.
    ///
    /// The order is semantically significant: for a choice node it is the
    /// player-visible choice order, and positions are the choice indices.
    pub fn get_connections(&self, from: NodeId) -> (r: Vec<(NodeId, ConnectionData)>)
        ensures
            r@.len() == self.spec_connections(from).len(),
            forall|i: int|
                0 <= i < r@.len() ==> r@[i].0 == (#[trigger] self.spec_connections(from)[i]).to
                    && r@[i].1 == self.spec_connections(from)[i].data,
    {
        let mut out: Vec<(NodeId, ConnectionData)> = Vec::new();
        let mut i: usize = 0;
        proof {
            assert(self.edges@.take(0) =~= Seq::<Edge>::empty());
        }
        while i < self.edges.len()
            invariant
                i <= self.edges@.len(),
                out@.len() == connections_from(self.edges@.take(i as int), from).len(),
                forall|j: int|
                    0 <= j < out@.len() ==> out@[j].0 == (#[trigger] connections_from(
                        self.edges@.take(i as int),
                        from,
                    )[j]).to && out@[j].1 == connections_from(self.edges@.take(i as int), from)[j].data,
            decreases self.edges@.len() - i,
        {
            proof {
                lemma_connections_from_step(self.edges@, from, i as int);
            }
            if self.edges[i].from == from {
                out.push((self.edges[i].to, self.edges[i].data.clone()));
            }
            i += 1;
        }
        proof {
            assert(self.edges@.take(self.edges@.len() as int) =~= self.edges@);
        }
        out
    }

    /// Returns the targets of the outgoing edges of `from`, each with the
    /// edge's label, in insertion order.
    pub fn get_connected_nodes(&self, from: NodeId) -> (r: Vec<(NodeId, Option<String>)>)
        ensures
            r@.len() == self.spec_connections(from).len(),
            forall|i: int|
                0 <= i < r@.len() ==> r@[i].0 == (#[trigger] self.spec_connections(from)[i]).to
                    && r@[i].1 == self.spec_connections(from)[i].data.label,
    {
        let mut out: Vec<(NodeId, Option<String>)> = Vec::new();
        let mut i: usize = 0;
        proof {
            assert(self.edges@.take(0) =~= Seq::<Edge>::empty());
        }
        while i < self.edges.len()
            invariant
                i <= self.edges@.len(),
                out@.len() == connections_from(self.edges@.take(i as int), from).len(),
                forall|j: int|
                    0 <= j < out@.len() ==> out@[j].0 == (#[trigger] connections_from(
                        self.edges@.take(i as int),
                        from,
                    )[j]).to && out@[j].1 == connections_from(self.edges@.take(i as int), from)[j].data.label,
            decreases self.edges@.len() - i,
        {
            proof {
                lemma_connections_from_step(self.edges@, from, i as int);
            }
            if self.edges[i].from == from {
                out.push((self.edges[i].to, crate::node::clone_opt_string(&self.edges[i].data.label)));
            }
            i += 1;
        }
        proof {
            assert(self.edges@.take(self.edges@.len() as int) =~= self.edges@);
        }
        out
    }
}

} // verus!
