//! The runtime state machine that walks a dialogue graph.
//!
//! A `DialogueRunner` is the per-conversation play head: which node is
//! current, what the conversation is waiting on, and the auto-advance timer.
//! Every transition is a total function of the runner, the graph and the
//! action; illegal actions come back as typed errors and never change the
//! runner.

use vstd::prelude::*;
use vstd::string::StringExecFns;

use std::collections::HashMap;

use crate::asset::DialogueAsset;
use crate::error::{DialogueError, DialogueResult};
use crate::graph::DialogueGraph;
use crate::node::NodeId;
use crate::nodes::DialogueNode;

verus! {

/// Current state of a dialogue.
#[derive(Debug, PartialEq, Eq)]
pub enum DialogueState {
    /// Dialogue is not currently running.
    Inactive,
    /// Dialogue is displaying text, awaiting an advance.
    ShowingText,
    /// Dialogue is waiting for the player to select a choice.
    WaitingForChoice,
    /// The player has selected a choice, ready to advance.
    ChoiceSelected(usize),
    /// Dialogue has reached a node with no outgoing edges.
    Finished,
    /// Dialogue encountered an error; recoverable only by restarting.
    Error(String),
}

impl Clone for DialogueState {
    /// The copy equals the original.
    fn clone(&self) -> (r: Self)
        ensures
            r == *self,
    {
        match self {
            DialogueState::Inactive => DialogueState::Inactive,
            DialogueState::ShowingText => DialogueState::ShowingText,
            DialogueState::WaitingForChoice => DialogueState::WaitingForChoice,
            DialogueState::ChoiceSelected(i) => DialogueState::ChoiceSelected(*i),
            DialogueState::Finished => DialogueState::Finished,
            DialogueState::Error(m) => DialogueState::Error(m.clone()),
        }
    }
}

impl DialogueState {
    /// What `name` returns, as a sequence of characters.
    pub open spec fn name_spec(&self) -> Seq<char> {
        match self {
            DialogueState::Inactive => "Inactive"@,
            DialogueState::ShowingText => "ShowingText"@,
            DialogueState::WaitingForChoice => "WaitingForChoice"@,
            DialogueState::ChoiceSelected(_) => "ChoiceSelected"@,
            DialogueState::Finished => "Finished"@,
            DialogueState::Error(_) => "Error"@,
        }
    }

    /// A short name of the state, for error messages.
    pub fn name(&self) -> (r: String)
        ensures
            r@ == self.name_spec(),
    {
        match self {
            DialogueState::Inactive => String::from_str("Inactive"),
            DialogueState::ShowingText => String::from_str("ShowingText"),
            DialogueState::WaitingForChoice => String::from_str("WaitingForChoice"),
            DialogueState::ChoiceSelected(_) => String::from_str("ChoiceSelected"),
            DialogueState::Finished => String::from_str("Finished"),
            DialogueState::Error(_) => String::from_str("Error"),
        }
    }

    /// Whether an advance is legal in this state.
    pub open spec fn spec_can_advance(&self) -> bool {
        self is ShowingText || self is ChoiceSelected
    }

    /// Checks whether the dialogue can advance from this state.
    #[verifier::when_used_as_spec(spec_can_advance)]
    pub fn can_advance(&self) -> (r: bool)
        ensures
            r == self.spec_can_advance(),
    {
        match self {
            DialogueState::ShowingText => true,
            DialogueState::ChoiceSelected(_) => true,
            _ => false,
        }
    }

    /// Whether selecting a choice is legal in this state.
    pub open spec fn spec_can_select_choice(&self) -> bool {
        self is WaitingForChoice || self is ChoiceSelected
    }

    /// Checks whether a choice can be selected in this state.
    #[verifier::when_used_as_spec(spec_can_select_choice)]
    pub fn can_select_choice(&self) -> (r: bool)
        ensures
            r == self.spec_can_select_choice(),
    {
        match self {
            DialogueState::WaitingForChoice => true,
            DialogueState::ChoiceSelected(_) => true,
            _ => false,
        }
    }
}

/// The state a runner shows while standing on `node`: text nodes await an
/// advance, choice nodes await a selection.
pub open spec fn state_for(node: DialogueNode) -> DialogueState {
    match node {
        DialogueNode::Text { .. } => DialogueState::ShowingText,
        DialogueNode::Choice { .. } => DialogueState::WaitingForChoice,
    }
}

/// The choice index an advance uses: the one recorded in the state if a
/// selection was made, else the separately tracked field.
pub open spec fn chosen_index(st: DialogueState, selected: Option<usize>) -> Option<usize> {
    match st {
        DialogueState::ChoiceSelected(i) => Some(i),
        _ => selected,
    }
}

/// The per-conversation play head: current node, finite state, auto-advance
/// timer and pending selection.
#[derive(Debug)]
pub struct DialogueRunner {
    /// Id of the currently active node, if any.
    pub current_node_id: Option<NodeId>,
    /// Current state of the dialogue.
    pub state: DialogueState,
    /// Whether text nodes advance automatically once the timer elapses.
    pub auto_advance: bool,
    /// How long auto-advance waits, in milliseconds.
    pub auto_advance_time_ms: u64,
    /// Time accumulated towards the next auto-advance, in milliseconds.
    pub auto_advance_timer_ms: u64,
    /// The selected choice index, if any.
    pub selected_choice: Option<usize>,
    /// Free-form variable storage, reserved for future condition and action
    /// nodes; not read by the core logic.
    pub variables: HashMap<String, String>,
}

/// How one `advance` call relates the runner before (`pre`) and after
/// (`post`), with its result `r`, against the graph `g`.
///
/// Errors leave the runner unchanged. A successful advance from a text node
/// follows the first outgoing edge, or finishes when there is none; from a
/// choice node it follows the edge at the chosen index and clears the
/// selection. Any successful advance — finishing included — resets the
/// auto-advance timer.
pub open spec fn advance_rel(
    pre: DialogueRunner,
    g: DialogueGraph,
    r: DialogueResult<()>,
    post: DialogueRunner,
) -> bool {
    &&& (r is Err ==> post == pre)
    &&& (!pre.state.spec_can_advance() ==> ({
        &&& r matches Err(DialogueError::InvalidStateTransition { from, action })
        &&& from@ == pre.state.name_spec()
        &&& action@ == "advance"@
    }))
    &&& (pre.state.spec_can_advance() ==> match pre.current_node_id {
        None => r == Err::<(), DialogueError>(DialogueError::NoCurrentNode),
        Some(c) => {
            if !g.has_node(c) {
                r == Err::<(), DialogueError>(DialogueError::NodeNotFound(c))
            } else {
                let conns = g.spec_connections(c);
                match g.spec_get_node(c) {
                    DialogueNode::Text { .. } => {
                        if conns.len() == 0 {
                            r is Ok && post == DialogueRunner {
                                state: DialogueState::Finished,
                                auto_advance_timer_ms: 0,
                                ..pre
                            }
                        } else {
                            let next = conns[0].to;
                            r is Ok && post == DialogueRunner {
                                current_node_id: Some(next),
                                state: state_for(g.spec_get_node(next)),
                                auto_advance_timer_ms: 0,
                                ..pre
                            }
                        }
                    },
                    DialogueNode::Choice { .. } => {
                        match chosen_index(pre.state, pre.selected_choice) {
                            None => r == Err::<(), DialogueError>(DialogueError::NoChoiceSelected),
                            Some(idx) => {
                                if idx as int >= conns.len() {
                                    r == Err::<(), DialogueError>(
                                        DialogueError::InvalidChoiceIndex(
                                            idx,
                                            if conns.len() == 0 {
                                                0
                                            } else {
                                                (conns.len() - 1) as usize
                                            },
                                        ),
                                    )
                                } else {
                                    let next = conns[idx as int].to;
                                    r is Ok && post == DialogueRunner {
                                        current_node_id: Some(next),
                                        state: state_for(g.spec_get_node(next)),
                                        auto_advance_timer_ms: 0,
                                        selected_choice: None,
                                        ..pre
                                    }
                                }
                            },
                        }
                    },
                }
            }
        },
    })
}

/// The error an advance from `pre` against `g` must report, or `None` when
/// the advance succeeds. Meaningful when `pre.state` permits advancing; every
/// possible failure there carries plain data, so the error value is pinned
/// exactly.
pub open spec fn advance_failure(pre: DialogueRunner, g: DialogueGraph) -> Option<DialogueError> {
    match pre.current_node_id {
        None => Some(DialogueError::NoCurrentNode),
        Some(c) => {
            if !g.has_node(c) {
                Some(DialogueError::NodeNotFound(c))
            } else {
                let conns = g.spec_connections(c);
                match g.spec_get_node(c) {
                    DialogueNode::Text { .. } => None,
                    DialogueNode::Choice { .. } => {
                        match chosen_index(pre.state, pre.selected_choice) {
                            None => Some(DialogueError::NoChoiceSelected),
                            Some(idx) => {
                                if idx as int >= conns.len() {
                                    Some(
                                        DialogueError::InvalidChoiceIndex(
                                            idx,
                                            if conns.len() == 0 {
                                                0
                                            } else {
                                                (conns.len() - 1) as usize
                                            },
                                        ),
                                    )
                                } else {
                                    None
                                }
                            },
                        }
                    },
                }
            }
        },
    }
}

/// How one auto-advance tick relates the runner before and after.
///
/// Only a runner that is showing text with auto-advance enabled accumulates
/// time; once the timer reaches the configured delay the runner advances as
/// `advance` would, and a failed advance is captured as the `Error` state
/// carrying the error's message.
pub open spec fn tick_rel(
    pre: DialogueRunner,
    g: DialogueGraph,
    delta_ms: u64,
    post: DialogueRunner,
) -> bool {
    if !(pre.state is ShowingText && pre.auto_advance) {
        post == pre
    } else {
        let t = if pre.auto_advance_timer_ms + delta_ms > u64::MAX {
            u64::MAX
        } else {
            (pre.auto_advance_timer_ms + delta_ms) as u64
        };
        let ticked = DialogueRunner { auto_advance_timer_ms: t, ..pre };
        if t < pre.auto_advance_time_ms {
            post == ticked
        } else {
            match advance_failure(ticked, g) {
                None => advance_rel(ticked, g, Ok(()), post),
                Some(e) => {
                    &&& post.current_node_id == ticked.current_node_id
                    &&& post.auto_advance == ticked.auto_advance
                    &&& post.auto_advance_time_ms == ticked.auto_advance_time_ms
                    &&& post.auto_advance_timer_ms == ticked.auto_advance_timer_ms
                    &&& post.selected_choice == ticked.selected_choice
                    &&& post.variables == ticked.variables
                    &&& post.state matches DialogueState::Error(m) && m@ == e.message_spec()
                },
            }
        }
    }
}

impl Default for DialogueRunner {
    /// An inactive runner with auto-advance off and a two-second delay.
    fn default() -> (r: Self)
        ensures
            r.current_node_id is None,
            r.state == DialogueState::Inactive,
            r.auto_advance == false,
            r.auto_advance_time_ms == 2000,
            r.auto_advance_timer_ms == 0,
            r.selected_choice is None,
            r.variables@ == Map::<String, String>::empty(),
    {
        DialogueRunner {
            current_node_id: None,
            state: DialogueState::Inactive,
            auto_advance: false,
            auto_advance_time_ms: 2000,
            auto_advance_timer_ms: 0,
            selected_choice: None,
            variables: HashMap::new(),
        }
    }
}

impl DialogueRunner {
    /// Creates a new inactive dialogue runner.
    pub fn new() -> (r: Self)
        ensures
            r.current_node_id is None,
            r.state == DialogueState::Inactive,
            r.auto_advance == false,
            r.auto_advance_time_ms == 2000,
            r.auto_advance_timer_ms == 0,
            r.selected_choice is None,
            r.variables@ == Map::<String, String>::empty(),
    {
        DialogueRunner {
            current_node_id: None,
            state: DialogueState::Inactive,
            auto_advance: false,
            auto_advance_time_ms: 2000,
            auto_advance_timer_ms: 0,
            selected_choice: None,
            variables: HashMap::new(),
        }
    }

    /// Starts the dialogue from the asset's start node.
    ///
    /// The state follows the start node's variant; a start node that does not
    /// resolve in the graph is captured as the `Error` state rather than
    /// raised. The auto-advance timer is reset either way.
    pub fn start(&mut self, dialogue: &DialogueAsset)
        requires
            dialogue.graph.wf(),
        ensures
            final(self).current_node_id == Some(dialogue.graph.start_node),
            final(self).auto_advance_timer_ms == 0,
            final(self).auto_advance == old(self).auto_advance,
            final(self).auto_advance_time_ms == old(self).auto_advance_time_ms,
            final(self).selected_choice == old(self).selected_choice,
            final(self).variables == old(self).variables,
            dialogue.graph.has_node(dialogue.graph.start_node) ==> final(self).state == state_for(
                dialogue.graph.spec_get_node(dialogue.graph.start_node),
            ),
            !dialogue.graph.has_node(dialogue.graph.start_node) ==> ({
                &&& final(self).state matches DialogueState::Error(m)
                &&& m@ == "start node "@ + crate::error::decimal_digits(
                    dialogue.graph.start_node.0 as nat,
                ) + " not found"@
            }),
    {
        let start_id = dialogue.graph.start_node;
        self.current_node_id = Some(start_id);
        match dialogue.graph.get_node(start_id) {
            Some(node) => {
                match node {
                    DialogueNode::Text { .. } => {
                        self.state = DialogueState::ShowingText;
                    },
                    DialogueNode::Choice { .. } => {
                        self.state = DialogueState::WaitingForChoice;
                    },
                }
            },
            None => {
                let msg = String::from_str("start node ").concat(
                    crate::error::u64_to_string(start_id.0 as u64).as_str(),
                ).concat(" not found");
                proof {
                    assert(msg@ =~= "start node "@ + crate::error::decimal_digits(
                        start_id.0 as nat,
                    ) + " not found"@);
                }
                self.state = DialogueState::Error(msg);
            },
        }
        self.auto_advance_timer_ms = 0;
    }

    /// Advances to the next node.
    ///
    /// Legal only while showing text or after a choice was selected. From a
    /// text node the first outgoing edge is followed (no edges means the
    /// dialogue finishes); from a choice node the edge at the chosen index is
    /// followed and the selection is cleared. Every failure is returned as a
    /// typed error and leaves the runner unchanged.
    pub fn advance(&mut self, dialogue: &DialogueAsset) -> (r: DialogueResult<()>)
        requires
            dialogue.graph.wf(),
        ensures
            advance_rel(*old(self), dialogue.graph, r, *final(self)),
    {
        if !self.state.can_advance() {
            return Err(
                DialogueError::InvalidStateTransition {
                    from: self.state.name(),
                    action: String::from_str("advance"),
                },
            );
        }
        let current_id = match self.current_node_id {
            Some(c) => c,
            None => {
                return Err(DialogueError::NoCurrentNode);
            },
        };
        let conns = dialogue.graph.get_connections(current_id);
        proof {
            lemma_connections_from_elems_for(dialogue.graph, current_id);
        }
        let is_text = match dialogue.graph.get_node(current_id) {
            Some(DialogueNode::Text { .. }) => true,
            Some(DialogueNode::Choice { .. }) => false,
            None => {
                return Err(DialogueError::NodeNotFound(current_id));
            },
        };
        if is_text {
            if conns.len() == 0 {
                self.state = DialogueState::Finished;
                self.auto_advance_timer_ms = 0;
                return Ok(());
            }
            let next = conns[0].0;
            let next_state = match dialogue.graph.get_node(next) {
                Some(DialogueNode::Text { .. }) => DialogueState::ShowingText,
                Some(DialogueNode::Choice { .. }) => DialogueState::WaitingForChoice,
                None => {
                    return Err(DialogueError::NextNodeNotFound(next));
                },
            };
            self.current_node_id = Some(next);
            self.state = next_state;
            self.auto_advance_timer_ms = 0;
            Ok(())
        } else {
            let choice_index = match self.state {
                DialogueState::ChoiceSelected(index) => index,
                _ => {
                    match self.selected_choice {
                        Some(index) => index,
                        None => {
                            return Err(DialogueError::NoChoiceSelected);
                        },
                    }
                },
            };
            if choice_index >= conns.len() {
                let max = if conns.len() == 0 {
                    0
                } else {
                    conns.len() - 1
                };
                return Err(DialogueError::InvalidChoiceIndex(choice_index, max));
            }
            let next = conns[choice_index].0;
            let next_state = match dialogue.graph.get_node(next) {
                Some(DialogueNode::Text { .. }) => DialogueState::ShowingText,
                Some(DialogueNode::Choice { .. }) => DialogueState::WaitingForChoice,
                None => {
                    return Err(DialogueError::NextNodeNotFound(next));
                },
            };
            self.current_node_id = Some(next);
            self.selected_choice = None;
            self.state = next_state;
            self.auto_advance_timer_ms = 0;
            Ok(())
        }
    }

    /// Records a choice selection.
    ///
    /// Legal only while waiting for a choice or re-selecting. The index is
    /// not validated against the node's edge count here; an out-of-range
    /// index is detected by `advance`.
    pub fn select_choice(&mut self, choice_index: usize) -> (r: DialogueResult<()>)
        ensures
            !old(self).state.spec_can_select_choice() ==> ({
                &&& *final(self) == *old(self)
                &&& r matches Err(DialogueError::InvalidStateTransition { from, action })
                &&& from@ == old(self).state.name_spec()
                &&& action@ == "select_choice"@
            }),
            old(self).state.spec_can_select_choice() ==> r is Ok && *final(self)
                == (DialogueRunner {
                state: DialogueState::ChoiceSelected(choice_index),
                selected_choice: Some(choice_index),
                ..*old(self)
            }),
    {
        if !self.state.can_select_choice() {
            return Err(
                DialogueError::InvalidStateTransition {
                    from: self.state.name(),
                    action: String::from_str("select_choice"),
                },
            );
        }
        self.selected_choice = Some(choice_index);
        self.state = DialogueState::ChoiceSelected(choice_index);
        Ok(())
    }

    /// Looks the current node up in the asset's graph.
    pub fn current_node<'a>(&self, dialogue: &'a DialogueAsset) -> (r: Option<&'a DialogueNode>)
        requires
            dialogue.graph.wf(),
        ensures
            match r {
                Some(node) => self.current_node_id matches Some(c) && dialogue.graph.has_node(c)
                    && *node == dialogue.graph.spec_get_node(c),
                None => self.current_node_id is None || (self.current_node_id matches Some(c)
                    && !dialogue.graph.has_node(c)),
            },
    {
        match self.current_node_id {
            Some(id) => dialogue.graph.get_node(id),
            None => None,
        }
    }

    /// Whether the dialogue has reached its end.
    pub fn is_finished(&self) -> (r: bool)
        ensures
            r == (self.state is Finished),
    {
        match self.state {
            DialogueState::Finished => true,
            _ => false,
        }
    }

    /// Stops the dialogue, returning to the inactive state.
    ///
    /// Always succeeds, from any state; the current node and any pending
    /// selection are cleared.
    pub fn stop(&mut self)
        ensures
            *final(self) == (DialogueRunner {
                state: DialogueState::Inactive,
                current_node_id: None,
                selected_choice: None,
                ..*old(self)
            }),
    {
        self.state = DialogueState::Inactive;
        self.current_node_id = None;
        self.selected_choice = None;
    }

    /// Accumulates `delta_ms` of elapsed time towards auto-advance.
    ///
    /// Only a runner that is showing text with auto-advance enabled
    /// accumulates; when the configured delay is reached the runner advances,
    /// and a failed advance is captured as the `Error` state.
    pub fn tick(&mut self, dialogue: &DialogueAsset, delta_ms: u64)
        requires
            dialogue.graph.wf(),
        ensures
            tick_rel(*old(self), dialogue.graph, delta_ms, *final(self)),
    {
        let is_showing = match self.state {
            DialogueState::ShowingText => true,
            _ => false,
        };
        if !(is_showing && self.auto_advance) {
            return ;
        }
        let remaining = u64::MAX - self.auto_advance_timer_ms;
        if delta_ms > remaining {
            self.auto_advance_timer_ms = u64::MAX;
        } else {
            self.auto_advance_timer_ms = self.auto_advance_timer_ms + delta_ms;
        }
        proof {
            let pre = *old(self);
            let t = if pre.auto_advance_timer_ms + delta_ms > u64::MAX {
                u64::MAX
            } else {
                (pre.auto_advance_timer_ms + delta_ms) as u64
            };
            assert(*self == (DialogueRunner { auto_advance_timer_ms: t, ..pre }));
        }
        if self.auto_advance_timer_ms < self.auto_advance_time_ms {
            return ;
        }
        let ghost ticked = *self;
        let res = self.advance(dialogue);
        let ghost res0 = res;
        let ghost mid = *self;
        match res {
            Ok(u) => {
                proof {
                    assert(advance_rel(ticked, dialogue.graph, res0, mid));
                    assert(u == ());
                    assert(res0 == Ok::<(), DialogueError>(()));
                    assert(advance_failure(ticked, dialogue.graph) is None);
                    assert(tick_rel(*old(self), dialogue.graph, delta_ms, *self));
                }
            },
            Err(e) => {
                let msg = e.message();
                let ghost e0 = e;
                self.state = DialogueState::Error(msg);
                proof {
                    assert(res0 == Err::<(), DialogueError>(e0));
                    assert(advance_rel(ticked, dialogue.graph, res0, mid));
                    assert(mid == ticked);
                    assert(advance_failure(ticked, dialogue.graph) == Some(e0));
                    assert(self.state matches DialogueState::Error(m) && m@ == e0.message_spec());
                    assert(tick_rel(*old(self), dialogue.graph, delta_ms, *self));
                }
            },
        }
    }
}

/// Bridges the graph's connection list to the facts `advance` needs: each
/// listed connection is an edge of a well-formed graph, so its target is a
/// present node.
proof fn lemma_connections_from_elems_for(g: DialogueGraph, from: NodeId)
    requires
        g.wf(),
    ensures
        forall|j: int|
            0 <= j < g.spec_connections(from).len() ==> g.has_node(
                (#[trigger] g.spec_connections(from)[j]).to,
            ),
{
    crate::graph::lemma_connections_from_elems(g.edges_seq(), from);
    assert forall|j: int| 0 <= j < g.spec_connections(from).len() implies g.has_node(
        (#[trigger] g.spec_connections(from)[j]).to,
    ) by {
        let e = g.spec_connections(from)[j];
        let k = choose|k: int| 0 <= k < g.edges_seq().len() && g.edges_seq()[k] == e;
        assert(g.has_node(g.edges_seq()[k].to));
    }
}

} // verus!
