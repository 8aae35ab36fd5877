//! Error types for the dialogue system.
//!
//! Every fallible operation returns one of these as data; nothing in the
//! library panics on a bad input. Structural errors come from graph
//! validation and mutation; runtime errors come from the state machine.

use vstd::prelude::*;
use vstd::string::StringExecFns;

use crate::node::NodeId;

verus! {

/// The character for one decimal digit.
pub open spec fn digit_char(d: nat) -> char {
    if d == 0 {
        '0'
    } else if d == 1 {
        '1'
    } else if d == 2 {
        '2'
    } else if d == 3 {
        '3'
    } else if d == 4 {
        '4'
    } else if d == 5 {
        '5'
    } else if d == 6 {
        '6'
    } else if d == 7 {
        '7'
    } else if d == 8 {
        '8'
    } else {
        '9'
    }
}

/// The decimal digits of `n`, most significant first.
pub open spec fn decimal_digits(n: nat) -> Seq<char>
    decreases n,
{
    if n < 10 {
        seq![digit_char(n)]
    } else {
        decimal_digits(n / 10).push(digit_char(n % 10))
    }
}

/// Writes a number in decimal, so that error messages can name the node ids
/// and indices they are about.
pub fn u64_to_string(n: u64) -> (r: String)
    ensures
        r@ == decimal_digits(n as nat),
    decreases n,
{
    proof {
        reveal_strlit("0");
        reveal_strlit("1");
        reveal_strlit("2");
        reveal_strlit("3");
        reveal_strlit("4");
        reveal_strlit("5");
        reveal_strlit("6");
        reveal_strlit("7");
        reveal_strlit("8");
        reveal_strlit("9");
    }
    let d = n % 10;
    let digit = if d == 0 {
        "0"
    } else if d == 1 {
        "1"
    } else if d == 2 {
        "2"
    } else if d == 3 {
        "3"
    } else if d == 4 {
        "4"
    } else if d == 5 {
        "5"
    } else if d == 6 {
        "6"
    } else if d == 7 {
        "7"
    } else if d == 8 {
        "8"
    } else {
        "9"
    };
    proof {
        assert(digit@ =~= seq![digit_char((n % 10) as nat)]);
    }
    if n < 10 {
        String::from_str(digit)
    } else {
        let prefix = u64_to_string(n / 10);
        let r = prefix.concat(digit);
        proof {
            assert(r@ =~= decimal_digits(n as nat));
        }
        r
    }
}

/// Structural errors reported by graph validation and mutation calls.
#[derive(Debug, Clone, Copy, PartialEq, Eq, Structural)]
pub enum GraphError {
    /// The named node is not present in the graph.
    NodeNotFound(NodeId),
    /// An edge references an endpoint that is not present in the graph.
    EdgeEndpointNotFound {
        /// Source node of the offending edge.
        from: NodeId,
        /// Target node of the offending edge.
        to: NodeId,
        /// Whichever endpoint is missing.
        missing: NodeId,
    },
    /// The designated start node is not present in the graph.
    StartNodeMissing(NodeId),
    /// The named node cannot be reached from the start node.
    UnreachableNode(NodeId),
    /// No edge exists between the named ordered pair of nodes.
    NoConnection {
        /// Source node of the requested pair.
        from: NodeId,
        /// Target node of the requested pair.
        to: NodeId,
    },
    /// The id map lacks the named node's entry, or points it at the wrong
    /// position.
    MappingInconsistent(NodeId),
    /// The id map holds an entry for no stored node.
    MappingStale,
}

impl GraphError {
    /// What `message` returns, as a sequence of characters.
    pub open spec fn message_spec(&self) -> Seq<char> {
        match self {
            GraphError::NodeNotFound(id) => "node "@ + decimal_digits(id.0 as nat)
                + " not found"@,
            GraphError::EdgeEndpointNotFound { missing, .. } => "edge endpoint "@
                + decimal_digits(missing.0 as nat) + " not found"@,
            GraphError::StartNodeMissing(id) => "start node "@ + decimal_digits(id.0 as nat)
                + " does not exist"@,
            GraphError::UnreachableNode(id) => "node "@ + decimal_digits(id.0 as nat)
                + " is unreachable from start node"@,
            GraphError::NoConnection { from, to } => "no connection from "@ + decimal_digits(
                from.0 as nat,
            ) + " to "@ + decimal_digits(to.0 as nat),
            GraphError::MappingInconsistent(id) => "node mapping for "@ + decimal_digits(
                id.0 as nat,
            ) + " is inconsistent"@,
            GraphError::MappingStale => "node mapping holds a stale entry"@,
        }
    }

    /// A human-readable description of the error, naming the offending node.
    pub fn message(&self) -> (r: String)
        ensures
            r@ == self.message_spec(),
    {
        match self {
            GraphError::NodeNotFound(id) => {
                let r = String::from_str("node ").concat(
                    u64_to_string(id.0 as u64).as_str(),
                ).concat(" not found");
                proof {
                    assert(r@ =~= self.message_spec());
                }
                r
            },
            GraphError::EdgeEndpointNotFound { missing, .. } => {
                let r = String::from_str("edge endpoint ").concat(
                    u64_to_string(missing.0 as u64).as_str(),
                ).concat(" not found");
                proof {
                    assert(r@ =~= self.message_spec());
                }
                r
            },
            GraphError::StartNodeMissing(id) => {
                let r = String::from_str("start node ").concat(
                    u64_to_string(id.0 as u64).as_str(),
                ).concat(" does not exist");
                proof {
                    assert(r@ =~= self.message_spec());
                }
                r
            },
            GraphError::UnreachableNode(id) => {
                let r = String::from_str("node ").concat(
                    u64_to_string(id.0 as u64).as_str(),
                ).concat(" is unreachable from start node");
                proof {
                    assert(r@ =~= self.message_spec());
                }
                r
            },
            GraphError::NoConnection { from, to } => {
                let r = String::from_str("no connection from ").concat(
                    u64_to_string(from.0 as u64).as_str(),
                ).concat(" to ").concat(u64_to_string(to.0 as u64).as_str());
                proof {
                    assert(r@ =~= self.message_spec());
                }
                r
            },
            GraphError::MappingInconsistent(id) => {
                let r = String::from_str("node mapping for ").concat(
                    u64_to_string(id.0 as u64).as_str(),
                ).concat(" is inconsistent");
                proof {
                    assert(r@ =~= self.message_spec());
                }
                r
            },
            GraphError::MappingStale => String::from_str("node mapping holds a stale entry"),
        }
    }
}

/// Errors reported by runtime dialogue processing.
#[derive(Debug, PartialEq, Eq)]
pub enum DialogueError {
    /// No current node is active.
    NoCurrentNode,
    /// The current node id does not resolve in the dialogue graph.
    NodeNotFound(NodeId),
    /// The target of a followed edge does not resolve in the dialogue graph.
    NextNodeNotFound(NodeId),
    /// A choice node was advanced without any selected choice.
    NoChoiceSelected,
    /// The selected choice index is out of bounds; carries the index given
    /// and the largest valid index.
    InvalidChoiceIndex(usize, usize),
    /// The attempted action is not legal in the current state.
    InvalidStateTransition {
        /// Name of the state the runner was in.
        from: String,
        /// The action that was attempted.
        action: String,
    },
    /// A structural problem with the underlying graph.
    GraphError(String),
    /// The dialogue asset has not been loaded yet.
    AssetNotLoaded,
}

impl Clone for DialogueError {
    /// The copy equals the original.
    fn clone(&self) -> (r: Self)
        ensures
            r == *self,
    {
        match self {
            DialogueError::NoCurrentNode => DialogueError::NoCurrentNode,
            DialogueError::NodeNotFound(id) => DialogueError::NodeNotFound(*id),
            DialogueError::NextNodeNotFound(id) => DialogueError::NextNodeNotFound(*id),
            DialogueError::NoChoiceSelected => DialogueError::NoChoiceSelected,
            DialogueError::InvalidChoiceIndex(given, max) => DialogueError::InvalidChoiceIndex(
                *given,
                *max,
            ),
            DialogueError::InvalidStateTransition { from, action } => DialogueError::InvalidStateTransition {
                from: from.clone(),
                action: action.clone(),
            },
            DialogueError::GraphError(msg) => DialogueError::GraphError(msg.clone()),
            DialogueError::AssetNotLoaded => DialogueError::AssetNotLoaded,
        }
    }
}

impl DialogueError {
    /// What `message` returns, as a sequence of characters.
    pub open spec fn message_spec(&self) -> Seq<char> {
        match self {
            DialogueError::NoCurrentNode => "no current dialogue node"@,
            DialogueError::NodeNotFound(id) => "node "@ + decimal_digits(id.0 as nat)
                + " not found in dialogue"@,
            DialogueError::NextNodeNotFound(id) => "next node "@ + decimal_digits(id.0 as nat)
                + " not found"@,
            DialogueError::NoChoiceSelected => "no choice selected for choice node"@,
            DialogueError::InvalidChoiceIndex(given, max) => "invalid choice index "@
                + decimal_digits(*given as nat) + " (max: "@ + decimal_digits(*max as nat)
                + ")"@,
            DialogueError::InvalidStateTransition { from, action } => "invalid state transition: cannot "@
                + action@ + " from "@ + from@,
            DialogueError::GraphError(msg) => "graph error: "@ + msg@,
            DialogueError::AssetNotLoaded => "dialogue asset not loaded"@,
        }
    }

    /// A human-readable description of the error, naming the node or index
    /// it is about.
    pub fn message(&self) -> (r: String)
        ensures
            r@ == self.message_spec(),
    {
        match self {
            DialogueError::NoCurrentNode => String::from_str("no current dialogue node"),
            DialogueError::NodeNotFound(id) => {
                let r = String::from_str("node ").concat(
                    u64_to_string(id.0 as u64).as_str(),
                ).concat(" not found in dialogue");
                proof {
                    assert(r@ =~= self.message_spec());
                }
                r
            },
            DialogueError::NextNodeNotFound(id) => {
                let r = String::from_str("next node ").concat(
                    u64_to_string(id.0 as u64).as_str(),
                ).concat(" not found");
                proof {
                    assert(r@ =~= self.message_spec());
                }
                r
            },
            DialogueError::NoChoiceSelected => String::from_str(
                "no choice selected for choice node",
            ),
            DialogueError::InvalidChoiceIndex(given, max) => {
                let r = String::from_str("invalid choice index ").concat(
                    u64_to_string(*given as u64).as_str(),
                ).concat(" (max: ").concat(u64_to_string(*max as u64).as_str()).concat(")");
                proof {
                    assert(r@ =~= self.message_spec());
                }
                r
            },
            DialogueError::InvalidStateTransition { from, action } => {
                let r = String::from_str("invalid state transition: cannot ").concat(
                    action.as_str(),
                ).concat(" from ").concat(from.as_str());
                proof {
                    assert(r@ =~= self.message_spec());
                }
                r
            },
            DialogueError::GraphError(msg) => {
                let r = String::from_str("graph error: ").concat(msg.as_str());
                r
            },
            DialogueError::AssetNotLoaded => String::from_str("dialogue asset not loaded"),
        }
    }
}

/// Result type for runtime dialogue operations.
pub type DialogueResult<T> = Result<T, DialogueError>;

} // verus!
