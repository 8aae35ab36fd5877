//! A dialogue-tree library: branching conversations as a directed graph of
//! text and choice nodes keyed by stable identifiers, together with a runtime
//! state machine that walks the graph in response to player actions.
//!
//! The graph layer owns nodes and labeled edges, keeps a stable-id-to-index
//! mapping in sync across mutations, and validates reachability. The runtime
//! layer tracks a per-conversation play head through start / advance /
//! select-choice / stop transitions, including auto-advance timing. A plain
//! record form of a graph supports interchange with external loaders.

pub mod asset;
pub mod error;
pub mod events;
pub mod graph;
pub mod node;
pub mod nodes;
pub mod runner;
pub mod serial;

pub use asset::DialogueAsset;
pub use error::{DialogueError, DialogueResult, GraphError};
pub use events::{handle_dialogue_event, DialogueCommand, DialogueNotification};
pub use graph::DialogueGraph;
pub use runner::{DialogueRunner, DialogueState};
pub use node::{Connection, ConnectionData, NodeId};
pub use nodes::DialogueNode;
pub use serial::{ConnectionRecord, GraphData, NodeData, NodeKind};
