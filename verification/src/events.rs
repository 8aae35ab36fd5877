//! The event-driven driver: command events in, notification events out.
//!
//! A host delivers command events (start, stop, advance, select) for one
//! conversation at a time; the driver applies them to that conversation's
//! runner and returns the notifications the host should publish. Errors from
//! the runner are captured into its `Error` state rather than re-raised: a
//! conversation stuck in `Error` rejects further advances until it is stopped
//! and restarted.

use vstd::prelude::*;

use crate::asset::DialogueAsset;
use crate::node::NodeId;
use crate::runner::{advance_failure, advance_rel, DialogueRunner, DialogueState};

verus! {

/// A command a host sends to drive one conversation.
///
/// The opaque conversation owner (an entity, a session id) and the asset
/// handle are the host's concern; the host resolves them and calls
/// `handle_dialogue_event` with the owner's runner and the loaded asset.
#[derive(Debug, Clone, Copy, PartialEq, Eq, Structural)]
pub enum DialogueCommand {
    /// Start the conversation from the asset's start node.
    StartDialogue,
    /// Stop the conversation unconditionally.
    StopDialogue,
    /// Move to the next node.
    AdvanceDialogue,
    /// Select a choice by its zero-based index.
    SelectDialogueChoice {
        /// The index of the choice to select.
        choice_index: usize,
    },
}

/// A notification the driver emits for the host to publish.
#[derive(Debug, Clone, Copy, PartialEq, Eq, Structural)]
pub enum DialogueNotification {
    /// The conversation started at the given node.
    DialogueStarted {
        /// Id of the start node.
        start_node_id: NodeId,
    },
    /// The conversation moved to a new node.
    DialogueNodeActivated {
        /// Id of the activated node.
        node_id: NodeId,
    },
    /// The player selected a choice on the given node.
    DialogueChoiceMade {
        /// Id of the choice node.
        node_id: NodeId,
        /// The selected index.
        choice_index: usize,
    },
    /// The conversation ended, normally or by a stop command.
    DialogueEnded {
        /// Whether the end was reached by play rather than forced.
        normal_exit: bool,
    },
}

/// Applies one command to one conversation's runner and returns the
/// notifications to publish.
///
/// `asset` is the runner's dialogue if the host has it loaded; start and
/// advance commands are ignored while it is not. A failed advance parks the
/// runner in the `Error` state, carrying the error's message.
pub fn handle_dialogue_event(
    runner: &mut DialogueRunner,
    asset: Option<&DialogueAsset>,
    command: &DialogueCommand,
) -> (r: Vec<DialogueNotification>)
    requires
        asset matches Some(d) ==> d.graph.wf(),
    ensures
        final(runner).auto_advance == old(runner).auto_advance,
        final(runner).auto_advance_time_ms == old(runner).auto_advance_time_ms,
        final(runner).variables == old(runner).variables,
        match *command {
            DialogueCommand::StartDialogue => match asset {
                None => *final(runner) == *old(runner) && r@ == Seq::<
                    DialogueNotification,
                >::empty(),
                Some(d) => {
                    let g = d.graph;
                    &&& final(runner).current_node_id == Some(g.start_node)
                    &&& final(runner).auto_advance_timer_ms == 0
                    &&& final(runner).selected_choice == old(runner).selected_choice
                    &&& (g.has_node(g.start_node) ==> final(runner).state
                        == crate::runner::state_for(g.spec_get_node(g.start_node)))
                    &&& (!g.has_node(g.start_node) ==> final(runner).state is Error)
                    &&& r@ == seq![
                        DialogueNotification::DialogueNodeActivated { node_id: g.start_node },
                        DialogueNotification::DialogueStarted { start_node_id: g.start_node },
                    ]
                },
            },
            DialogueCommand::StopDialogue => {
                &&& *final(runner) == (DialogueRunner {
                    state: DialogueState::Inactive,
                    current_node_id: None,
                    selected_choice: None,
                    ..*old(runner)
                })
                &&& r@ == seq![DialogueNotification::DialogueEnded { normal_exit: false }]
            },
            DialogueCommand::AdvanceDialogue => match asset {
                None => *final(runner) == *old(runner) && r@ == Seq::<
                    DialogueNotification,
                >::empty(),
                Some(d) => {
                    let g = d.graph;
                    let pre = *old(runner);
                    if !pre.state.spec_can_advance() {
                        &&& final(runner).current_node_id == pre.current_node_id
                        &&& final(runner).auto_advance_timer_ms == pre.auto_advance_timer_ms
                        &&& final(runner).selected_choice == pre.selected_choice
                        &&& final(runner).state matches DialogueState::Error(m) && m@
                            == "invalid state transition: cannot "@ + "advance"@ + " from "@
                            + pre.state.name_spec()
                        &&& r@ == Seq::<DialogueNotification>::empty()
                    } else {
                        match advance_failure(pre, g) {
                            Some(e) => {
                                &&& final(runner).current_node_id == pre.current_node_id
                                &&& final(runner).auto_advance_timer_ms
                                    == pre.auto_advance_timer_ms
                                &&& final(runner).selected_choice == pre.selected_choice
                                &&& final(runner).state matches DialogueState::Error(m) && m@
                                    == e.message_spec()
                                &&& r@ == Seq::<DialogueNotification>::empty()
                            },
                            None => {
                                &&& advance_rel(pre, g, Ok(()), *final(runner))
                                &&& (final(runner).state is Finished ==> r@ == seq![
                                    DialogueNotification::DialogueEnded { normal_exit: true },
                                ])
                                &&& (!(final(runner).state is Finished) ==> ({
                                    if final(runner).current_node_id == pre.current_node_id {
                                        r@ == Seq::<DialogueNotification>::empty()
                                    } else {
                                        r@ == seq![
                                            DialogueNotification::DialogueNodeActivated {
                                                node_id: final(runner).current_node_id->0,
                                            },
                                        ]
                                    }
                                }))
                            },
                        }
                    }
                },
            },
            DialogueCommand::SelectDialogueChoice { choice_index } => {
                if !old(runner).state.spec_can_select_choice() || old(runner).current_node_id
                    is None {
                    *final(runner) == *old(runner) && r@ == Seq::<DialogueNotification>::empty()
                } else {
                    &&& *final(runner) == (DialogueRunner {
                        state: DialogueState::ChoiceSelected(choice_index),
                        selected_choice: Some(choice_index),
                        ..*old(runner)
                    })
                    &&& r@ == seq![
                        DialogueNotification::DialogueChoiceMade {
                            node_id: old(runner).current_node_id->0,
                            choice_index,
                        },
                    ]
                }
            },
        },
{
    let mut out: Vec<DialogueNotification> = Vec::new();
    match command {
        DialogueCommand::StartDialogue => {
            match asset {
                Some(d) => {
                    runner.start(d);
                    match runner.current_node_id {
                        Some(node_id) => {
                            out.push(DialogueNotification::DialogueNodeActivated { node_id });
                            out.push(
                                DialogueNotification::DialogueStarted { start_node_id: node_id },
                            );
                            proof {
                                assert(out@ =~= seq![
                                    DialogueNotification::DialogueNodeActivated {
                                        node_id: d.graph.start_node,
                                    },
                                    DialogueNotification::DialogueStarted {
                                        start_node_id: d.graph.start_node,
                                    },
                                ]);
                            }
                        },
                        None => {},
                    }
                },
                None => {},
            }
        },
        DialogueCommand::StopDialogue => {
            out.push(DialogueNotification::DialogueEnded { normal_exit: false });
            runner.stop();
        },
        DialogueCommand::AdvanceDialogue => {
            match asset {
                Some(d) => {
                    let old_id = runner.current_node_id;
                    match runner.advance(d) {
                        Ok(_) => {
                            if runner.is_finished() {
                                out.push(
                                    DialogueNotification::DialogueEnded { normal_exit: true },
                                );
                            } else {
                                match runner.current_node_id {
                                    Some(node_id) => {
                                        let moved = match old_id {
                                            Some(o) => o.0 != node_id.0,
                                            None => true,
                                        };
                                        if moved {
                                            out.push(
                                                DialogueNotification::DialogueNodeActivated {
                                                    node_id,
                                                },
                                            );
                                        }
                                    },
                                    None => {},
                                }
                            }
                        },
                        Err(e) => {
                            let msg = e.message();
                            runner.state = DialogueState::Error(msg);
                        },
                    }
                },
                None => {},
            }
        },
        DialogueCommand::SelectDialogueChoice { choice_index } => {
            if runner.state.can_select_choice() {
                match runner.current_node_id {
                    Some(node_id) => {
                        let res = runner.select_choice(*choice_index);
                        match res {
                            Ok(_) => {},
                            Err(_) => {},
                        }
                        out.push(
                            DialogueNotification::DialogueChoiceMade {
                                node_id,
                                choice_index: *choice_index,
                            },
                        );
                    },
                    None => {},
                }
            }
        },
    }
    out
}

} // verus!
