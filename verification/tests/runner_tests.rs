use funkus_dialogue::asset::DialogueAsset;
use funkus_dialogue::error::DialogueError;
use funkus_dialogue::events::{handle_dialogue_event, DialogueCommand, DialogueNotification};
use funkus_dialogue::graph::DialogueGraph;
use funkus_dialogue::node::{ConnectionData, NodeId};
use funkus_dialogue::nodes::DialogueNode;
use funkus_dialogue::runner::{DialogueRunner, DialogueState};

// Text(1, "Hi") -> Choice(2, "Pick") -> ["A" -> Text(3), "B" -> Text(4)]
fn scenario_asset() -> DialogueAsset {
    let mut graph = DialogueGraph::new(NodeId(1));
    graph.add_node(DialogueNode::text(NodeId(1), "Hi".to_string()));
    graph.add_node(
        DialogueNode::choice(NodeId(2))
            .with_prompt("Pick".to_string())
            .unwrap(),
    );
    graph.add_node(DialogueNode::text(NodeId(3), "got A".to_string()));
    graph.add_node(DialogueNode::text(NodeId(4), "got B".to_string()));
    graph
        .connect(NodeId(1), NodeId(2), ConnectionData::new(None))
        .unwrap();
    graph
        .connect(
            NodeId(2),
            NodeId(3),
            ConnectionData::new(Some("A".to_string())),
        )
        .unwrap();
    graph
        .connect(
            NodeId(2),
            NodeId(4),
            ConnectionData::new(Some("B".to_string())),
        )
        .unwrap();
    assert!(graph.validate().is_ok());
    DialogueAsset::new(graph)
}

#[test]
fn test_state_machine_walkthrough() {
    let asset = scenario_asset();
    let mut runner = DialogueRunner::new();

    runner.start(&asset);
    assert_eq!(runner.state, DialogueState::ShowingText);
    assert_eq!(runner.current_node_id, Some(NodeId(1)));

    runner.advance(&asset).unwrap();
    assert_eq!(runner.state, DialogueState::WaitingForChoice);
    assert_eq!(runner.current_node_id, Some(NodeId(2)));

    runner.select_choice(1).unwrap();
    assert_eq!(runner.state, DialogueState::ChoiceSelected(1));

    runner.advance(&asset).unwrap();
    assert_eq!(runner.state, DialogueState::ShowingText);
    assert_eq!(runner.current_node_id, Some(NodeId(4)));

    // Node 4 has no outgoing edges, so the dialogue finishes
    runner.auto_advance_timer_ms = 77;
    runner.advance(&asset).unwrap();
    assert_eq!(runner.state, DialogueState::Finished);
    assert!(runner.is_finished());
    // A successful advance resets the auto-advance timer, finishing included
    assert_eq!(runner.auto_advance_timer_ms, 0);
}

#[test]
fn test_invalid_choice_index() {
    let asset = scenario_asset();
    let mut runner = DialogueRunner::new();
    runner.start(&asset);
    runner.advance(&asset).unwrap();
    assert_eq!(runner.state, DialogueState::WaitingForChoice);

    // Selection does not validate the index; advance does
    runner.select_choice(5).unwrap();
    let err = runner.advance(&asset).unwrap_err();
    assert_eq!(err, DialogueError::InvalidChoiceIndex(5, 1));

    // The failed call leaves the runner unchanged
    assert_eq!(runner.state, DialogueState::ChoiceSelected(5));
    assert_eq!(runner.current_node_id, Some(NodeId(2)));
}

#[test]
fn test_advance_while_inactive() {
    let asset = scenario_asset();
    let mut runner = DialogueRunner::new();
    assert_eq!(runner.state, DialogueState::Inactive);

    let err = runner.advance(&asset).unwrap_err();
    match err {
        DialogueError::InvalidStateTransition { from, action } => {
            assert_eq!(from, "Inactive");
            assert_eq!(action, "advance");
        }
        other => panic!("expected InvalidStateTransition, got {:?}", other),
    }
    assert_eq!(runner.state, DialogueState::Inactive);
}

#[test]
fn test_select_choice_while_showing_text() {
    let asset = scenario_asset();
    let mut runner = DialogueRunner::new();
    runner.start(&asset);
    assert_eq!(runner.state, DialogueState::ShowingText);

    let err = runner.select_choice(0).unwrap_err();
    match err {
        DialogueError::InvalidStateTransition { from, action } => {
            assert_eq!(from, "ShowingText");
            assert_eq!(action, "select_choice");
        }
        other => panic!("expected InvalidStateTransition, got {:?}", other),
    }
}

#[test]
fn test_choice_order_is_stable() {
    // Edges added in order [c0, c1, c2] come back in that order, and
    // selecting index 1 follows c1.
    let mut graph = DialogueGraph::new(NodeId(10));
    graph.add_node(
        DialogueNode::choice(NodeId(10))
            .with_prompt("Pick".to_string())
            .unwrap(),
    );
    graph.add_node(DialogueNode::text(NodeId(11), "c0".to_string()));
    graph.add_node(DialogueNode::text(NodeId(12), "c1".to_string()));
    graph.add_node(DialogueNode::text(NodeId(13), "c2".to_string()));
    for (i, label) in [(11u32, "c0"), (12u32, "c1"), (13u32, "c2")] {
        graph
            .connect(
                NodeId(10),
                NodeId(i),
                ConnectionData::new(Some(label.to_string())),
            )
            .unwrap();
    }
    let listed = graph.get_connected_nodes(NodeId(10));
    assert_eq!(listed.len(), 3);
    assert_eq!(listed[0], (NodeId(11), Some("c0".to_string())));
    assert_eq!(listed[1], (NodeId(12), Some("c1".to_string())));
    assert_eq!(listed[2], (NodeId(13), Some("c2".to_string())));

    let asset = DialogueAsset::new(graph);
    let mut runner = DialogueRunner::new();
    runner.start(&asset);
    assert_eq!(runner.state, DialogueState::WaitingForChoice);
    runner.select_choice(1).unwrap();
    runner.advance(&asset).unwrap();
    assert_eq!(runner.current_node_id, Some(NodeId(12)));
}

#[test]
fn test_choice_without_selection() {
    let asset = scenario_asset();
    let mut runner = DialogueRunner::new();
    runner.start(&asset);
    runner.advance(&asset).unwrap();

    // Waiting for a choice: a plain advance is an invalid transition
    let err = runner.advance(&asset).unwrap_err();
    assert!(matches!(
        err,
        DialogueError::InvalidStateTransition { .. }
    ));

    // A choice node reached with the state forced to ShowingText and no
    // recorded selection reports the missing choice
    runner.state = DialogueState::ShowingText;
    let err = runner.advance(&asset).unwrap_err();
    assert_eq!(err, DialogueError::NoChoiceSelected);
}

#[test]
fn test_selected_choice_fallback() {
    // The separately tracked selection is honored when the state itself
    // does not carry an index.
    let asset = scenario_asset();
    let mut runner = DialogueRunner::new();
    runner.start(&asset);
    runner.advance(&asset).unwrap();

    runner.state = DialogueState::ShowingText;
    runner.selected_choice = Some(0);
    runner.advance(&asset).unwrap();
    assert_eq!(runner.current_node_id, Some(NodeId(3)));
    assert_eq!(runner.selected_choice, None);
}

#[test]
fn test_advance_no_current_node() {
    let asset = scenario_asset();
    let mut runner = DialogueRunner::new();
    runner.state = DialogueState::ShowingText;
    let err = runner.advance(&asset).unwrap_err();
    assert_eq!(err, DialogueError::NoCurrentNode);
}

#[test]
fn test_advance_current_node_missing() {
    let asset = scenario_asset();
    let mut runner = DialogueRunner::new();
    runner.state = DialogueState::ShowingText;
    runner.current_node_id = Some(NodeId(42));
    let err = runner.advance(&asset).unwrap_err();
    assert_eq!(err, DialogueError::NodeNotFound(NodeId(42)));
}

#[test]
fn test_start_with_missing_start_node() {
    let graph = DialogueGraph::new(NodeId(1));
    let asset = DialogueAsset::new(graph);
    let mut runner = DialogueRunner::new();
    runner.start(&asset);
    match &runner.state {
        DialogueState::Error(msg) => assert_eq!(msg, "start node 1 not found"),
        other => panic!("expected Error state, got {:?}", other),
    }
}

#[test]
fn test_stop_resets_runner() {
    let asset = scenario_asset();
    let mut runner = DialogueRunner::new();
    runner.start(&asset);
    runner.advance(&asset).unwrap();
    runner.select_choice(0).unwrap();

    runner.stop();
    assert_eq!(runner.state, DialogueState::Inactive);
    assert_eq!(runner.current_node_id, None);
    assert_eq!(runner.selected_choice, None);
}

#[test]
fn test_runner_defaults() {
    let runner = DialogueRunner::default();
    assert_eq!(runner.state, DialogueState::Inactive);
    assert_eq!(runner.current_node_id, None);
    assert!(!runner.auto_advance);
    assert_eq!(runner.auto_advance_time_ms, 2000);
    assert_eq!(runner.auto_advance_timer_ms, 0);
    assert_eq!(runner.selected_choice, None);

    let runner = DialogueRunner::new();
    assert_eq!(runner.state, DialogueState::Inactive);
}

#[test]
fn test_current_node_lookup() {
    let asset = scenario_asset();
    let mut runner = DialogueRunner::new();
    assert!(runner.current_node(&asset).is_none());

    runner.start(&asset);
    match runner.current_node(&asset) {
        Some(DialogueNode::Text { text, .. }) => assert_eq!(text, "Hi"),
        other => panic!("expected the start text node, got {:?}", other),
    }
}

#[test]
fn test_auto_advance_tick() {
    let asset = scenario_asset();
    let mut runner = DialogueRunner::new();
    runner.auto_advance = true;
    runner.auto_advance_time_ms = 100;
    runner.start(&asset);
    assert_eq!(runner.current_node_id, Some(NodeId(1)));

    // Below the threshold: only the timer accumulates
    runner.tick(&asset, 60);
    assert_eq!(runner.state, DialogueState::ShowingText);
    assert_eq!(runner.current_node_id, Some(NodeId(1)));
    assert_eq!(runner.auto_advance_timer_ms, 60);

    // Crossing the threshold advances past the text node
    runner.tick(&asset, 40);
    assert_eq!(runner.state, DialogueState::WaitingForChoice);
    assert_eq!(runner.current_node_id, Some(NodeId(2)));

    // A choice node does not auto-advance
    runner.tick(&asset, 1000);
    assert_eq!(runner.state, DialogueState::WaitingForChoice);
}

#[test]
fn test_auto_advance_failure_becomes_error_state() {
    // Force the showing-text state onto a choice node with no selection:
    // the automatic advance fails and is captured as the Error state.
    let asset = scenario_asset();
    let mut runner = DialogueRunner::new();
    runner.auto_advance = true;
    runner.auto_advance_time_ms = 50;
    runner.start(&asset);
    runner.advance(&asset).unwrap();
    runner.state = DialogueState::ShowingText;

    runner.tick(&asset, 50);
    match &runner.state {
        DialogueState::Error(msg) => {
            assert_eq!(msg, "no choice selected for choice node");
        }
        other => panic!("expected Error state, got {:?}", other),
    }
}

#[test]
fn test_inactive_runner_ignores_ticks() {
    let asset = scenario_asset();
    let mut runner = DialogueRunner::new();
    runner.auto_advance = true;
    runner.tick(&asset, 10_000);
    assert_eq!(runner.state, DialogueState::Inactive);
    assert_eq!(runner.auto_advance_timer_ms, 0);
}

#[test]
fn test_state_names_and_predicates() {
    assert_eq!(DialogueState::Inactive.name(), "Inactive");
    assert_eq!(DialogueState::ShowingText.name(), "ShowingText");
    assert_eq!(DialogueState::WaitingForChoice.name(), "WaitingForChoice");
    assert_eq!(DialogueState::ChoiceSelected(2).name(), "ChoiceSelected");
    assert_eq!(DialogueState::Finished.name(), "Finished");
    assert_eq!(DialogueState::Error("x".to_string()).name(), "Error");

    assert!(DialogueState::ShowingText.can_advance());
    assert!(DialogueState::ChoiceSelected(0).can_advance());
    assert!(!DialogueState::WaitingForChoice.can_advance());
    assert!(!DialogueState::Inactive.can_advance());

    assert!(DialogueState::WaitingForChoice.can_select_choice());
    assert!(DialogueState::ChoiceSelected(0).can_select_choice());
    assert!(!DialogueState::ShowingText.can_select_choice());
}

#[test]
fn test_dialogue_error_messages() {
    assert_eq!(
        DialogueError::NoCurrentNode.message(),
        "no current dialogue node"
    );
    assert_eq!(
        DialogueError::NoChoiceSelected.message(),
        "no choice selected for choice node"
    );
    assert_eq!(
        DialogueError::NodeNotFound(NodeId(7)).message(),
        "node 7 not found in dialogue"
    );
    assert_eq!(
        DialogueError::InvalidChoiceIndex(5, 1).message(),
        "invalid choice index 5 (max: 1)"
    );
    assert_eq!(
        DialogueError::InvalidChoiceIndex(12, 30).message(),
        "invalid choice index 12 (max: 30)"
    );
    assert_eq!(
        DialogueError::InvalidStateTransition {
            from: "Inactive".to_string(),
            action: "advance".to_string(),
        }
        .message(),
        "invalid state transition: cannot advance from Inactive"
    );
    assert_eq!(
        DialogueError::AssetNotLoaded.message(),
        "dialogue asset not loaded"
    );
}

#[test]
fn test_display_names() {
    let with_speaker =
        DialogueNode::text(NodeId(1), "Hello".to_string()).with_speaker("Guide".to_string());
    assert_eq!(with_speaker.display_name(), "Guide: Hello");

    let plain = DialogueNode::text(NodeId(1), "Hello".to_string());
    assert_eq!(plain.display_name(), "Hello");

    let prompted = DialogueNode::choice(NodeId(2))
        .with_prompt("Pick one".to_string())
        .unwrap()
        .with_speaker("Guide".to_string());
    assert_eq!(prompted.display_name(), "Guide: Pick one [Choice]");

    let prompt_only = DialogueNode::choice(NodeId(2))
        .with_prompt("Pick one".to_string())
        .unwrap();
    assert_eq!(prompt_only.display_name(), "Pick one [Choice]");

    let bare = DialogueNode::choice(NodeId(2));
    assert_eq!(bare.display_name(), "Choice");
}

#[test]
fn test_wrong_variant_setters() {
    let mut text_node = DialogueNode::text(NodeId(1), "Hello".to_string());
    assert_eq!(
        text_node.set_prompt("nope".to_string()),
        Err("Can only set prompt on a Choice node")
    );
    assert!(text_node.set_text("updated".to_string()).is_ok());

    let mut choice_node = DialogueNode::choice(NodeId(2));
    assert_eq!(
        choice_node.set_text("nope".to_string()),
        Err("Can only set text on a Text node")
    );
    assert!(choice_node.set_prompt("ok".to_string()).is_ok());

    assert!(DialogueNode::text(NodeId(1), "x".to_string())
        .with_prompt("nope".to_string())
        .is_err());
}

#[test]
fn test_node_metadata_setters() {
    let mut node = DialogueNode::text(NodeId(1), "Hello".to_string());
    node.set_speaker("Guide".to_string());
    node.set_portrait("guide_happy".to_string());
    if let DialogueNode::Text {
        speaker, portrait, ..
    } = &node
    {
        assert_eq!(speaker.clone(), Some("Guide".to_string()));
        assert_eq!(portrait.clone(), Some("guide_happy".to_string()));
    } else {
        panic!("Expected Text node");
    }

    let choice = DialogueNode::choice(NodeId(2)).with_portrait("p".to_string());
    if let DialogueNode::Choice { portrait, .. } = &choice {
        assert_eq!(portrait.clone(), Some("p".to_string()));
    } else {
        panic!("Expected Choice node");
    }
}

#[test]
fn test_asset_copies_graph_name() {
    let graph = DialogueGraph::new(NodeId(1)).with_name("My Dialogue".to_string());
    let asset = DialogueAsset::new(graph);
    assert_eq!(asset.name, Some("My Dialogue".to_string()));
    assert_eq!(asset.graph.name, Some("My Dialogue".to_string()));
}

#[test]
fn test_driver_full_conversation() {
    let asset = scenario_asset();
    let mut runner = DialogueRunner::new();

    let out = handle_dialogue_event(
        &mut runner,
        Some(&asset),
        &DialogueCommand::StartDialogue,
    );
    assert_eq!(
        out,
        vec![
            DialogueNotification::DialogueNodeActivated { node_id: NodeId(1) },
            DialogueNotification::DialogueStarted {
                start_node_id: NodeId(1)
            },
        ]
    );

    let out = handle_dialogue_event(
        &mut runner,
        Some(&asset),
        &DialogueCommand::AdvanceDialogue,
    );
    assert_eq!(
        out,
        vec![DialogueNotification::DialogueNodeActivated { node_id: NodeId(2) }]
    );

    let out = handle_dialogue_event(
        &mut runner,
        Some(&asset),
        &DialogueCommand::SelectDialogueChoice { choice_index: 0 },
    );
    assert_eq!(
        out,
        vec![DialogueNotification::DialogueChoiceMade {
            node_id: NodeId(2),
            choice_index: 0,
        }]
    );

    let out = handle_dialogue_event(
        &mut runner,
        Some(&asset),
        &DialogueCommand::AdvanceDialogue,
    );
    assert_eq!(
        out,
        vec![DialogueNotification::DialogueNodeActivated { node_id: NodeId(3) }]
    );

    // Node 3 is terminal: the next advance ends the conversation normally
    let out = handle_dialogue_event(
        &mut runner,
        Some(&asset),
        &DialogueCommand::AdvanceDialogue,
    );
    assert_eq!(
        out,
        vec![DialogueNotification::DialogueEnded { normal_exit: true }]
    );
    assert!(runner.is_finished());
}

#[test]
fn test_driver_stop_is_forced_exit() {
    let asset = scenario_asset();
    let mut runner = DialogueRunner::new();
    handle_dialogue_event(&mut runner, Some(&asset), &DialogueCommand::StartDialogue);

    let out = handle_dialogue_event(&mut runner, Some(&asset), &DialogueCommand::StopDialogue);
    assert_eq!(
        out,
        vec![DialogueNotification::DialogueEnded { normal_exit: false }]
    );
    assert_eq!(runner.state, DialogueState::Inactive);
    assert_eq!(runner.current_node_id, None);
}

#[test]
fn test_driver_without_loaded_asset() {
    let mut runner = DialogueRunner::new();
    let out = handle_dialogue_event(&mut runner, None, &DialogueCommand::StartDialogue);
    assert!(out.is_empty());
    assert_eq!(runner.state, DialogueState::Inactive);

    let out = handle_dialogue_event(&mut runner, None, &DialogueCommand::AdvanceDialogue);
    assert!(out.is_empty());
    assert_eq!(runner.state, DialogueState::Inactive);
}

#[test]
fn test_driver_parks_failed_advance_in_error_state() {
    let asset = scenario_asset();
    let mut runner = DialogueRunner::new();

    // Advancing an inactive conversation is an invalid transition; the
    // driver captures it as the Error state instead of re-raising it.
    let out = handle_dialogue_event(
        &mut runner,
        Some(&asset),
        &DialogueCommand::AdvanceDialogue,
    );
    assert!(out.is_empty());
    match &runner.state {
        DialogueState::Error(msg) => {
            assert_eq!(msg, "invalid state transition: cannot advance from Inactive");
        }
        other => panic!("expected Error state, got {:?}", other),
    }

    // An errored conversation rejects selection too, until restarted
    let out = handle_dialogue_event(
        &mut runner,
        Some(&asset),
        &DialogueCommand::SelectDialogueChoice { choice_index: 0 },
    );
    assert!(out.is_empty());

    handle_dialogue_event(&mut runner, Some(&asset), &DialogueCommand::StartDialogue);
    assert_eq!(runner.state, DialogueState::ShowingText);
}

#[test]
fn test_choice_with_no_options_reports_zero_maximum() {
    let mut graph = DialogueGraph::new(NodeId(1));
    graph.add_node(
        DialogueNode::choice(NodeId(1))
            .with_prompt("empty".to_string())
            .unwrap(),
    );
    let asset = DialogueAsset::new(graph);
    let mut runner = DialogueRunner::new();
    runner.start(&asset);
    runner.select_choice(0).unwrap();
    let err = runner.advance(&asset).unwrap_err();
    assert_eq!(err, DialogueError::InvalidChoiceIndex(0, 0));
}
