use funkus_dialogue::error::GraphError;
use funkus_dialogue::graph::DialogueGraph;
use funkus_dialogue::node::{ConnectionData, NodeId};
use funkus_dialogue::nodes::DialogueNode;
use funkus_dialogue::serial::NodeKind;

// Helper function to create a basic test graph
fn create_test_graph() -> DialogueGraph {
    let mut graph = DialogueGraph::new(NodeId(1));

    // Add a few nodes
    graph.add_node(
        DialogueNode::text(NodeId(1), "Start".to_string()).with_speaker("NPC".to_string()),
    );

    // Add choice node (without connections)
    let choice_node = DialogueNode::choice(NodeId(2))
        .with_prompt("Choose:".to_string())
        .unwrap();
    graph.add_node(choice_node);

    graph.add_node(DialogueNode::text(NodeId(3), "You chose A".to_string()));
    graph.add_node(DialogueNode::text(NodeId(4), "You chose B".to_string()));

    // Connect nodes using graph-based connections
    graph
        .connect(NodeId(1), NodeId(2), ConnectionData::new(None))
        .unwrap();
    graph
        .connect(
            NodeId(2),
            NodeId(3),
            ConnectionData::new(Some("Option A".to_string())),
        )
        .unwrap();
    graph
        .connect(
            NodeId(2),
            NodeId(4),
            ConnectionData::new(Some("Option B".to_string())),
        )
        .unwrap();

    graph
}

#[test]
fn test_create_graph() {
    let graph = DialogueGraph::new(NodeId(5)).with_name("Test Graph".to_string());

    assert_eq!(graph.start_node, NodeId(5));
    assert_eq!(graph.name, Some("Test Graph".to_string()));
    assert_eq!(graph.node_count(), 0);
}

#[test]
fn test_add_nodes() {
    let mut graph = DialogueGraph::new(NodeId(1));

    graph.add_node(DialogueNode::text(NodeId(1), "Node 1".to_string()));
    assert_eq!(graph.node_count(), 1);

    let node = graph.get_node(NodeId(1)).unwrap();
    if let DialogueNode::Text { text, .. } = node {
        assert_eq!(text, "Node 1");
    } else {
        panic!("Expected Text node");
    }

    // Test builder pattern
    let graph = graph.with_node(DialogueNode::text(NodeId(2), "Node 2".to_string()));
    assert_eq!(graph.node_count(), 2);
}

#[test]
fn test_connections() {
    let graph = create_test_graph();

    // Test connected nodes
    let connections = graph.get_connected_nodes(NodeId(1));
    assert_eq!(connections.len(), 1);
    assert_eq!(connections[0].0, NodeId(2));

    // Test get_start_node
    let start = graph.get_start_node().unwrap();
    if let DialogueNode::Text { speaker, .. } = start {
        assert_eq!(speaker.clone(), Some("NPC".to_string()));
    } else {
        panic!("Expected Text node");
    }
}

#[test]
fn test_node_access() {
    let mut graph = create_test_graph();

    // Test contains_node
    assert!(graph.contains_node(NodeId(1)));
    assert!(!graph.contains_node(NodeId(99)));

    // Modify a node's text in place
    let mut node = graph.get_node(NodeId(3)).unwrap().clone();
    node.set_text("Modified text".to_string()).unwrap();
    graph.update_node(NodeId(3), node).unwrap();

    let modified = graph.get_node(NodeId(3)).unwrap();
    if let DialogueNode::Text { text, .. } = modified {
        assert_eq!(text, "Modified text");
    } else {
        panic!("Expected Text node");
    }
}

#[test]
fn test_update_node() {
    let mut graph = create_test_graph();

    let new_node = DialogueNode::text(NodeId(3), "Updated node".to_string());
    graph.update_node(NodeId(3), new_node).unwrap();

    let updated = graph.get_node(NodeId(3)).unwrap();
    if let DialogueNode::Text { text, .. } = updated {
        assert_eq!(text, "Updated node");
    } else {
        panic!("Expected Text node");
    }

    // Test updating non-existent node
    assert!(graph
        .update_node(NodeId(99), DialogueNode::text(NodeId(99), "Bad".to_string()))
        .is_err());
}

#[test]
fn test_node_removal() {
    let mut graph = create_test_graph();
    assert_eq!(graph.node_count(), 4);

    // Remove a node in the middle
    graph.remove_node(NodeId(2)).unwrap();
    assert_eq!(graph.node_count(), 3);
    assert!(!graph.contains_node(NodeId(2)));

    // Ensure we can still access other nodes
    assert!(graph.get_node(NodeId(1)).is_some());
    assert!(graph.get_node(NodeId(3)).is_some());
    assert!(graph.get_node(NodeId(4)).is_some());

    // Test removing the last node
    let last_id = NodeId(4);
    graph.remove_node(last_id).unwrap();
    assert_eq!(graph.node_count(), 2);
    assert!(!graph.contains_node(last_id));

    // Test error on removing non-existent node
    assert!(graph.remove_node(NodeId(99)).is_err());
}

#[test]
fn test_node_removal_swapping() {
    // This test specifically verifies the index swapping behavior
    let mut graph = DialogueGraph::new(NodeId(1));

    // Add nodes in sequence
    for i in 1..=5 {
        graph.add_node(DialogueNode::text(NodeId(i), format!("Node {}", i)));
    }

    // Remove node 2 - this should cause node 5 to be moved to index 1
    graph.remove_node(NodeId(2)).unwrap();

    // Verify we can still access node 5
    let node5 = graph.get_node(NodeId(5));
    assert!(node5.is_some());

    // Add a connection that uses node 5
    graph
        .connect(NodeId(1), NodeId(5), ConnectionData::new(None))
        .unwrap();

    // Verify the connection works
    let connections = graph.get_connected_nodes(NodeId(1));
    assert_eq!(connections.len(), 1);
    assert_eq!(connections[0].0, NodeId(5));

    // Validate the mapping explicitly
    graph.validate_mapping().unwrap();
}

#[test]
fn test_graph_validation() {
    let mut graph = DialogueGraph::new(NodeId(1));

    // Empty graph should fail validation (start node doesn't exist)
    assert!(graph.validate().is_err());

    // Add start node
    graph.add_node(DialogueNode::text(NodeId(1), "Start".to_string()));
    assert!(graph.validate().is_ok());

    // Add unreachable node - should fail validation
    graph.add_node(DialogueNode::text(NodeId(2), "Unreachable".to_string()));
    assert!(graph.validate().is_err());

    // Connect nodes - should pass validation
    graph
        .connect(NodeId(1), NodeId(2), ConnectionData::new(None))
        .unwrap();
    assert!(graph.validate().is_ok());
}

#[test]
fn test_rebuild_mapping() {
    let mut graph = create_test_graph();

    // Extract text values from nodes before rebuilding mapping
    let text1 = if let DialogueNode::Text { text, .. } = graph.get_node(NodeId(1)).unwrap() {
        text.clone()
    } else {
        panic!("Expected Text node");
    };

    let text3 = if let DialogueNode::Text { text, .. } = graph.get_node(NodeId(3)).unwrap() {
        text.clone()
    } else {
        panic!("Expected Text node");
    };

    // Rebuild the mapping
    graph.rebuild_mapping();

    // Verify nodes are still accessible with the same content
    if let DialogueNode::Text { text, .. } = graph.get_node(NodeId(1)).unwrap() {
        assert_eq!(text, &text1);
    } else {
        panic!("Node type mismatch");
    }

    if let DialogueNode::Text { text, .. } = graph.get_node(NodeId(3)).unwrap() {
        assert_eq!(text, &text3);
    } else {
        panic!("Node type mismatch");
    }

    // Validate mapping consistency
    graph.validate_mapping().unwrap();
}

#[test]
fn test_node_iteration() {
    let graph = create_test_graph();

    // Test nodes_iter
    let nodes = graph.nodes_iter();
    assert_eq!(nodes.len(), 4);

    // Test node_ids
    let ids = graph.node_ids();
    assert_eq!(ids.len(), 4);
    assert!(ids.contains(&NodeId(1)));
    assert!(ids.contains(&NodeId(2)));
    assert!(ids.contains(&NodeId(3)));
    assert!(ids.contains(&NodeId(4)));
}

#[test]
fn test_serialization() {
    let original = create_test_graph();

    // Write the graph out as its record form
    let data = original.serialize();

    // Read it back into a graph
    let deserialized = DialogueGraph::deserialize(&data);

    // Verify structure is preserved
    assert_eq!(deserialized.start_node, original.start_node);
    assert_eq!(deserialized.node_count(), original.node_count());

    // Check node contents - extract text to avoid borrowing issues
    let original_text =
        if let DialogueNode::Text { text, .. } = original.get_node(NodeId(1)).unwrap() {
            text.clone()
        } else {
            panic!("Expected Text node");
        };

    if let DialogueNode::Text { text, .. } = deserialized.get_node(NodeId(1)).unwrap() {
        assert_eq!(text, &original_text);
    } else {
        panic!("Node type mismatch");
    }

    // Verify connections are preserved
    let orig_connections = original.get_connected_nodes(NodeId(1));
    let de_connections = deserialized.get_connected_nodes(NodeId(1));
    assert_eq!(orig_connections.len(), de_connections.len());
    if !orig_connections.is_empty() && !de_connections.is_empty() {
        assert_eq!(orig_connections[0].0, de_connections[0].0);
    }
}

#[test]
fn test_serialize_record_fields() {
    let graph = create_test_graph();
    let data = graph.serialize();

    assert_eq!(data.start_node, NodeId(1));
    assert_eq!(data.name, None);
    assert_eq!(data.nodes.len(), 4);
    assert_eq!(data.nodes[0].kind, NodeKind::Text);
    assert_eq!(data.nodes[0].id, NodeId(1));
    assert_eq!(data.nodes[0].text, Some("Start".to_string()));
    assert_eq!(data.nodes[0].prompt, None);
    assert_eq!(data.nodes[0].speaker, Some("NPC".to_string()));
    assert_eq!(data.nodes[1].kind, NodeKind::Choice);
    assert_eq!(data.nodes[1].prompt, Some("Choose:".to_string()));
    assert_eq!(data.nodes[1].text, None);

    assert_eq!(data.connections.len(), 3);
    assert_eq!(data.connections[0].from, NodeId(1));
    assert_eq!(data.connections[0].to, NodeId(2));
    assert_eq!(data.connections[0].label, None);
    assert_eq!(data.connections[1].label, Some("Option A".to_string()));
    assert_eq!(data.connections[2].to, NodeId(4));
}

#[test]
fn test_round_trip_preserves_edge_order() {
    let graph = create_test_graph();
    let back = DialogueGraph::deserialize(&graph.serialize());

    let before = graph.get_connected_nodes(NodeId(2));
    let after = back.get_connected_nodes(NodeId(2));
    assert_eq!(before.len(), 2);
    assert_eq!(after.len(), 2);
    assert_eq!(before[0].0, after[0].0);
    assert_eq!(before[1].0, after[1].0);
    assert_eq!(after[0].1, Some("Option A".to_string()));
    assert_eq!(after[1].1, Some("Option B".to_string()));
    assert_eq!(back.name, graph.name);
}

#[test]
fn test_connect_missing_endpoints() {
    let mut graph = DialogueGraph::new(NodeId(1));
    graph.add_node(DialogueNode::text(NodeId(1), "Start".to_string()));

    let err = graph
        .connect(NodeId(9), NodeId(1), ConnectionData::new(None))
        .unwrap_err();
    assert_eq!(
        err,
        GraphError::EdgeEndpointNotFound {
            from: NodeId(9),
            to: NodeId(1),
            missing: NodeId(9),
        }
    );

    let err = graph
        .connect(NodeId(1), NodeId(9), ConnectionData::new(None))
        .unwrap_err();
    assert_eq!(
        err,
        GraphError::EdgeEndpointNotFound {
            from: NodeId(1),
            to: NodeId(9),
            missing: NodeId(9),
        }
    );
}

#[test]
fn test_disconnect_removes_all_parallel_edges() {
    // Two parallel edges between the same ordered pair; one disconnect
    // removes them both.
    let mut graph = DialogueGraph::new(NodeId(1));
    graph.add_node(DialogueNode::text(NodeId(1), "a".to_string()));
    graph.add_node(DialogueNode::text(NodeId(2), "b".to_string()));
    graph
        .connect(
            NodeId(1),
            NodeId(2),
            ConnectionData::new(Some("L1".to_string())),
        )
        .unwrap();
    graph
        .connect(
            NodeId(1),
            NodeId(2),
            ConnectionData::new(Some("L2".to_string())),
        )
        .unwrap();
    assert_eq!(graph.get_connections(NodeId(1)).len(), 2);

    graph.disconnect(NodeId(1), NodeId(2)).unwrap();
    let remaining = graph.get_connections(NodeId(1));
    assert!(remaining.iter().all(|(to, _)| *to != NodeId(2)));
    assert_eq!(remaining.len(), 0);

    // Disconnecting again reports that no connection exists
    let err = graph.disconnect(NodeId(1), NodeId(2)).unwrap_err();
    assert_eq!(
        err,
        GraphError::NoConnection {
            from: NodeId(1),
            to: NodeId(2),
        }
    );
}

#[test]
fn test_remove_node_removes_incident_edges() {
    let mut graph = create_test_graph();
    graph.remove_node(NodeId(2)).unwrap();

    // The edge 1 -> 2 and the edges 2 -> 3, 2 -> 4 are all gone
    assert_eq!(graph.get_connections(NodeId(1)).len(), 0);
    assert_eq!(graph.get_connections(NodeId(2)).len(), 0);
}

#[test]
fn test_remove_middle_of_chain() {
    // A five-node linear chain; removing the middle node keeps the tail
    // retrievable with identical content, and a fresh edge resolves.
    let mut graph = DialogueGraph::new(NodeId(1));
    for i in 1..=5 {
        graph.add_node(DialogueNode::text(NodeId(i), format!("step {}", i)));
    }
    for i in 1..=4 {
        graph
            .connect(NodeId(i), NodeId(i + 1), ConnectionData::new(None))
            .unwrap();
    }

    graph.remove_node(NodeId(3)).unwrap();

    if let Some(DialogueNode::Text { text, .. }) = graph.get_node(NodeId(5)) {
        assert_eq!(text, "step 5");
    } else {
        panic!("node 5 should still be a text node");
    }

    graph
        .connect(NodeId(1), NodeId(5), ConnectionData::new(None))
        .unwrap();
    let targets = graph.get_connected_nodes(NodeId(1));
    assert!(targets.iter().any(|(to, _)| *to == NodeId(5)));
}

#[test]
fn test_validate_reports_unreachable_node() {
    let mut graph = DialogueGraph::new(NodeId(1));
    graph.add_node(DialogueNode::text(NodeId(1), "Start".to_string()));
    graph.add_node(DialogueNode::text(NodeId(7), "Island".to_string()));

    let err = graph.validate().unwrap_err();
    assert_eq!(err, GraphError::UnreachableNode(NodeId(7)));

    // A cycle back to the start must not confuse the search
    graph
        .connect(NodeId(1), NodeId(7), ConnectionData::new(None))
        .unwrap();
    graph
        .connect(NodeId(7), NodeId(1), ConnectionData::new(None))
        .unwrap();
    assert!(graph.validate().is_ok());
}

#[test]
fn test_validate_reports_missing_start() {
    let graph = DialogueGraph::new(NodeId(3));
    let err = graph.validate().unwrap_err();
    assert_eq!(err, GraphError::StartNodeMissing(NodeId(3)));
}

#[test]
fn test_validate_mapping_detects_corruption() {
    let mut graph = create_test_graph();
    assert!(graph.validate_mapping().is_ok());

    // An entry pointing a live id at the wrong slot is inconsistent
    graph.node_indices.insert(1, 3);
    let err = graph.validate_mapping().unwrap_err();
    assert_eq!(err, GraphError::MappingInconsistent(NodeId(1)));

    // Repair, then plant an entry for no live node: a stale entry
    graph.rebuild_mapping();
    assert!(graph.validate_mapping().is_ok());
    graph.node_indices.insert(99, 0);
    let err = graph.validate_mapping().unwrap_err();
    assert_eq!(err, GraphError::MappingStale);

    // The escape hatch restores consistency
    graph.rebuild_mapping();
    assert!(graph.validate_mapping().is_ok());
}

#[test]
fn test_graph_error_messages() {
    assert_eq!(
        GraphError::NodeNotFound(NodeId(1)).message(),
        "node 1 not found"
    );
    assert_eq!(
        GraphError::NodeNotFound(NodeId(120)).message(),
        "node 120 not found"
    );
    assert_eq!(
        GraphError::StartNodeMissing(NodeId(7)).message(),
        "start node 7 does not exist"
    );
    assert_eq!(
        GraphError::UnreachableNode(NodeId(42)).message(),
        "node 42 is unreachable from start node"
    );
    assert_eq!(
        GraphError::NoConnection {
            from: NodeId(3),
            to: NodeId(9),
        }
        .message(),
        "no connection from 3 to 9"
    );
}

#[test]
fn test_is_well_formed_guard() {
    let mut graph = create_test_graph();
    assert!(graph.is_well_formed());

    // A disturbed id map is detected
    graph.node_indices.insert(1, 3);
    assert!(!graph.is_well_formed());

    // The escape hatch restores well-formedness
    graph.rebuild_mapping();
    assert!(graph.is_well_formed());
}
