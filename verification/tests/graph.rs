use std::collections::HashSet;
use ui_kit::graph::{add_child, child_count, delete_subtree, hierarchy_depth, measurement_key, next_node_id};
use ui_kit::{ArrowHead, EdgeType, GraphEdgeData, GraphNodeData, HierarchyGraphModel, HierarchyNode, NodeShape};

fn model_node(id: &str) -> HierarchyNode {
    HierarchyNode {
        data: GraphNodeData {
            id: id.to_string(),
            x_bits: 0.0f64.to_bits(),
            y_bits: 0.0f64.to_bits(),
            color: None,
            border: None,
            background_color: None,
            shape: NodeShape::Plain,
            selected: false,
        },
        label: id.to_string(),
    }
}

fn model_edge(from: &str, to: &str) -> GraphEdgeData {
    GraphEdgeData {
        from: from.to_string(),
        to: to.to_string(),
        label: None,
        edge_type: EdgeType::Bezier,
        color: None,
        animated: false,
        arrow: ArrowHead::NoArrow,
    }
}

/// The branch colour the editor gives the next main topic of `parent`.
fn branch_color(graph: &HierarchyGraphModel, parent: &str) -> String {
    let count = child_count(graph, parent);
    let hue = ((count + 1) as f64 * 137.508 + 280.0) % 360.0;
    format!("hsl({hue:.0}deg 68% 52%)")
}

fn edge_pairs(graph: &HierarchyGraphModel) -> Vec<(String, String)> {
    graph.edges.iter().map(|e| (e.from.clone(), e.to.clone())).collect()
}

#[test]
fn root_children_receive_a_branch_color() {
    let graph = HierarchyGraphModel { nodes: vec![model_node("root")], edges: Vec::new() };
    let color = branch_color(&graph, "root");
    let (updated, id) = add_child(&graph, "root", color);
    let node = updated.nodes.iter().find(|node| node.data.id == id).unwrap();
    assert!(node.data.color.as_deref().unwrap().starts_with("hsl("));
    assert_eq!(node.data.shape, NodeShape::Box);
    assert_eq!(updated.edges[0].color, node.data.color);
    assert_eq!(updated.edges[0].edge_type, EdgeType::OrganicCurved);
}

#[test]
fn second_level_children_use_crate_owned_box_styling() {
    let graph = HierarchyGraphModel { nodes: vec![model_node("root")], edges: Vec::new() };
    let color = branch_color(&graph, "root");
    let (graph, branch_id) = add_child(&graph, "root", color);
    let color = branch_color(&graph, &branch_id);
    let (updated, child_id) = add_child(&graph, &branch_id, color);
    let child = updated.nodes.iter().find(|node| node.data.id == child_id).unwrap();

    assert_eq!(child.data.shape, NodeShape::Box);
    assert_eq!(child.data.background_color, None);
    assert_eq!(updated.edges.last().unwrap().edge_type, EdgeType::OrganicCurved);
}

#[test]
fn deleting_a_node_removes_its_entire_subtree() {
    let graph = HierarchyGraphModel {
        nodes: vec![model_node("root"), model_node("branch"), model_node("child"), model_node("sibling")],
        edges: vec![model_edge("root", "branch"), model_edge("branch", "child"), model_edge("root", "sibling")],
    };
    let updated = delete_subtree(&graph, "branch");
    let remaining: HashSet<&str> = updated.nodes.iter().map(|node| node.data.id.as_str()).collect();
    assert_eq!(remaining, HashSet::from(["root", "sibling"]));
    assert_eq!(edge_pairs(&updated), vec![("root".to_string(), "sibling".to_string())]);
    assert_eq!(updated.edges[0].edge_type, EdgeType::Bezier);
}

#[test]
fn measurement_cache_distinguishes_depth_and_shape() {
    assert_ne!(
        measurement_key("Database", NodeShape::Box, 1),
        measurement_key("Database", NodeShape::Box, 2)
    );
    assert_ne!(
        measurement_key("Database", NodeShape::Box, 2),
        measurement_key("Database", NodeShape::Plain, 2)
    );
}

#[test]
fn measurement_key_spells_depth_shape_and_label() {
    assert_eq!(measurement_key("Database", NodeShape::Box, 12), "12:Box:Database");
    assert_eq!(measurement_key("", NodeShape::Underline, 0), "0:Underline:");
}

#[test]
fn new_ids_take_the_first_free_number() {
    let graph = HierarchyGraphModel {
        nodes: vec![model_node("node-1"), model_node("node-3"), model_node("root")],
        edges: Vec::new(),
    };
    assert_eq!(next_node_id(&graph), "node-2");
    let empty = HierarchyGraphModel { nodes: Vec::new(), edges: Vec::new() };
    assert_eq!(next_node_id(&empty), "node-1");
    let full = HierarchyGraphModel {
        nodes: (1..=10).map(|i| model_node(&format!("node-{i}"))).collect(),
        edges: Vec::new(),
    };
    assert_eq!(next_node_id(&full), "node-11");
}

#[test]
fn depth_counts_ancestors_and_stops_at_cycles() {
    let edges = vec![model_edge("root", "a"), model_edge("a", "b"), model_edge("b", "c")];
    assert_eq!(hierarchy_depth("root", &edges), 0);
    assert_eq!(hierarchy_depth("a", &edges), 1);
    assert_eq!(hierarchy_depth("c", &edges), 3);
    assert_eq!(hierarchy_depth("unknown", &edges), 0);
    let cycle = vec![model_edge("x", "y"), model_edge("y", "x")];
    assert_eq!(hierarchy_depth("x", &cycle), 2);
    // the last edge into a node names its parent
    let reparented = vec![model_edge("root", "a"), model_edge("other", "b"), model_edge("a", "b")];
    assert_eq!(hierarchy_depth("b", &reparented), 2);
}

#[test]
fn third_level_children_are_plain_and_uncoloured() {
    let graph = HierarchyGraphModel {
        nodes: vec![model_node("root"), model_node("a"), model_node("b")],
        edges: vec![model_edge("root", "a"), model_edge("a", "b")],
    };
    let (updated, id) = add_child(&graph, "b", "hsl(1deg 68% 52%)".to_string());
    assert_eq!(id, "node-1");
    let node = updated.nodes.last().unwrap();
    assert_eq!(node.data.shape, NodeShape::Plain);
    assert_eq!(node.data.color, None);
    assert_eq!(node.data.border.as_deref(), Some("none"));
    assert_eq!(node.label, "New node");
    let edge = updated.edges.last().unwrap();
    assert_eq!((edge.from.as_str(), edge.to.as_str()), ("b", "node-1"));
    assert_eq!(edge.color, None);
    assert_eq!(edge.arrow, ArrowHead::NoArrow);
}

#[test]
fn deleting_a_fresh_child_restores_the_graph() {
    let graph = HierarchyGraphModel {
        nodes: vec![model_node("root"), model_node("a")],
        edges: vec![model_edge("root", "a")],
    };
    let (added, id) = add_child(&graph, "root", branch_color(&graph, "root"));
    let back = delete_subtree(&added, &id);
    let ids: Vec<&str> = back.nodes.iter().map(|n| n.data.id.as_str()).collect();
    assert_eq!(ids, vec!["root", "a"]);
    assert_eq!(edge_pairs(&back), edge_pairs(&graph));
}

#[test]
fn deleting_follows_cycles_and_keeps_other_edges() {
    let graph = HierarchyGraphModel {
        nodes: vec![model_node("a"), model_node("b"), model_node("c"), model_node("d")],
        edges: vec![model_edge("a", "b"), model_edge("b", "a"), model_edge("c", "d"), model_edge("d", "b")],
    };
    let updated = delete_subtree(&graph, "a");
    let ids: Vec<&str> = updated.nodes.iter().map(|n| n.data.id.as_str()).collect();
    assert_eq!(ids, vec!["c", "d"]);
    assert_eq!(edge_pairs(&updated), vec![("c".to_string(), "d".to_string())]);
}

#[test]
fn child_count_counts_outgoing_edges() {
    let graph = HierarchyGraphModel {
        nodes: vec![model_node("root")],
        edges: vec![model_edge("root", "a"), model_edge("root", "b"), model_edge("a", "c")],
    };
    assert_eq!(child_count(&graph, "root"), 2);
    assert_eq!(child_count(&graph, "c"), 0);
}

#[test]
fn node_shapes_name_their_classes() {
    assert_eq!(NodeShape::Box.class_name(), "uikit-graph-node-box");
    assert_eq!(NodeShape::Circle.class_name(), "uikit-graph-node-circle");
    assert_eq!(NodeShape::Plain.name(), "Plain");
    assert_eq!(ui_kit::graph::hierarchy_node_shape(NodeShape::Plain, 2, None), NodeShape::Box);
    assert_eq!(ui_kit::graph::hierarchy_node_shape(NodeShape::Plain, 3, Some("")), NodeShape::Plain);
    assert_eq!(ui_kit::graph::hierarchy_node_shape(NodeShape::Pill, 2, None), NodeShape::Pill);
}
