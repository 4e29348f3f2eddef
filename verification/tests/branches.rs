use std::collections::HashSet;
use ui_kit::branches::{branch_ancestor, checked_leaf_count, descendant_ids, leaf_count};
use ui_kit::graph::delete_subtree;
use ui_kit::markup::{cleaned_markup, label_lines, strip_html};
use ui_kit::EditableTextVariant;
use ui_kit::{ArrowHead, EdgeType, GraphEdgeData, GraphNodeData, HierarchyGraphModel, HierarchyNode, NodeShape};

fn edge(from: &str, to: &str) -> GraphEdgeData {
    GraphEdgeData {
        from: from.to_string(),
        to: to.to_string(),
        label: None,
        edge_type: EdgeType::Bezier,
        color: None,
        animated: false,
        arrow: ArrowHead::NoArrow,
    }
}

fn node(id: &str) -> HierarchyNode {
    HierarchyNode {
        data: GraphNodeData {
            id: id.to_string(),
            x_bits: 0.0f64.to_bits(),
            y_bits: 0.0f64.to_bits(),
            color: None,
            border: None,
            background_color: None,
            shape: NodeShape::Plain,
            selected: false,
        },
        label: id.to_string(),
    }
}

fn id_set(ids: Vec<String>) -> HashSet<String> {
    ids.into_iter().collect()
}

#[test]
fn subtree_weight_counts_leaves() {
    // The children map root -> [a, b], a -> [a1, a2], written as edges.
    let edges = vec![edge("root", "a"), edge("root", "b"), edge("a", "a1"), edge("a", "a2")];
    assert_eq!(leaf_count("root", &edges, &mut Vec::new()), 3);
}

#[test]
fn a_childless_node_is_one_leaf() {
    let edges = vec![edge("root", "a")];
    assert_eq!(leaf_count("a", &edges, &mut Vec::new()), 1);
    assert_eq!(leaf_count("elsewhere", &edges, &mut Vec::new()), 1);
}

#[test]
fn a_shared_child_counts_once_per_path() {
    let edges = vec![edge("r", "a"), edge("r", "b"), edge("a", "s"), edge("b", "s")];
    assert_eq!(leaf_count("r", &edges, &mut Vec::new()), 2);
}

#[test]
fn a_cycle_counts_the_node_met_again_as_a_leaf() {
    let edges = vec![edge("a", "b"), edge("b", "a"), edge("b", "c")];
    assert_eq!(leaf_count("a", &edges, &mut Vec::new()), 2);
}

#[test]
fn counting_leaves_leaves_the_walk_as_it_was() {
    let edges = vec![edge("root", "a"), edge("a", "b")];
    let mut visiting = vec!["x".to_string()];
    assert_eq!(leaf_count("root", &edges, &mut visiting), 1);
    assert_eq!(visiting, vec!["x".to_string()]);
    // A node already on the walk counts as one leaf.
    let mut visiting = vec!["root".to_string()];
    assert_eq!(leaf_count("root", &edges, &mut visiting), 1);
}

#[test]
fn descendants_are_everything_below() {
    let edges = vec![edge("root", "a"), edge("root", "b"), edge("a", "a1"), edge("x", "y")];
    let below = descendant_ids("root", &edges);
    assert_eq!(below.len(), 3);
    assert_eq!(
        id_set(below),
        id_set(vec!["a".to_string(), "b".to_string(), "a1".to_string()])
    );
    assert!(descendant_ids("a1", &edges).is_empty());
}

#[test]
fn descendants_in_a_cycle_include_the_node_itself() {
    let edges = vec![edge("a", "b"), edge("b", "a")];
    assert_eq!(id_set(descendant_ids("a", &edges)), id_set(vec!["a".to_string(), "b".to_string()]));
}

#[test]
fn a_node_belongs_to_the_branch_under_the_root() {
    let graph = HierarchyGraphModel {
        nodes: vec![node("root"), node("branch"), node("child"), node("grandchild")],
        edges: vec![edge("root", "branch"), edge("branch", "child"), edge("child", "grandchild")],
    };
    assert_eq!(branch_ancestor("grandchild", &graph), "branch");
    assert_eq!(branch_ancestor("child", &graph), "branch");
    assert_eq!(branch_ancestor("branch", &graph), "branch");
    assert_eq!(branch_ancestor("root", &graph), "root");
}

#[test]
fn the_walk_stops_at_an_id_that_is_no_node() {
    let graph = HierarchyGraphModel {
        nodes: vec![node("child")],
        edges: vec![edge("root", "branch"), edge("branch", "child")],
    };
    assert_eq!(branch_ancestor("child", &graph), "branch");
}

#[test]
fn labels_lose_their_markup() {
    assert_eq!(strip_html("Main<br>topic"), "Main\ntopic");
    assert_eq!(strip_html("<div>One</div><div>Two</div>"), "One\nTwo\n");
    assert_eq!(strip_html("<p>A &amp; B</p>"), "A & B\n");
    assert_eq!(strip_html("x&nbsp;&lt;y&gt;"), "x <y>");
    assert_eq!(strip_html("<b>bold</b> and <i>it</i>"), "bold and it");
    assert_eq!(strip_html("a<br />b<br/>c"), "a\nb\nc");
    assert_eq!(strip_html("<ul><li>1</li><li>2</li></ul>"), "1\n2\n");
    assert_eq!(strip_html("plain"), "plain");
}

#[test]
fn entities_are_read_after_the_tags_go() {
    // `&lt;b&gt;` is text, not a tag: it survives as `<b>`.
    assert_eq!(strip_html("&lt;b&gt;"), "<b>");
    // The entities are read one after another: `&amp;lt;` ends as `<`.
    assert_eq!(strip_html("&amp;lt;"), "<");
}

#[test]
fn labels_are_measured_by_their_shown_lines() {
    assert_eq!(label_lines("Main<br>topic"), (2, 5));
    assert_eq!(label_lines("<p>Hello world</p><p>Hi</p>"), (2, 11));
    assert_eq!(label_lines("  <b>x</b>  "), (1, 1));
    assert_eq!(label_lines(""), (1, 1));
    assert_eq!(label_lines("a<br><br>  bcd  "), (2, 3));
}

#[test]
fn deleting_removes_the_node_and_exactly_its_descendants() {
    let graph = HierarchyGraphModel {
        nodes: vec![node("root"), node("a"), node("a1"), node("a2"), node("b")],
        edges: vec![edge("root", "a"), edge("a", "a1"), edge("a", "a2"), edge("root", "b")],
    };
    let mut removed = id_set(descendant_ids("a", &graph.edges));
    removed.insert("a".to_string());
    let kept = delete_subtree(&graph, "a");
    let kept_ids: HashSet<String> = kept.nodes.iter().map(|n| n.data.id.clone()).collect();
    let all_ids: HashSet<String> = graph.nodes.iter().map(|n| n.data.id.clone()).collect();
    let expected: HashSet<String> = all_ids.difference(&removed).cloned().collect();
    assert_eq!(kept_ids, expected);
}

#[test]
fn a_cleared_editor_hands_back_nothing() {
    assert_eq!(cleaned_markup(" <br> ", EditableTextVariant::Inline), "");
    assert_eq!(cleaned_markup("<p><br></p>", EditableTextVariant::Inline), "<p><br></p>");
    assert_eq!(cleaned_markup("<p><br></p>\n", EditableTextVariant::Full), "");
    assert_eq!(cleaned_markup("<div><br></div>", EditableTextVariant::Full), "");
    assert_eq!(cleaned_markup("<br>", EditableTextVariant::Full), "");
    assert_eq!(cleaned_markup(" text<br> ", EditableTextVariant::Full), " text<br> ");
    assert_eq!(cleaned_markup("", EditableTextVariant::Full), "");
}

#[test]
fn a_checked_count_agrees_with_the_plain_one() {
    let edges = vec![edge("root", "a"), edge("root", "b"), edge("a", "a1"), edge("a", "a2")];
    let mut visiting = vec!["x".to_string()];
    assert_eq!(checked_leaf_count("root", &edges, &mut visiting), Some(3));
    assert_eq!(visiting, vec!["x".to_string()]);
    assert_eq!(checked_leaf_count("a1", &edges, &mut Vec::new()), Some(1));
}
