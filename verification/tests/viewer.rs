use std::collections::HashSet;
use ui_kit::viewer::{
    branch_color_of, collapse_label, hidden_ids, main_topics, node_paint, split_sides, toggle_collapsed,
    view_roots, visible_parts,
};
use ui_kit::{ArrowHead, EdgeType, GraphEdgeData, GraphNodeData, HierarchyNode, NodeShape};

fn edge(from: &str, to: &str, color: Option<&str>) -> GraphEdgeData {
    GraphEdgeData {
        from: from.to_string(),
        to: to.to_string(),
        label: None,
        edge_type: EdgeType::Bezier,
        color: color.map(|c| c.to_string()),
        animated: false,
        arrow: ArrowHead::NoArrow,
    }
}

fn node(id: &str) -> HierarchyNode {
    HierarchyNode {
        data: GraphNodeData {
            id: id.to_string(),
            x_bits: 0.0f64.to_bits(),
            y_bits: 0.0f64.to_bits(),
            color: None,
            border: None,
            background_color: None,
            shape: NodeShape::Plain,
            selected: false,
        },
        label: id.to_string(),
    }
}

fn strings(v: &[&str]) -> Vec<String> {
    v.iter().map(|s| s.to_string()).collect()
}

fn tree() -> (Vec<HierarchyNode>, Vec<GraphEdgeData>) {
    let nodes = vec![node("root"), node("a"), node("a1"), node("a2"), node("b"), node("b1")];
    let edges = vec![
        edge("root", "a", None),
        edge("a", "a1", None),
        edge("a", "a2", None),
        edge("root", "b", None),
        edge("b", "b1", None),
    ];
    (nodes, edges)
}

#[test]
fn collapsing_hides_what_lies_below() {
    let (_, edges) = tree();
    let hidden: HashSet<String> = hidden_ids(&edges, &strings(&["a", "b"])).into_iter().collect();
    assert_eq!(hidden, strings(&["a1", "a2", "b1"]).into_iter().collect());
    assert!(hidden_ids(&edges, &Vec::new()).is_empty());
}

#[test]
fn a_folded_node_stays_but_its_subtree_goes() {
    let (nodes, edges) = tree();
    let (shown, kept) = visible_parts(&nodes, &edges, &strings(&["a"]));
    assert_eq!(shown, vec![0, 1, 4, 5]);
    assert_eq!(kept, vec![0, 3, 4]);
    let (shown, kept) = visible_parts(&nodes, &edges, &Vec::new());
    assert_eq!(shown, vec![0, 1, 2, 3, 4, 5]);
    assert_eq!(kept, vec![0, 1, 2, 3, 4]);
}

#[test]
fn roots_are_the_parentless_nodes_or_the_first() {
    let (mut nodes, edges) = tree();
    nodes.push(node("loose"));
    assert_eq!(view_roots(&nodes, &edges, &vec![0, 1, 6]), strings(&["root", "loose"]));
    assert_eq!(view_roots(&nodes, &edges, &vec![2, 1]), strings(&["a1"]));
    assert!(view_roots(&nodes, &edges, &Vec::new()).is_empty());
}

#[test]
fn main_topics_alternate_sides_right_first() {
    let (_, edges) = tree();
    let topics = main_topics(&edges, &strings(&["root", "loose", "other"]));
    assert_eq!(topics, strings(&["a", "b", "loose", "other"]));
    let (right, left) = split_sides(&topics);
    assert_eq!(right, strings(&["a", "loose"]));
    assert_eq!(left, strings(&["b", "other"]));
    let (right, left) = split_sides(&strings(&["x"]));
    assert_eq!((right, left), (strings(&["x"]), Vec::new()));
}

#[test]
fn a_branch_takes_its_own_colour_or_its_edge_colour() {
    let edges = vec![edge("root", "a", Some("red")), edge("x", "a", Some("blue")), edge("root", "b", None)];
    assert_eq!(branch_color_of("a", &Some("green".to_string()), &edges), Some("green".to_string()));
    assert_eq!(branch_color_of("a", &None, &edges), Some("red".to_string()));
    assert_eq!(branch_color_of("b", &None, &edges), None);
    assert_eq!(branch_color_of("zzz", &None, &edges), None);
}

#[test]
fn each_level_is_painted_its_own_way() {
    let s = |v: &str| Some(v.to_string());
    let base = s("red");
    let level = s("pink");
    assert_eq!(
        node_paint(0, NodeShape::Box, &s("gold"), &None, &None, &base, &level),
        (s("gold"), s("none"), s("transparent"))
    );
    assert_eq!(node_paint(1, NodeShape::Box, &None, &None, &None, &base, &level), (s("red"), s("none"), s("red")));
    assert_eq!(
        node_paint(2, NodeShape::Box, &None, &s("1px solid"), &s("transparent"), &base, &level),
        (s("pink"), s("1px solid"), s("pink"))
    );
    assert_eq!(node_paint(2, NodeShape::Plain, &None, &None, &s("white"), &base, &level), (s("red"), s("none"), s("white")));
    assert_eq!(node_paint(3, NodeShape::Plain, &None, &None, &None, &base, &level), (s("red"), s("none"), s("transparent")));
}

#[test]
fn collapse_buttons_count_what_they_hide() {
    assert_eq!(collapse_label(true, 12), "12");
    assert_eq!(collapse_label(true, 0), "0");
    assert_eq!(collapse_label(false, 12), "-");
}

#[test]
fn folding_twice_unfolds() {
    let mut items = strings(&["a", "b"]);
    toggle_collapsed(&mut items, &"c".to_string());
    assert_eq!(items, strings(&["a", "b", "c"]));
    toggle_collapsed(&mut items, &"a".to_string());
    assert_eq!(items, strings(&["b", "c"]));
    toggle_collapsed(&mut items, &"a".to_string());
    assert_eq!(items, strings(&["b", "c", "a"]));
}
