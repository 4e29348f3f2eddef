use ui_kit::flow::{flow_levels, level_slots};
use ui_kit::{ArrowHead, EdgeType, GraphEdgeData};

fn edge(from: &str, to: &str) -> GraphEdgeData {
    GraphEdgeData {
        from: from.to_string(),
        to: to.to_string(),
        label: None,
        edge_type: EdgeType::Bezier,
        color: None,
        animated: false,
        arrow: ArrowHead::NoArrow,
    }
}

fn ids(v: &[&str]) -> Vec<String> {
    v.iter().map(|s| s.to_string()).collect()
}

#[test]
fn a_chain_takes_one_column_per_step() {
    let (levels, max) = flow_levels(&ids(&["a", "b", "c"]), &vec![edge("b", "c"), edge("a", "b")]);
    assert_eq!(levels, vec![0, 1, 2]);
    assert_eq!(max, 2);
}

#[test]
fn a_join_sits_past_its_longest_path() {
    let edges = vec![edge("a", "b"), edge("b", "c"), edge("a", "d"), edge("c", "d")];
    let (levels, max) = flow_levels(&ids(&["a", "b", "c", "d"]), &edges);
    assert_eq!(levels, vec![0, 1, 2, 3]);
    assert_eq!(max, 3);
}

#[test]
fn unlinked_nodes_stay_in_the_first_column() {
    let (levels, max) = flow_levels(&ids(&["a", "b"]), &Vec::new());
    assert_eq!(levels, vec![0, 0]);
    assert_eq!(max, 0);
    let (levels, max) = flow_levels(&Vec::new(), &vec![edge("a", "b")]);
    assert!(levels.is_empty());
    assert_eq!(max, 0);
}

#[test]
fn an_edge_to_no_node_still_counts_toward_the_widest_level() {
    let (levels, max) = flow_levels(&ids(&["a"]), &vec![edge("a", "x")]);
    assert_eq!(levels, vec![0]);
    assert_eq!(max, 1);
}

#[test]
fn a_cycle_stops_after_one_round_per_node() {
    let (levels, max) = flow_levels(&ids(&["a", "b"]), &vec![edge("a", "b"), edge("b", "a")]);
    assert_eq!(levels, vec![4, 3]);
    assert_eq!(max, 4);
}

#[test]
fn nodes_are_stacked_within_their_column() {
    let names = ids(&["a", "b", "c", "d"]);
    let slots = level_slots(&names, &vec![0, 1, 1, 2]);
    assert_eq!(slots, vec![(0, 1), (0, 2), (1, 2), (0, 1)]);
    // A repeated id takes the row of its first copy.
    let slots = level_slots(&ids(&["a", "b", "a"]), &vec![1, 1, 1]);
    assert_eq!(slots, vec![(0, 3), (1, 3), (0, 3)]);
}
