//! Queries a hierarchy view asks of its edges: how many leaves hang below
//! a node, which nodes lie below it, and which top-level branch it is in.
use vstd::prelude::*;
use crate::graph::{
    ancestor, closed_under, depth_of, hierarchy_depth, id_set, in_subtree, parent_lookup, parent_of,
    HierarchyGraphModel, HierarchyNode, lemma_has_string_id_set, lemma_in_subtree_step, lemma_id_set_push, reach,
    reached, string_views, GraphEdgeData,
};
use crate::text::contains_string;

verus! {

broadcast use vstd::seq_lib::group_seq_properties, vstd::set::group_set_axioms;

/// The ids that some edge points to.
pub open spec fn targets(edges: Seq<GraphEdgeData>) -> Set<Seq<char>> {
    edges.map_values(|e: GraphEdgeData| e.to@).to_set()
}

/// The children of `id`: the targets of the edges that leave it, in edge
/// order.
pub open spec fn children_of(edges: Seq<GraphEdgeData>, id: Seq<char>) -> Seq<Seq<char>>
    decreases edges.len(),
{
    if edges.len() == 0 {
        Seq::empty()
    } else if edges.last().from@ == id {
        children_of(edges.drop_last(), id).push(edges.last().to@)
    } else {
        children_of(edges.drop_last(), id)
    }
}

pub proof fn lemma_children_are_targets(edges: Seq<GraphEdgeData>, id: Seq<char>, j: int)
    requires
        0 <= j < children_of(edges, id).len(),
    ensures
        targets(edges).contains(children_of(edges, id)[j]),
    decreases edges.len(),
{
    let last = edges.len() - 1;
    let rest = children_of(edges.drop_last(), id);
    if edges.last().from@ == id && j == rest.len() {
        assert(edges.map_values(|e: GraphEdgeData| e.to@)[last] == edges.last().to@);
    } else {
        lemma_children_are_targets(edges.drop_last(), id, j);
        let c = rest[j];
        let shorter = edges.drop_last().map_values(|e: GraphEdgeData| e.to@);
        let k = choose|k: int| 0 <= k < shorter.len() && #[trigger] shorter[k] == c;
        assert(edges.map_values(|e: GraphEdgeData| e.to@)[k] == c);
    }
}

/// How many edge targets a walk that has passed `visiting` may still
/// enter; it shrinks each time the walk goes down a level.
pub open spec fn unvisited(edges: Seq<GraphEdgeData>, visiting: Set<Seq<char>>) -> nat {
    targets(edges).difference(visiting).len()
}

pub proof fn lemma_unvisited_shrinks(edges: Seq<GraphEdgeData>, visiting: Set<Seq<char>>, id: Seq<char>)
    ensures
        unvisited(edges, visiting.insert(id)) <= unvisited(edges, visiting),
        targets(edges).contains(id) && !visiting.contains(id) ==> unvisited(edges, visiting.insert(id)) < unvisited(
            edges,
            visiting,
        ),
{
    let t = targets(edges);
    vstd::seq_lib::seq_to_set_is_finite(edges.map_values(|e: GraphEdgeData| e.to@));
    assert(t.difference(visiting.insert(id)) =~= t.difference(visiting).remove(id));
}

/// The number of leaves below `id`: a node without children, or one met
/// again on the way down (`visiting` holds the nodes on that way), counts
/// one; any other node counts the leaves of all its children.
pub open spec fn leaves(edges: Seq<GraphEdgeData>, visiting: Set<Seq<char>>, id: Seq<char>) -> nat
    decreases
            unvisited(edges, visiting),
            (if !targets(edges).contains(id) && !visiting.contains(id) {
                1nat
            } else {
                0nat
            }),
            0nat,
{
    if visiting.contains(id) || children_of(edges, id).len() == 0 {
        1
    } else {
        proof {
            lemma_unvisited_shrinks(edges, visiting, id);
        }
        leaves_upto(edges, visiting.insert(id), id, children_of(edges, id).len())
    }
}

/// The leaves below the first `k` children of `parent`, walking with
/// `visiting`.
pub open spec fn leaves_upto(edges: Seq<GraphEdgeData>, visiting: Set<Seq<char>>, parent: Seq<char>, k: nat) -> nat
    decreases unvisited(edges, visiting), 0nat, k + 1,
{
    if k == 0 || k > children_of(edges, parent).len() {
        0
    } else {
        proof {
            lemma_children_are_targets(edges, parent, k - 1);
        }
        leaves_upto(edges, visiting, parent, (k - 1) as nat) + leaves(
            edges,
            visiting,
            children_of(edges, parent)[k - 1],
        )
    }
}

proof fn lemma_leaves_upto_monotone(edges: Seq<GraphEdgeData>, visiting: Set<Seq<char>>, parent: Seq<char>, k: nat, m: nat)
    requires
        k <= m <= children_of(edges, parent).len(),
    ensures
        leaves_upto(edges, visiting, parent, k) <= leaves_upto(edges, visiting, parent, m),
    decreases m,
{
    if k < m {
        lemma_leaves_upto_monotone(edges, visiting, parent, k, (m - 1) as nat);
    }
}

proof fn lemma_children_prefix(edges: Seq<GraphEdgeData>, id: Seq<char>, i: int)
    requires
        0 <= i <= edges.len(),
    ensures
        children_of(edges.take(i), id).len() <= children_of(edges, id).len(),
        children_of(edges.take(i), id) == children_of(edges, id).take(children_of(edges.take(i), id).len() as int),
    decreases edges.len() - i,
{
    if i < edges.len() {
        lemma_children_prefix(edges, id, i + 1);
        assert(edges.take(i + 1).drop_last() =~= edges.take(i));
    } else {
        assert(edges.take(i) =~= edges);
    }
}

/// The leaf count of `leaf_count`, or `None` when it does not fit in a
/// `usize`. `visiting` is as it was when this returns.
pub fn checked_leaf_count(node_id: &str, edges: &Vec<GraphEdgeData>, visiting: &mut Vec<String>) -> (r: Option<usize>)
    ensures
        r matches Some(n) ==> n == leaves(edges@, id_set(old(visiting)@), node_id@),
        r is None <==> leaves(edges@, id_set(old(visiting)@), node_id@) > usize::MAX,
        final(visiting)@ == old(visiting)@,
    decreases
            unvisited(edges@, id_set(old(visiting)@)),
            (if !targets(edges@).contains(node_id@) && !id_set(old(visiting)@).contains(node_id@) {
                1nat
            } else {
                0nat
            }),
            0nat,
{
    let id = node_id.to_owned();
    let ghost before = visiting@;
    let ghost v0 = id_set(before);
    proof {
        lemma_has_string_id_set(visiting@, id@);
    }
    if contains_string(visiting, &id) {
        return Some(1);
    }
    let ghost kids = children_of(edges@, id@);
    visiting.push(id.clone());
    proof {
        lemma_id_set_push(before, id);
        lemma_unvisited_shrinks(edges@, v0, id@);
    }
    let ghost v1 = id_set(visiting@);
    let mut count: usize = 0;
    let mut any = false;
    let mut i: usize = 0;
    while i < edges.len()
        invariant
            i <= edges@.len(),
            visiting@ == before.push(id),
            before == old(visiting)@,
            v0 == id_set(before),
            v1 == id_set(visiting@),
            v1 == v0.insert(id@),
            id@ == node_id@,
            kids == children_of(edges@, id@),
            !v0.contains(id@),
            unvisited(edges@, v1) <= unvisited(edges@, v0),
            targets(edges@).contains(id@) ==> unvisited(edges@, v1) < unvisited(edges@, v0),
            kids.len() > 0 ==> leaves(edges@, v0, id@) == leaves_upto(edges@, v1, id@, kids.len()),
            children_of(edges@.take(i as int), id@).len() <= kids.len(),
            count == leaves_upto(edges@, v1, id@, children_of(edges@.take(i as int), id@).len()),
            any == (children_of(edges@.take(i as int), id@).len() > 0),
        decreases edges@.len() - i,
    {
        let ghost k = children_of(edges@.take(i as int), id@).len();
        proof {
            assert(edges@.take(i + 1).drop_last() =~= edges@.take(i as int));
            lemma_children_prefix(edges@, id@, i + 1);
        }
        if edges[i].from == id {
            proof {
                let longer = edges@.take(i + 1);
                assert(longer.last() == edges@[i as int]);
                assert(children_of(longer, id@) == children_of(edges@.take(i as int), id@).push(
                    edges@[i as int].to@,
                ));
                assert(kids.take(k + 1 as int)[k as int] == kids[k as int]);
                assert(kids[k as int] == edges@[i as int].to@);
                lemma_children_are_targets(edges@, id@, k as int);
                assert(targets(edges@).contains(edges@[i as int].to@));
                lemma_leaves_upto_monotone(edges@, v1, id@, (k + 1) as nat, kids.len());
            }
            let got = checked_leaf_count(edges[i].to.as_str(), edges, visiting);
            let c = match got {
                Some(c) => c,
                None => {
                    proof {
                        assert(visiting@.drop_last() =~= before);
                    }
                    visiting.pop();
                    return None;
                },
            };
            if count > usize::MAX - c {
                proof {
                    assert(visiting@.drop_last() =~= before);
                }
                visiting.pop();
                return None;
            }
            count = count + c;
            any = true;
        }
        i = i + 1;
    }
    proof {
        assert(edges@.take(edges@.len() as int) =~= edges@);
        assert(visiting@.drop_last() =~= before);
    }
    visiting.pop();
    if any {
        Some(count)
    } else {
        Some(1)
    }
}

/// How many leaves hang below `node_id` (one for a node without children),
/// walking down the edges; a node already in `visiting`, or met again on
/// the way, counts as a leaf. `visiting` is as it was when this returns.
pub fn leaf_count(node_id: &str, edges: &Vec<GraphEdgeData>, visiting: &mut Vec<String>) -> (n: usize)
    requires
        leaves(edges@, id_set(old(visiting)@), node_id@) <= usize::MAX,
    ensures
        n == leaves(edges@, id_set(old(visiting)@), node_id@),
        final(visiting)@ == old(visiting)@,
{
    match checked_leaf_count(node_id, edges, visiting) {
        Some(n) => n,
        None => 0,
    }
}

/// `id` lies below `node`: it is reachable from one of `node`'s children.
pub open spec fn lies_below(edges: Seq<GraphEdgeData>, node: Seq<char>, id: Seq<char>) -> bool {
    exists|j: int| 0 <= j < children_of(edges, node).len() && in_subtree(edges, #[trigger] children_of(edges, node)[j], id)
}

proof fn lemma_edge_target_is_child(edges: Seq<GraphEdgeData>, node: Seq<char>, k: int)
    requires
        0 <= k < edges.len(),
        edges[k].from@ == node,
    ensures
        exists|j: int| 0 <= j < children_of(edges, node).len() && #[trigger] children_of(edges, node)[j] == edges[k].to@,
    decreases edges.len(),
{
    let rest = children_of(edges.drop_last(), node);
    if k == edges.len() - 1 {
        assert(children_of(edges, node)[rest.len() as int] == edges[k].to@);
    } else {
        lemma_edge_target_is_child(edges.drop_last(), node, k);
        let j = choose|j: int| 0 <= j < rest.len() && #[trigger] rest[j] == edges.drop_last()[k].to@;
        assert(children_of(edges, node)[j] == edges[k].to@);
    }
}

/// The subtree that deleting a node removes is the node itself and what
/// lies below it, no more and no less.
pub proof fn law_subtree_is_node_and_descendants(edges: Seq<GraphEdgeData>, node: Seq<char>, id: Seq<char>)
    ensures
        in_subtree(edges, node, id) <==> (id == node || lies_below(edges, node, id)),
{
    let kids = children_of(edges, node);
    if id == node {
        assert forall|s: Set<Seq<char>>| #[trigger] closed_under(edges, s) && s.contains(node) implies s.contains(id) by {}
    }
    if lies_below(edges, node, id) {
        let j = choose|j: int| 0 <= j < kids.len() && in_subtree(edges, #[trigger] kids[j], id);
        assert forall|s: Set<Seq<char>>| #[trigger] closed_under(edges, s) && s.contains(node) implies s.contains(id) by {
            lemma_child_in_closed(edges, node, j, s);
        }
    }
    if in_subtree(edges, node, id) {
        let down = Set::new(|y: Seq<char>| y == node || lies_below(edges, node, y));
        assert forall|k: int| 0 <= k < edges.len() && #[trigger] down.contains(edges[k].from@) implies down.contains(
            edges[k].to@,
        ) by {
            if edges[k].from@ == node {
                lemma_edge_target_is_child(edges, node, k);
                let j = choose|j: int| 0 <= j < kids.len() && #[trigger] kids[j] == edges[k].to@;
                assert forall|s: Set<Seq<char>>| #[trigger] closed_under(edges, s) && s.contains(kids[j]) implies s.contains(
                    kids[j],
                ) by {}
                assert(in_subtree(edges, kids[j], edges[k].to@));
            } else {
                let j = choose|j: int| 0 <= j < kids.len() && in_subtree(edges, #[trigger] kids[j], edges[k].from@);
                lemma_in_subtree_step(edges, kids[j], k);
            }
        }
        assert(closed_under(edges, down));
        assert(down.contains(node));
        assert(down.contains(id));
    }
}

proof fn lemma_child_in_closed(edges: Seq<GraphEdgeData>, node: Seq<char>, j: int, s: Set<Seq<char>>)
    requires
        0 <= j < children_of(edges, node).len(),
        closed_under(edges, s),
        s.contains(node),
    ensures
        s.contains(children_of(edges, node)[j]),
    decreases edges.len(),
{
    let rest = children_of(edges.drop_last(), node);
    let last = edges.len() - 1;
    if edges.last().from@ == node && j == rest.len() {
        assert(s.contains(edges[last].from@));
    } else {
        assert(closed_under(edges.drop_last(), s)) by {
            assert forall|k: int| 0 <= k < edges.drop_last().len() && #[trigger] s.contains(edges.drop_last()[k].from@) implies s.contains(
                edges.drop_last()[k].to@,
            ) by {
                assert(edges.drop_last()[k] == edges[k]);
            }
        }
        lemma_child_in_closed(edges.drop_last(), node, j, s);
    }
}

pub(crate) fn children_list(node: &String, edges: &Vec<GraphEdgeData>) -> (kids: Vec<String>)
    ensures
        string_views(kids@) == children_of(edges@, node@),
{
    let mut kids: Vec<String> = Vec::new();
    let mut i: usize = 0;
    while i < edges.len()
        invariant
            i <= edges@.len(),
            string_views(kids@) == children_of(edges@.take(i as int), node@),
        decreases edges@.len() - i,
    {
        proof {
            assert(edges@.take(i + 1).drop_last() =~= edges@.take(i as int));
            assert(edges@.take(i + 1).last() == edges@[i as int]);
        }
        if edges[i].from == *node {
            let ghost before = kids@;
            kids.push(edges[i].to.clone());
            proof {
                assert(string_views(kids@) =~= string_views(before).push(edges@[i as int].to@));
            }
        }
        i = i + 1;
    }
    proof {
        assert(edges@.take(edges@.len() as int) =~= edges@);
    }
    kids
}

proof fn lemma_reached_from_children(edges: Seq<GraphEdgeData>, node: Seq<char>, id: Seq<char>)
    ensures
        reached(edges, children_of(edges, node).to_set(), id) <==> lies_below(edges, node, id),
{
    let kids = children_of(edges, node);
    if lies_below(edges, node, id) {
        let j = choose|j: int| 0 <= j < kids.len() && in_subtree(edges, #[trigger] kids[j], id);
        assert forall|s: Set<Seq<char>>| #[trigger] closed_under(edges, s) && kids.to_set().subset_of(s) implies s.contains(id) by {
            assert(kids.to_set().contains(kids[j]));
        }
    }
    if reached(edges, kids.to_set(), id) {
        let below = Set::new(|y: Seq<char>| lies_below(edges, node, y));
        assert forall|k: int| 0 <= k < edges.len() && #[trigger] below.contains(edges[k].from@) implies below.contains(
            edges[k].to@,
        ) by {
            let j = choose|j: int| 0 <= j < kids.len() && in_subtree(edges, #[trigger] kids[j], edges[k].from@);
            lemma_in_subtree_step(edges, kids[j], k);
        }
        assert(closed_under(edges, below));
        assert forall|c: Seq<char>| kids.to_set().contains(c) implies below.contains(c) by {
            let j = choose|j: int| 0 <= j < kids.len() && kids[j] == c;
            assert forall|s: Set<Seq<char>>| #[trigger] closed_under(edges, s) && s.contains(c) implies s.contains(c) by {}
            assert(in_subtree(edges, kids[j], c));
        }
        assert(kids.to_set().subset_of(below));
        assert(below.contains(id));
    }
}

/// The ids that lie below `node_id`: everything reachable from its
/// children, each once.
pub fn descendant_ids(node_id: &str, edges: &Vec<GraphEdgeData>) -> (d: Vec<String>)
    ensures
        string_views(d@).no_duplicates(),
        forall|id: Seq<char>| #[trigger] id_set(d@).contains(id) <==> lies_below(edges@, node_id@, id),
{
    let node = node_id.to_owned();
    let kids = children_list(&node, edges);
    let d = reach(edges, kids);
    proof {
        assert forall|id: Seq<char>| #[trigger] id_set(d@).contains(id) <==> lies_below(edges@, node_id@, id) by {
            lemma_reached_from_children(edges@, node_id@, id);
        }
    }
    d
}

/// Some node of `nodes` has the id `id`.
pub open spec fn has_node(nodes: Seq<HierarchyNode>, id: Seq<char>) -> bool {
    exists|i: int| 0 <= i < nodes.len() && #[trigger] nodes[i].data.id@ == id
}

/// The depth a view gives `id`: its depth in the hierarchy when it is a
/// node of the graph, else 0.
pub open spec fn view_depth(graph: HierarchyGraphModel, id: Seq<char>) -> nat {
    if has_node(graph.nodes@, id) {
        depth_of(graph.edges@, id)
    } else {
        0
    }
}

/// The walk up from `id` towards its branch stops at its `k`-th ancestor:
/// that one is at depth one or less, or has no parent.
pub open spec fn branch_stop(graph: HierarchyGraphModel, id: Seq<char>, k: nat) -> bool {
    let a = ancestor(graph.edges@, id, k);
    view_depth(graph, a) <= 1 || parent_of(graph.edges@, a) is None
}

pub open spec fn is_branch_step(graph: HierarchyGraphModel, id: Seq<char>, k: nat) -> bool {
    branch_stop(graph, id, k) && forall|j: nat| j < k ==> !#[trigger] branch_stop(graph, id, j)
}

/// The branch `id` belongs to: the first of its ancestors (itself first)
/// at which the walk up stops.
pub open spec fn branch_of(graph: HierarchyGraphModel, id: Seq<char>) -> Seq<char> {
    ancestor(graph.edges@, id, choose|k: nat| is_branch_step(graph, id, k))
}

proof fn lemma_branch_step_unique(graph: HierarchyGraphModel, id: Seq<char>, k: nat)
    requires
        is_branch_step(graph, id, k),
    ensures
        branch_of(graph, id) == ancestor(graph.edges@, id, k),
{
    let c = choose|c: nat| is_branch_step(graph, id, c);
    assert(is_branch_step(graph, id, c));
    if c < k {
        assert(!branch_stop(graph, id, c));
    } else if k < c {
        assert(!branch_stop(graph, id, k));
    }
}

fn node_exists(nodes: &Vec<HierarchyNode>, id: &String) -> (b: bool)
    ensures
        b == has_node(nodes@, id@),
{
    let mut i: usize = 0;
    while i < nodes.len()
        invariant
            i <= nodes@.len(),
            forall|j: int| 0 <= j < i ==> #[trigger] nodes@[j].data.id@ != id@,
        decreases nodes@.len() - i,
    {
        if nodes[i].data.id == *id {
            return true;
        }
        i = i + 1;
    }
    false
}

/// The top-level branch that `node_id` belongs to: walking up from it
/// while the node reached lies deeper than one level and has a parent.
/// The walk must end: around a cycle of deep nodes it would not.
pub fn branch_ancestor(node_id: &str, graph: &HierarchyGraphModel) -> (b: String)
    requires
        exists|k: nat| branch_stop(*graph, node_id@, k),
    ensures
        b@ == branch_of(*graph, node_id@),
{
    let ghost bound = choose|k: nat| branch_stop(*graph, node_id@, k);
    let mut current = node_id.to_owned();
    let ghost mut steps: nat = 0;
    loop
        invariant
            branch_stop(*graph, node_id@, bound),
            steps <= bound,
            current@ == ancestor(graph.edges@, node_id@, steps),
            forall|j: nat| j < steps ==> !#[trigger] branch_stop(*graph, node_id@, j),
        decreases bound - steps,
    {
        let deep = if node_exists(&graph.nodes, &current) {
            hierarchy_depth(current.as_str(), &graph.edges) > 1
        } else {
            false
        };
        if !deep {
            proof {
                lemma_branch_step_unique(*graph, node_id@, steps);
            }
            return current;
        }
        match parent_lookup(&graph.edges, &current) {
            None => {
                proof {
                    lemma_branch_step_unique(*graph, node_id@, steps);
                }
                return current;
            },
            Some(p) => {
                proof {
                    assert(!branch_stop(*graph, node_id@, steps));
                    assert(ancestor(graph.edges@, node_id@, steps + 1) == p@);
                    steps = steps + 1;
                }
                current = p;
            },
        }
    }
}

} // verus!
