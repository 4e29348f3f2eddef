//! Graph data shared by the graph views, and the editing of a hierarchy
//! (mind-map) graph: deleting a subtree, adding a child, finding depths.
use vstd::prelude::*;
use crate::text::{chars_of, contains_string, decimal, digits_into, digits_value, lemma_decimal_digits, push_all};

verus! {

broadcast use vstd::seq_lib::group_seq_properties;

/// The outline a graph node is drawn with.
#[derive(Debug, Clone, Copy, PartialEq, Eq, Structural, Default)]
pub enum NodeShape {
    #[default]
    Box,
    Pill,
    Circle,
    Underline,
    Plain,
}

impl NodeShape {
    /// The CSS class for this shape.
    pub fn class_name(&self) -> (s: &'static str)
        ensures
            s@ == match *self {
                NodeShape::Box => "uikit-graph-node-box"@,
                NodeShape::Pill => "uikit-graph-node-pill"@,
                NodeShape::Circle => "uikit-graph-node-circle"@,
                NodeShape::Underline => "uikit-graph-node-underline"@,
                NodeShape::Plain => "uikit-graph-node-plain"@,
            },
    {
        match self {
            NodeShape::Box => "uikit-graph-node-box",
            NodeShape::Pill => "uikit-graph-node-pill",
            NodeShape::Circle => "uikit-graph-node-circle",
            NodeShape::Underline => "uikit-graph-node-underline",
            NodeShape::Plain => "uikit-graph-node-plain",
        }
    }

    pub open spec fn name_spec(self) -> Seq<char> {
        match self {
            NodeShape::Box => "Box"@,
            NodeShape::Pill => "Pill"@,
            NodeShape::Circle => "Circle"@,
            NodeShape::Underline => "Underline"@,
            NodeShape::Plain => "Plain"@,
        }
    }

    /// The variant's name, as `{:?}` writes it.
    pub fn name(&self) -> (s: &'static str)
        ensures
            s@ == self.name_spec(),
    {
        match self {
            NodeShape::Box => "Box",
            NodeShape::Pill => "Pill",
            NodeShape::Circle => "Circle",
            NodeShape::Underline => "Underline",
            NodeShape::Plain => "Plain",
        }
    }
}

/// How an edge is routed.
#[derive(Debug, Clone, Copy, PartialEq, Eq, Structural, Default)]
pub enum EdgeType {
    #[default]
    Straight,
    Bezier,
    Orthogonal,
    CurvedOrthogonal,
    /// A long cubic curve whose endpoint tangents follow the source and
    /// target surface normals.
    OrganicCurved,
}

/// Which ends of an edge carry an arrow head.
#[derive(Debug, Clone, Copy, PartialEq, Eq, Structural, Default)]
pub enum ArrowHead {
    #[default]
    NoArrow,
    Start,
    End,
    Both,
}

/// A node of a graph. Its position is kept as the bit patterns of the two
/// `f64` coordinates, which the graph logic only carries along.
#[derive(Debug)]
pub struct GraphNodeData {
    pub id: String,
    pub x_bits: u64,
    pub y_bits: u64,
    /// Accent colour used by the node shape.
    pub color: Option<String>,
    /// A complete CSS border declaration, such as `"none"`.
    pub border: Option<String>,
    /// CSS background colour.
    pub background_color: Option<String>,
    pub shape: NodeShape,
    pub selected: bool,
}

/// An edge of a graph, from one node id to another.
#[derive(Debug)]
pub struct GraphEdgeData {
    pub from: String,
    pub to: String,
    pub label: Option<String>,
    pub edge_type: EdgeType,
    pub color: Option<String>,
    pub animated: bool,
    pub arrow: ArrowHead,
}

/// A node of a hierarchy graph, with its label.
#[derive(Debug)]
pub struct HierarchyNode {
    pub data: GraphNodeData,
    pub label: String,
}

/// A hierarchy (mind-map) graph: nodes, and edges from parent to child.
#[derive(Debug)]
pub struct HierarchyGraphModel {
    pub nodes: Vec<HierarchyNode>,
    pub edges: Vec<GraphEdgeData>,
}

pub(crate) fn clone_opt(o: &Option<String>) -> (r: Option<String>)
    ensures
        r == *o,
{
    match o {
        Some(s) => Some(s.clone()),
        None => None,
    }
}

impl Clone for GraphNodeData {
    fn clone(&self) -> (r: Self)
        ensures
            r == *self,
    {
        GraphNodeData {
            id: self.id.clone(),
            x_bits: self.x_bits,
            y_bits: self.y_bits,
            color: clone_opt(&self.color),
            border: clone_opt(&self.border),
            background_color: clone_opt(&self.background_color),
            shape: self.shape,
            selected: self.selected,
        }
    }
}

impl Clone for GraphEdgeData {
    fn clone(&self) -> (r: Self)
        ensures
            r == *self,
    {
        GraphEdgeData {
            from: self.from.clone(),
            to: self.to.clone(),
            label: clone_opt(&self.label),
            edge_type: self.edge_type,
            color: clone_opt(&self.color),
            animated: self.animated,
            arrow: self.arrow,
        }
    }
}

impl Clone for HierarchyNode {
    fn clone(&self) -> (r: Self)
        ensures
            r == *self,
    {
        HierarchyNode { data: self.data.clone(), label: self.label.clone() }
    }
}

// ---------------------------------------------------------------------------
// Subtrees.
// ---------------------------------------------------------------------------
/// Every edge that leaves `s` lands in `s`.
pub open spec fn closed_under(edges: Seq<GraphEdgeData>, s: Set<Seq<char>>) -> bool {
    forall|i: int| 0 <= i < edges.len() && #[trigger] s.contains(edges[i].from@) ==> s.contains(edges[i].to@)
}

/// `id` is `root` or reachable from it along edges: it lies in every set
/// that holds `root` and is closed under the edges.
pub open spec fn in_subtree(edges: Seq<GraphEdgeData>, root: Seq<char>, id: Seq<char>) -> bool {
    forall|s: Set<Seq<char>>| #[trigger] closed_under(edges, s) && s.contains(root) ==> s.contains(id)
}

/// The nodes whose ids lie outside the subtree of `root`, in order.
pub open spec fn nodes_outside(
    nodes: Seq<HierarchyNode>,
    edges: Seq<GraphEdgeData>,
    root: Seq<char>,
) -> Seq<HierarchyNode>
    decreases nodes.len(),
{
    if nodes.len() == 0 {
        nodes
    } else if in_subtree(edges, root, nodes.last().data.id@) {
        nodes_outside(nodes.drop_last(), edges, root)
    } else {
        nodes_outside(nodes.drop_last(), edges, root).push(nodes.last())
    }
}

/// The edges with neither end in the subtree of `root`, in order.
pub open spec fn edges_outside(
    kept: Seq<GraphEdgeData>,
    edges: Seq<GraphEdgeData>,
    root: Seq<char>,
) -> Seq<GraphEdgeData>
    decreases kept.len(),
{
    if kept.len() == 0 {
        kept
    } else if in_subtree(edges, root, kept.last().from@) || in_subtree(edges, root, kept.last().to@) {
        edges_outside(kept.drop_last(), edges, root)
    } else {
        edges_outside(kept.drop_last(), edges, root).push(kept.last())
    }
}

/// A sequence without repeats, all of whose elements occur in `u`, is no
/// longer than `u`.
pub proof fn lemma_distinct_within(d: Seq<Seq<char>>, u: Seq<Seq<char>>)
    requires
        d.no_duplicates(),
        forall|i: int| 0 <= i < d.len() ==> u.contains(#[trigger] d[i]),
    ensures
        d.len() <= u.len(),
{
    d.unique_seq_to_set();
    u.lemma_cardinality_of_set();
    assert(d.to_set().subset_of(u.to_set())) by {
        assert forall|x: Seq<char>| d.to_set().contains(x) implies u.to_set().contains(x) by {
            let i = choose|i: int| 0 <= i < d.len() && d[i] == x;
        }
    }
    vstd::set_lib::lemma_len_subset(d.to_set(), u.to_set());
}

pub open spec fn string_views(v: Seq<String>) -> Seq<Seq<char>> {
    v.map_values(|s: String| s@)
}

/// The ids held by a vector of strings.
pub open spec fn id_set(v: Seq<String>) -> Set<Seq<char>> {
    string_views(v).to_set()
}

pub(crate) proof fn lemma_id_set_push(v: Seq<String>, x: String)
    ensures
        id_set(v.push(x)) == id_set(v).insert(x@),
{
    assert(string_views(v.push(x)) =~= string_views(v).push(x@));
    string_views(v).lemma_push_to_set_commute(x@);
}

pub(crate) proof fn lemma_id_set_pop(v: Seq<String>)
    requires
        v.len() > 0,
    ensures
        id_set(v) == id_set(v.drop_last()).insert(v.last()@),
{
    assert(v.drop_last().push(v.last()) =~= v);
    lemma_id_set_push(v.drop_last(), v.last());
}

pub(crate) proof fn lemma_in_subtree_step(edges: Seq<GraphEdgeData>, root: Seq<char>, k: int)
    requires
        0 <= k < edges.len(),
        in_subtree(edges, root, edges[k].from@),
    ensures
        in_subtree(edges, root, edges[k].to@),
{
    assert forall|s: Set<Seq<char>>| #[trigger] closed_under(edges, s) && s.contains(root) implies s.contains(
        edges[k].to@,
    ) by {
        assert(s.contains(edges[k].from@));
    }
}

/// `id` is reachable along edges from some id of `starts`: it lies in
/// every set that holds `starts` and is closed under the edges.
pub open spec fn reached(edges: Seq<GraphEdgeData>, starts: Set<Seq<char>>, id: Seq<char>) -> bool {
    forall|s: Set<Seq<char>>| #[trigger] closed_under(edges, s) && starts.subset_of(s) ==> s.contains(id)
}

pub(crate) proof fn lemma_reached_step(edges: Seq<GraphEdgeData>, starts: Set<Seq<char>>, k: int)
    requires
        0 <= k < edges.len(),
        reached(edges, starts, edges[k].from@),
    ensures
        reached(edges, starts, edges[k].to@),
{
    assert forall|s: Set<Seq<char>>| #[trigger] closed_under(edges, s) && starts.subset_of(s) implies s.contains(
        edges[k].to@,
    ) by {
        assert(s.contains(edges[k].from@));
    }
}

/// The ids reachable from `starts` (`starts` among them), each once.
#[verifier::loop_isolation(false)]
pub(crate) fn reach(edges: &Vec<GraphEdgeData>, starts: Vec<String>) -> (d: Vec<String>)
    ensures
        string_views(d@).no_duplicates(),
        forall|id: Seq<char>| #[trigger] id_set(d@).contains(id) <==> reached(edges@, id_set(starts@), id),
{
    let ghost s0 = id_set(starts@);
    let ghost useq: Seq<Seq<char>> = string_views(starts@) + edges@.map_values(|e: GraphEdgeData| e.to@);
    let ghost u: Set<Seq<char>> = useq.to_set();
    let mut deleted: Vec<String> = Vec::new();
    let mut pending: Vec<String> = starts;
    proof {
        assert(string_views(Seq::<String>::empty()) =~= Seq::<Seq<char>>::empty());
        assert forall|x: Seq<char>| #[trigger] id_set(pending@).contains(x) implies u.contains(x) && reached(
            edges@,
            s0,
            x,
        ) by {
            let i = choose|i: int| 0 <= i < string_views(pending@).len() && string_views(pending@)[i] == x;
            assert(useq[i] == x);
        }
    }
    loop
        invariant
            s0 == id_set(starts@),
            string_views(deleted@).no_duplicates(),
            id_set(deleted@).subset_of(u),
            id_set(pending@).subset_of(u),
            forall|x: Seq<char>| #[trigger] id_set(deleted@).contains(x) ==> reached(edges@, s0, x),
            forall|x: Seq<char>| #[trigger] id_set(pending@).contains(x) ==> reached(edges@, s0, x),
            forall|x: Seq<char>| #[trigger] s0.contains(x) ==> id_set(deleted@).contains(x) || id_set(pending@).contains(x),
            forall|k: int|
                0 <= k < edges@.len() && #[trigger] id_set(deleted@).contains(edges@[k].from@)
                    ==> id_set(deleted@).contains(edges@[k].to@) || id_set(pending@).contains(
                    edges@[k].to@,
                ),
        decreases useq.len() - deleted@.len(), pending@.len(),
    {
        proof {
            string_views(deleted@).unique_seq_to_set();
            useq.lemma_cardinality_of_set();
            vstd::set_lib::lemma_len_subset(id_set(deleted@), u);
        }
        let ghost old_deleted = deleted@;
        let ghost old_pending = pending@;
        match pending.pop() {
            None => {
                proof {
                    assert(pending@ =~= Seq::<String>::empty());
                    assert(id_set(pending@) =~= Set::<Seq<char>>::empty());
                }
                break;
            },
            Some(x) => {
                proof {
                    lemma_id_set_pop(old_pending);
                    assert(pending@ == old_pending.drop_last());
                    assert(id_set(old_pending).contains(x@));
                    assert(reached(edges@, s0, x@));
                    assert forall|y: Seq<char>| #[trigger] id_set(pending@).contains(y) implies reached(
                        edges@,
                        s0,
                        y,
                    ) by {
                        assert(id_set(old_pending).contains(y));
                    }
                }
                if !contains_string(&deleted, &x) {
                    deleted.push(x.clone());
                    proof {
                        lemma_id_set_push(old_deleted, x);
                        assert(!string_views(old_deleted).contains(x@)) by {
                            if string_views(old_deleted).contains(x@) {
                                let i = choose|i: int| 0 <= i < old_deleted.len() && string_views(old_deleted)[i] == x@;
                                assert(old_deleted[i]@ == x@);
                            }
                        }
                        assert(string_views(deleted@) =~= string_views(old_deleted).push(x@));
                    }
                    let mut k: usize = 0;
                    while k < edges.len()
                        invariant
                            0 <= k <= edges@.len(),
                            id_set(deleted@) == id_set(old_deleted).insert(x@),
                            reached(edges@, s0, x@),
                            id_set(pending@).subset_of(u),
                            forall|y: Seq<char>| #[trigger] id_set(pending@).contains(y) ==> reached(edges@, s0, y),
                            id_set(old_pending).subset_of(id_set(pending@).insert(x@)),
                            forall|j: int| 0 <= j < k && #[trigger] edges@[j].from@ == x@ ==> id_set(pending@).contains(edges@[j].to@),
                        decreases edges@.len() - k,
                    {
                        if edges[k].from == x {
                            let ghost before = pending@;
                            pending.push(edges[k].to.clone());
                            proof {
                                lemma_id_set_push(before, edges@[k as int].to);
                                lemma_reached_step(edges@, s0, k as int);
                                assert(useq[string_views(starts@).len() + k] == edges@[k as int].to@);
                            }
                        }
                        k = k + 1;
                    }
                    proof {
                        assert(u.contains(x@));
                        assert(id_set(deleted@).subset_of(u));
                        string_views(deleted@).unique_seq_to_set();
                        vstd::set_lib::lemma_len_subset(id_set(deleted@), u);
                        assert(deleted@.len() <= useq.len());
                    }
                } else {
                    proof {
                        assert(string_views(deleted@).contains(x@)) by {
                            let i = choose|i: int| 0 <= i < deleted@.len() && #[trigger] deleted@[i]@ == x@;
                            assert(string_views(deleted@)[i] == x@);
                        }
                    }
                }
            },
        }
    }
    proof {
        assert(closed_under(edges@, id_set(deleted@)));
        assert(s0.subset_of(id_set(deleted@)));
    }
    deleted
}

/// The ids of the subtree of `root`: `root` and everything reachable from
/// it, each once.
pub fn subtree_ids(edges: &Vec<GraphEdgeData>, root: &String) -> (d: Vec<String>)
    ensures
        string_views(d@).no_duplicates(),
        forall|id: Seq<char>| #[trigger] id_set(d@).contains(id) <==> in_subtree(edges@, root@, id),
{
    let mut starts: Vec<String> = Vec::new();
    starts.push(root.clone());
    let d = reach(edges, starts);
    proof {
        lemma_id_set_push(Seq::<String>::empty(), *root);
        assert(string_views(Seq::<String>::empty()) =~= Seq::<Seq<char>>::empty());
        assert(starts@ == seq![*root]);
        assert(id_set(starts@) =~= set![root@]);
        assert forall|id: Seq<char>| reached(edges@, id_set(starts@), id) <==> in_subtree(edges@, root@, id) by {
            if reached(edges@, id_set(starts@), id) {
                assert forall|s: Set<Seq<char>>| #[trigger] closed_under(edges@, s) && s.contains(root@) implies s.contains(id) by {
                    assert(id_set(starts@).subset_of(s));
                }
            }
            if in_subtree(edges@, root@, id) {
                assert forall|s: Set<Seq<char>>| #[trigger] closed_under(edges@, s) && id_set(starts@).subset_of(s) implies s.contains(id) by {
                    assert(s.contains(root@));
                }
            }
        }
    }
    d
}

pub(crate) proof fn lemma_has_string_id_set(v: Seq<String>, x: Seq<char>)
    ensures
        crate::text::seq_has_string(v, x) == id_set(v).contains(x),
{
    if crate::text::seq_has_string(v, x) {
        let i = choose|i: int| 0 <= i < v.len() && #[trigger] v[i]@ == x;
        assert(string_views(v)[i] == x);
    }
    if id_set(v).contains(x) {
        let i = choose|i: int| 0 <= i < string_views(v).len() && string_views(v)[i] == x;
        assert(v[i]@ == x);
    }
}

/// The graph without the node `node_id`, everything below it, and every
/// edge that touches any of them.
pub fn delete_subtree(graph: &HierarchyGraphModel, node_id: &str) -> (r: HierarchyGraphModel)
    ensures
        r.nodes@ == nodes_outside(graph.nodes@, graph.edges@, node_id@),
        r.edges@ == edges_outside(graph.edges@, graph.edges@, node_id@),
{
    let root = node_id.to_owned();
    let deleted = subtree_ids(&graph.edges, &root);
    let mut nodes: Vec<HierarchyNode> = Vec::new();
    let mut i: usize = 0;
    while i < graph.nodes.len()
        invariant
            i <= graph.nodes@.len(),
            root@ == node_id@,
            forall|id: Seq<char>| #[trigger] id_set(deleted@).contains(id) <==> in_subtree(graph.edges@, root@, id),
            nodes@ == nodes_outside(graph.nodes@.take(i as int), graph.edges@, node_id@),
        decreases graph.nodes@.len() - i,
    {
        let ghost pre = graph.nodes@.take(i as int);
        assert(graph.nodes@.take(i + 1).drop_last() =~= pre);
        let gone = contains_string(&deleted, &graph.nodes[i].data.id);
        proof {
            lemma_has_string_id_set(deleted@, graph.nodes@[i as int].data.id@);
        }
        if !gone {
            nodes.push(graph.nodes[i].clone());
        }
        i = i + 1;
    }
    assert(graph.nodes@.take(graph.nodes@.len() as int) =~= graph.nodes@);
    let mut edges: Vec<GraphEdgeData> = Vec::new();
    let mut k: usize = 0;
    while k < graph.edges.len()
        invariant
            k <= graph.edges@.len(),
            root@ == node_id@,
            forall|id: Seq<char>| #[trigger] id_set(deleted@).contains(id) <==> in_subtree(graph.edges@, root@, id),
            edges@ == edges_outside(graph.edges@.take(k as int), graph.edges@, node_id@),
        decreases graph.edges@.len() - k,
    {
        let ghost pre = graph.edges@.take(k as int);
        assert(graph.edges@.take(k + 1).drop_last() =~= pre);
        let from_gone = contains_string(&deleted, &graph.edges[k].from);
        let to_gone = contains_string(&deleted, &graph.edges[k].to);
        proof {
            lemma_has_string_id_set(deleted@, graph.edges@[k as int].from@);
            lemma_has_string_id_set(deleted@, graph.edges@[k as int].to@);
        }
        if !from_gone && !to_gone {
            edges.push(graph.edges[k].clone());
        }
        k = k + 1;
    }
    assert(graph.edges@.take(graph.edges@.len() as int) =~= graph.edges@);
    HierarchyGraphModel { nodes, edges }
}

proof fn lemma_nodes_outside(nodes: Seq<HierarchyNode>, edges: Seq<GraphEdgeData>, root: Seq<char>)
    ensures
        forall|i: int|
            0 <= i < nodes_outside(nodes, edges, root).len() ==> !in_subtree(
                edges,
                root,
                #[trigger] nodes_outside(nodes, edges, root)[i].data.id@,
            ),
        forall|i: int|
            0 <= i < nodes.len() && !in_subtree(edges, root, #[trigger] nodes[i].data.id@)
                ==> nodes_outside(nodes, edges, root).contains(nodes[i]),
    decreases nodes.len(),
{
    if nodes.len() > 0 {
        let rest = nodes.drop_last();
        lemma_nodes_outside(rest, edges, root);
        assert forall|i: int|
            0 <= i < nodes.len() && !in_subtree(edges, root, #[trigger] nodes[i].data.id@)
                implies nodes_outside(nodes, edges, root).contains(nodes[i]) by {
            if i < nodes.len() - 1 {
                assert(nodes[i] == rest[i]);
                let j = choose|j: int|
                    0 <= j < nodes_outside(rest, edges, root).len() && nodes_outside(rest, edges, root)[j]
                        == rest[i];
                if !in_subtree(edges, root, nodes.last().data.id@) {
                    assert(nodes_outside(nodes, edges, root)[j] == rest[i]);
                }
            } else {
                let o = nodes_outside(nodes, edges, root);
                assert(o[o.len() - 1] == nodes[i]);
            }
        }
    }
}

proof fn lemma_edges_outside(kept: Seq<GraphEdgeData>, edges: Seq<GraphEdgeData>, root: Seq<char>)
    ensures
        forall|i: int|
            0 <= i < edges_outside(kept, edges, root).len() ==> !in_subtree(
                edges,
                root,
                #[trigger] edges_outside(kept, edges, root)[i].from@,
            ) && !in_subtree(edges, root, edges_outside(kept, edges, root)[i].to@),
    decreases kept.len(),
{
    if kept.len() > 0 {
        lemma_edges_outside(kept.drop_last(), edges, root);
    }
}

/// Deleting a node removes its whole subtree: no node that is left lies
/// below it (or is it), every node outside its subtree is kept, and no edge
/// that is left touches the subtree.
pub proof fn law_delete_removes_whole_subtree(
    nodes: Seq<HierarchyNode>,
    edges: Seq<GraphEdgeData>,
    root: Seq<char>,
)
    ensures
        forall|i: int|
            0 <= i < nodes_outside(nodes, edges, root).len() ==> !in_subtree(
                edges,
                root,
                #[trigger] nodes_outside(nodes, edges, root)[i].data.id@,
            ),
        forall|i: int|
            0 <= i < nodes.len() && !in_subtree(edges, root, #[trigger] nodes[i].data.id@)
                ==> nodes_outside(nodes, edges, root).contains(nodes[i]),
        forall|i: int|
            0 <= i < edges_outside(edges, edges, root).len() ==> !in_subtree(
                edges,
                root,
                #[trigger] edges_outside(edges, edges, root)[i].from@,
            ) && !in_subtree(edges, root, edges_outside(edges, edges, root)[i].to@),
        forall|i: int|
            0 <= i < nodes.len() && #[trigger] nodes[i].data.id@ == root ==> in_subtree(
                edges,
                root,
                nodes[i].data.id@,
            ),
{
    lemma_nodes_outside(nodes, edges, root);
    lemma_edges_outside(edges, edges, root);
}

// ---------------------------------------------------------------------------
// Fresh ids.
// ---------------------------------------------------------------------------
/// The id `node-k`.
pub open spec fn node_label(k: nat) -> Seq<char> {
    "node-"@ + decimal(k)
}

pub open spec fn node_ids(nodes: Seq<HierarchyNode>) -> Seq<Seq<char>> {
    nodes.map_values(|n: HierarchyNode| n.data.id@)
}

/// `k` is the least index from 1 whose label no node has.
pub open spec fn is_first_free(nodes: Seq<HierarchyNode>, k: nat) -> bool {
    &&& k >= 1
    &&& !node_ids(nodes).contains(node_label(k))
    &&& forall|j: nat| 1 <= j < k ==> node_ids(nodes).contains(#[trigger] node_label(j))
}

/// The index of the id a new node gets.
pub open spec fn first_free(nodes: Seq<HierarchyNode>) -> nat {
    choose|k: nat| is_first_free(nodes, k)
}

proof fn lemma_node_label_injective(a: nat, b: nat)
    requires
        node_label(a) == node_label(b),
    ensures
        a == b,
{
    let p = "node-"@;
    assert(node_label(a).skip(p.len() as int) =~= decimal(a));
    assert(node_label(b).skip(p.len() as int) =~= decimal(b));
    lemma_decimal_digits(a);
    lemma_decimal_digits(b);
}

proof fn lemma_first_free_unique(nodes: Seq<HierarchyNode>, k: nat)
    requires
        is_first_free(nodes, k),
    ensures
        first_free(nodes) == k,
{
    let c = first_free(nodes);
    assert(is_first_free(nodes, c));
    if c < k {
        assert(node_ids(nodes).contains(node_label(c)));
    } else if k < c {
        assert(node_ids(nodes).contains(node_label(k)));
    }
}

fn label_string(k: usize) -> (s: String)
    ensures
        s@ == node_label(k as nat),
{
    let mut v = chars_of("node-");
    digits_into(k as u64, &mut v);
    let mut s = String::new();
    push_all(&mut s, &v);
    s
}

fn has_node_id(nodes: &Vec<HierarchyNode>, id: &String) -> (b: bool)
    ensures
        b == node_ids(nodes@).contains(id@),
{
    let mut i: usize = 0;
    while i < nodes.len()
        invariant
            i <= nodes@.len(),
            forall|j: int| 0 <= j < i ==> #[trigger] nodes@[j].data.id@ != id@,
        decreases nodes@.len() - i,
    {
        if nodes[i].data.id == *id {
            assert(node_ids(nodes@)[i as int] == id@);
            return true;
        }
        i = i + 1;
    }
    assert(!node_ids(nodes@).contains(id@)) by {
        if node_ids(nodes@).contains(id@) {
            let j = choose|j: int| 0 <= j < node_ids(nodes@).len() && node_ids(nodes@)[j] == id@;
            assert(nodes@[j].data.id@ == id@);
        }
    }
    false
}

/// The first of `node-1`, `node-2`, ... that no node of the graph has.
pub fn next_node_id(graph: &HierarchyGraphModel) -> (id: String)
    requires
        graph.nodes@.len() < usize::MAX,
    ensures
        id@ == node_label(first_free(graph.nodes@)),
        is_first_free(graph.nodes@, first_free(graph.nodes@)),
        !node_ids(graph.nodes@).contains(id@),
{
    let ghost ids = node_ids(graph.nodes@);
    let count = graph.nodes.len();
    let mut k: usize = 1;
    loop
        invariant
            1 <= k <= ids.len() + 1,
            ids.len() == count,
            count < usize::MAX,
            ids == node_ids(graph.nodes@),
            forall|j: nat| 1 <= j < k ==> ids.contains(#[trigger] node_label(j)),
        decreases ids.len() + 1 - k,
    {
        let candidate = label_string(k);
        if !has_node_id(&graph.nodes, &candidate) {
            proof {
                lemma_first_free_unique(graph.nodes@, k as nat);
            }
            return candidate;
        }
        proof {
            let d = Seq::new(k as nat, |j: int| node_label((j + 1) as nat));
            assert(d.no_duplicates()) by {
                assert forall|a: int, b: int| 0 <= a < d.len() && 0 <= b < d.len() && a != b implies d[a] != d[b] by {
                    if d[a] == d[b] {
                        lemma_node_label_injective((a + 1) as nat, (b + 1) as nat);
                    }
                }
            }
            assert forall|i: int| 0 <= i < d.len() implies ids.contains(#[trigger] d[i]) by {
                if i < k - 1 {
                    assert(ids.contains(node_label((i + 1) as nat)));
                }
            }
            lemma_distinct_within(d, ids);
        }
        k = k + 1;
    }
}

// ---------------------------------------------------------------------------
// Depth in the hierarchy.
// ---------------------------------------------------------------------------
/// The parent of `id`: the source of the last edge into it.
pub open spec fn parent_of(edges: Seq<GraphEdgeData>, id: Seq<char>) -> Option<Seq<char>>
    decreases edges.len(),
{
    if edges.len() == 0 {
        None
    } else if edges.last().to@ == id {
        Some(edges.last().from@)
    } else {
        parent_of(edges.drop_last(), id)
    }
}

/// `id`, its parent, its parent's parent, ...: the `k`-th of them (staying
/// put at a node without a parent).
pub open spec fn ancestor(edges: Seq<GraphEdgeData>, id: Seq<char>, k: nat) -> Seq<char>
    decreases k,
{
    if k == 0 {
        id
    } else {
        match parent_of(edges, ancestor(edges, id, (k - 1) as nat)) {
            Some(p) => p,
            None => ancestor(edges, id, (k - 1) as nat),
        }
    }
}

/// The walk up from `id` stops at its `k`-th ancestor: it has no parent,
/// or it was met before (a cycle).
pub open spec fn walk_stops(edges: Seq<GraphEdgeData>, id: Seq<char>, k: nat) -> bool {
    ||| parent_of(edges, ancestor(edges, id, k)) is None
    ||| exists|j: nat| j < k && #[trigger] ancestor(edges, id, j) == ancestor(edges, id, k)
}

pub open spec fn is_depth(edges: Seq<GraphEdgeData>, id: Seq<char>, k: nat) -> bool {
    walk_stops(edges, id, k) && forall|j: nat| j < k ==> !#[trigger] walk_stops(edges, id, j)
}

/// How many steps up the hierarchy `id` lies: the ancestors met before the
/// walk stops.
pub open spec fn depth_of(edges: Seq<GraphEdgeData>, id: Seq<char>) -> nat {
    choose|k: nat| is_depth(edges, id, k)
}

proof fn lemma_parent_has_edge(edges: Seq<GraphEdgeData>, id: Seq<char>)
    requires
        parent_of(edges, id) is Some,
    ensures
        exists|i: int| 0 <= i < edges.len() && #[trigger] edges[i].to@ == id,
    decreases edges.len(),
{
    if edges.last().to@ == id {
        assert(edges[edges.len() - 1].to@ == id);
    } else {
        lemma_parent_has_edge(edges.drop_last(), id);
        let i = choose|i: int| 0 <= i < edges.len() - 1 && #[trigger] edges.drop_last()[i].to@ == id;
        assert(edges[i].to@ == id);
    }
}

pub(crate) fn parent_lookup(edges: &Vec<GraphEdgeData>, id: &String) -> (r: Option<String>)
    ensures
        match r {
            Some(p) => parent_of(edges@, id@) == Some(p@),
            None => parent_of(edges@, id@) is None,
        },
{
    let mut found: Option<String> = None;
    let mut i: usize = 0;
    while i < edges.len()
        invariant
            i <= edges@.len(),
            match found {
                Some(p) => parent_of(edges@.take(i as int), id@) == Some(p@),
                None => parent_of(edges@.take(i as int), id@) is None,
            },
        decreases edges@.len() - i,
    {
        assert(edges@.take(i + 1).drop_last() =~= edges@.take(i as int));
        if edges[i].to == *id {
            found = Some(edges[i].from.clone());
        }
        i = i + 1;
    }
    assert(edges@.take(edges@.len() as int) =~= edges@);
    found
}

proof fn lemma_depth_unique(edges: Seq<GraphEdgeData>, id: Seq<char>, k: nat)
    requires
        is_depth(edges, id, k),
    ensures
        depth_of(edges, id) == k,
{
    let c = depth_of(edges, id);
    assert(is_depth(edges, id, c));
    if c < k {
        assert(!walk_stops(edges, id, c));
    } else if k < c {
        assert(!walk_stops(edges, id, k));
    }
}

/// How deep `node_id` lies in the hierarchy whose parent links are the
/// edges (the last edge into a node names its parent): the number of
/// ancestors met walking up before a node without a parent or a cycle.
pub fn hierarchy_depth(node_id: &str, edges: &Vec<GraphEdgeData>) -> (d: usize)
    ensures
        d == depth_of(edges@, node_id@),
        d <= edges@.len(),
{
    let ghost targets = edges@.map_values(|e: GraphEdgeData| e.to@);
    let mut current: String = node_id.to_owned();
    let mut visited: Vec<String> = Vec::new();
    let mut depth: usize = 0;
    let edge_count = edges.len();
    loop
        invariant
            edge_count == edges@.len(),
            depth == visited@.len(),
            depth <= edges@.len(),
            targets == edges@.map_values(|e: GraphEdgeData| e.to@),
            current@ == ancestor(edges@, node_id@, depth as nat),
            forall|j: int| 0 <= j < depth ==> #[trigger] visited@[j]@ == ancestor(edges@, node_id@, j as nat),
            forall|j: nat| j < depth ==> !#[trigger] walk_stops(edges@, node_id@, j),
        decreases edges@.len() - depth,
    {
        let parent = parent_lookup(edges, &current);
        let p = match parent {
            Some(p) => p,
            None => {
                proof {
                    lemma_depth_unique(edges@, node_id@, depth as nat);
                }
                return depth;
            },
        };
        if contains_string(&visited, &current) {
            proof {
                let j = choose|j: int| 0 <= j < visited@.len() && #[trigger] visited@[j]@ == current@;
                assert(ancestor(edges@, node_id@, j as nat) == ancestor(edges@, node_id@, depth as nat));
                assert(walk_stops(edges@, node_id@, depth as nat));
                lemma_depth_unique(edges@, node_id@, depth as nat);
            }
            return depth;
        }
        let ghost pre = visited@;
        visited.push(current.clone());
        proof {
            assert(!walk_stops(edges@, node_id@, depth as nat)) by {
                if exists|j: nat| j < depth && #[trigger] ancestor(edges@, node_id@, j) == ancestor(edges@, node_id@, depth as nat) {
                    let j = choose|j: nat| j < depth && #[trigger] ancestor(edges@, node_id@, j) == ancestor(edges@, node_id@, depth as nat);
                    assert(visited@[j as int]@ == current@);
                }
            }
            let vs = string_views(visited@);
            assert(vs.no_duplicates()) by {
                assert forall|a: int, b: int| 0 <= a < vs.len() && 0 <= b < vs.len() && a != b implies vs[a] != vs[b] by {
                    let (lo, hi) = if a < b { (a, b) } else { (b, a) };
                    assert(!walk_stops(edges@, node_id@, hi as nat));
                    assert(vs[lo] == ancestor(edges@, node_id@, lo as nat));
                    assert(vs[hi] == ancestor(edges@, node_id@, hi as nat));
                }
            }
            assert forall|i: int| 0 <= i < vs.len() implies targets.contains(#[trigger] vs[i]) by {
                let a = ancestor(edges@, node_id@, i as nat);
                assert(!walk_stops(edges@, node_id@, i as nat));
                lemma_parent_has_edge(edges@, a);
                let t = choose|t: int| 0 <= t < edges@.len() && #[trigger] edges@[t].to@ == a;
                assert(targets[t] == a);
            }
            lemma_distinct_within(vs, targets);
        }
        depth = depth + 1;
        current = p;
    }
}

// ---------------------------------------------------------------------------
// Adding a child.
// ---------------------------------------------------------------------------
/// How many edges leave `id`.
pub open spec fn out_degree(edges: Seq<GraphEdgeData>, id: Seq<char>) -> nat
    decreases edges.len(),
{
    if edges.len() == 0 {
        0
    } else {
        out_degree(edges.drop_last(), id) + if edges.last().from@ == id {
            1nat
        } else {
            0nat
        }
    }
}

/// How many children `parent_id` has (edges leaving it).
pub fn child_count(graph: &HierarchyGraphModel, parent_id: &str) -> (n: usize)
    ensures
        n == out_degree(graph.edges@, parent_id@),
{
    let key = parent_id.to_owned();
    let mut n: usize = 0;
    let mut i: usize = 0;
    while i < graph.edges.len()
        invariant
            i <= graph.edges@.len(),
            key@ == parent_id@,
            n == out_degree(graph.edges@.take(i as int), parent_id@),
            n <= i,
        decreases graph.edges@.len() - i,
    {
        assert(graph.edges@.take(i + 1).drop_last() =~= graph.edges@.take(i as int));
        if graph.edges[i].from == key {
            n = n + 1;
        }
        i = i + 1;
    }
    assert(graph.edges@.take(graph.edges@.len() as int) =~= graph.edges@);
    n
}

/// The node `add_child` appends: id `id`, at the origin, no background,
/// borderless, labelled "New node"; a box down to the second level and
/// plain text below it; coloured `color` when it is a main topic (depth 1).
pub open spec fn is_new_child(n: HierarchyNode, id: Seq<char>, depth: int, color: Seq<char>) -> bool {
    &&& n.data.id@ == id
    &&& n.data.x_bits == 0
    &&& n.data.y_bits == 0
    &&& (if depth == 1 {
        n.data.color matches Some(c) && c@ == color
    } else {
        n.data.color is None
    })
    &&& n.data.border matches Some(b) && b@ == "none"@
    &&& n.data.background_color is None
    &&& n.data.shape == (if depth <= 2 {
        NodeShape::Box
    } else {
        NodeShape::Plain
    })
    &&& !n.data.selected
    &&& n.label@ == "New node"@
}

/// The edge `add_child` appends: an organic curve from the parent to the
/// new node, unlabelled, still, without arrow heads, coloured as the node.
pub open spec fn is_new_edge(e: GraphEdgeData, parent: Seq<char>, id: Seq<char>, depth: int, color: Seq<char>) -> bool {
    &&& e.from@ == parent
    &&& e.to@ == id
    &&& e.label is None
    &&& e.edge_type == EdgeType::OrganicCurved
    &&& (if depth == 1 {
        e.color matches Some(c) && c@ == color
    } else {
        e.color is None
    })
    &&& !e.animated
    &&& e.arrow == ArrowHead::NoArrow
}

/// The graph with a new child under `parent_id`, and the child's id. The
/// colour is used only for a main topic (a child of a root), as its branch
/// colour.
pub fn add_child(graph: &HierarchyGraphModel, parent_id: &str, branch_color: String) -> (r: (HierarchyGraphModel, String))
    requires
        graph.nodes@.len() < usize::MAX,
        graph.edges@.len() < usize::MAX,
    ensures
        r.1@ == node_label(first_free(graph.nodes@)),
        !node_ids(graph.nodes@).contains(r.1@),
        r.0.nodes@.len() == graph.nodes@.len() + 1,
        r.0.nodes@.drop_last() == graph.nodes@,
        is_new_child(r.0.nodes@.last(), r.1@, (depth_of(graph.edges@, parent_id@) + 1) as int, branch_color@),
        r.0.edges@.len() == graph.edges@.len() + 1,
        r.0.edges@.drop_last() == graph.edges@,
        is_new_edge(r.0.edges@.last(), parent_id@, r.1@, (depth_of(graph.edges@, parent_id@) + 1) as int, branch_color@),
{
    let id = next_node_id(graph);
    let edge_count = graph.edges.len();
    let child_depth = hierarchy_depth(parent_id, &graph.edges) + 1;
    let color: Option<String> = if child_depth == 1 {
        Some(branch_color)
    } else {
        None
    };
    let mut nodes: Vec<HierarchyNode> = Vec::new();
    let mut i: usize = 0;
    while i < graph.nodes.len()
        invariant
            i <= graph.nodes@.len(),
            nodes@ == graph.nodes@.take(i as int),
        decreases graph.nodes@.len() - i,
    {
        nodes.push(graph.nodes[i].clone());
        i = i + 1;
        assert(nodes@ =~= graph.nodes@.take(i as int));
    }
    let mut edges: Vec<GraphEdgeData> = Vec::new();
    let mut k: usize = 0;
    while k < graph.edges.len()
        invariant
            k <= graph.edges@.len(),
            edges@ == graph.edges@.take(k as int),
        decreases graph.edges@.len() - k,
    {
        edges.push(graph.edges[k].clone());
        k = k + 1;
        assert(edges@ =~= graph.edges@.take(k as int));
    }
    assert(nodes@ =~= graph.nodes@);
    assert(edges@ =~= graph.edges@);
    nodes.push(HierarchyNode {
        data: GraphNodeData {
            id: id.clone(),
            x_bits: 0,
            y_bits: 0,
            color: clone_opt(&color),
            border: Some("none".to_owned()),
            background_color: None,
            shape: if child_depth <= 2 {
                NodeShape::Box
            } else {
                NodeShape::Plain
            },
            selected: false,
        },
        label: "New node".to_owned(),
    });
    edges.push(GraphEdgeData {
        from: parent_id.to_owned(),
        to: id.clone(),
        label: None,
        edge_type: EdgeType::OrganicCurved,
        color,
        animated: false,
        arrow: ArrowHead::NoArrow,
    });
    (HierarchyGraphModel { nodes, edges }, id)
}

/// The shape a node is drawn with in a hierarchy: plain nodes on the
/// second level get a box.
pub fn hierarchy_node_shape(shape: NodeShape, depth: usize, _background: Option<&str>) -> (s: NodeShape)
    ensures
        s == (if depth == 2 && shape == NodeShape::Plain {
            NodeShape::Box
        } else {
            shape
        }),
{
    if depth == 2 && shape == NodeShape::Plain {
        NodeShape::Box
    } else {
        shape
    }
}

/// The key a measured label size is cached under: `{depth}:{shape:?}:{label}`.
pub fn measurement_key(label: &str, shape: NodeShape, depth: usize) -> (s: String)
    ensures
        s@ == decimal(depth as nat) + ":"@ + shape.name_spec() + ":"@ + label@,
{
    let mut v: Vec<char> = Vec::new();
    digits_into(depth as u64, &mut v);
    let mut s = String::new();
    push_all(&mut s, &v);
    push_all(&mut s, &chars_of(":"));
    push_all(&mut s, &chars_of(shape.name()));
    push_all(&mut s, &chars_of(":"));
    push_all(&mut s, &chars_of(label));
    s
}

proof fn lemma_nodes_outside_none(nodes: Seq<HierarchyNode>, edges: Seq<GraphEdgeData>, root: Seq<char>)
    requires
        forall|i: int| 0 <= i < nodes.len() ==> !in_subtree(edges, root, #[trigger] nodes[i].data.id@),
    ensures
        nodes_outside(nodes, edges, root) == nodes,
    decreases nodes.len(),
{
    if nodes.len() > 0 {
        let rest = nodes.drop_last();
        assert forall|i: int| 0 <= i < rest.len() implies !in_subtree(edges, root, #[trigger] rest[i].data.id@) by {
            assert(rest[i] == nodes[i]);
        }
        lemma_nodes_outside_none(rest, edges, root);
        assert(nodes[nodes.len() - 1] == nodes.last());
        assert(rest.push(nodes.last()) =~= nodes);
    }
}

proof fn lemma_edges_outside_none(kept: Seq<GraphEdgeData>, edges: Seq<GraphEdgeData>, root: Seq<char>)
    requires
        forall|i: int|
            0 <= i < kept.len() ==> !in_subtree(edges, root, #[trigger] kept[i].from@) && !in_subtree(
                edges,
                root,
                kept[i].to@,
            ),
    ensures
        edges_outside(kept, edges, root) == kept,
    decreases kept.len(),
{
    if kept.len() > 0 {
        let rest = kept.drop_last();
        assert forall|i: int|
            0 <= i < rest.len() implies !in_subtree(edges, root, #[trigger] rest[i].from@) && !in_subtree(
                edges,
                root,
                rest[i].to@,
            ) by {
            assert(rest[i] == kept[i]);
        }
        lemma_edges_outside_none(rest, edges, root);
        assert(kept[kept.len() - 1] == kept.last());
        assert(rest.push(kept.last()) =~= kept);
    }
}

/// Deleting the child that `add_child` just added gives back the graph it
/// was added to, provided no edge of that graph already mentioned the new
/// id.
pub proof fn law_delete_undoes_add_child(
    nodes: Seq<HierarchyNode>,
    edges: Seq<GraphEdgeData>,
    nodes2: Seq<HierarchyNode>,
    edges2: Seq<GraphEdgeData>,
    id: Seq<char>,
    parent: Seq<char>,
    depth: int,
    color: Seq<char>,
)
    requires
        !node_ids(nodes).contains(id),
        forall|i: int| 0 <= i < edges.len() ==> #[trigger] edges[i].from@ != id && edges[i].to@ != id,
        nodes2.len() == nodes.len() + 1,
        nodes2.drop_last() == nodes,
        is_new_child(nodes2.last(), id, depth, color),
        edges2.len() == edges.len() + 1,
        edges2.drop_last() == edges,
        is_new_edge(edges2.last(), parent, id, depth, color),
    ensures
        nodes_outside(nodes2, edges2, id) == nodes,
        edges_outside(edges2, edges2, id) == edges,
{
    let only = Set::<Seq<char>>::empty().insert(id);
    assert(closed_under(edges2, only)) by {
        assert forall|i: int| 0 <= i < edges2.len() && #[trigger] only.contains(edges2[i].from@) implies only.contains(
            edges2[i].to@,
        ) by {
            if i < edges.len() {
                assert(edges2[i] == edges[i]);
            } else {
                assert(edges2[i] == edges2.last());
            }
        }
    }
    assert forall|x: Seq<char>| in_subtree(edges2, id, x) implies x == id by {
        assert(only.contains(x));
    }
    assert forall|i: int| 0 <= i < nodes.len() implies !in_subtree(edges2, id, #[trigger] nodes[i].data.id@) by {
        assert(node_ids(nodes)[i] == nodes[i].data.id@);
    }
    lemma_nodes_outside_none(nodes, edges2, id);
    assert(nodes2.last().data.id@ == id);
    assert forall|s: Set<Seq<char>>| #[trigger] closed_under(edges2, s) && s.contains(id) implies s.contains(id) by {}
    assert(in_subtree(edges2, id, id));
    assert(nodes_outside(nodes2, edges2, id) == nodes_outside(nodes, edges2, id));
    assert forall|i: int|
        0 <= i < edges.len() implies !in_subtree(edges2, id, #[trigger] edges[i].from@) && !in_subtree(
            edges2,
            id,
            edges[i].to@,
        ) by {}
    lemma_edges_outside_none(edges, edges2, id);
    assert(edges2.last().to@ == id);
}

} // verus!
