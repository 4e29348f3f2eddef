//! The decisions a hierarchy (mind-map) view makes before it draws: which
//! nodes and edges a collapsed set hides, which nodes are roots, which main
//! topics go on which side, the colours and outlines of each level, and the
//! label of a collapse button.
use vstd::prelude::*;
use crate::branches::{children_list, children_of, descendant_ids, lies_below};
use crate::graph::{
    id_set, lemma_has_string_id_set, lemma_id_set_push, parent_lookup, parent_of, string_views,
    clone_opt, GraphEdgeData, HierarchyNode, NodeShape,
};
use crate::text::{contains_string, decimal, digits_into, seq_has_string, string_of};

verus! {

broadcast use vstd::seq_lib::group_seq_properties;

/// `id` is hidden by collapsing the nodes `collapsed`: it lies below one
/// of them.
pub open spec fn hidden_by(edges: Seq<GraphEdgeData>, collapsed: Seq<Seq<char>>, id: Seq<char>) -> bool {
    exists|j: int| 0 <= j < collapsed.len() && lies_below(edges, #[trigger] collapsed[j], id)
}

/// The ids hidden by collapsing `collapsed`: everything below any of them,
/// each once.
pub fn hidden_ids(edges: &Vec<GraphEdgeData>, collapsed: &Vec<String>) -> (h: Vec<String>)
    ensures
        string_views(h@).no_duplicates(),
        forall|id: Seq<char>| #[trigger] id_set(h@).contains(id) <==> hidden_by(edges@, string_views(collapsed@), id),
{
    let mut out: Vec<String> = Vec::new();
    let mut i: usize = 0;
    proof {
        assert(string_views(out@) =~= Seq::<Seq<char>>::empty());
    }
    while i < collapsed.len()
        invariant
            i <= collapsed@.len(),
            string_views(out@).no_duplicates(),
            forall|id: Seq<char>| #[trigger] id_set(out@).contains(id) <==> hidden_by(
                edges@,
                string_views(collapsed@).take(i as int),
                id,
            ),
        decreases collapsed@.len() - i,
    {
        let below = descendant_ids(collapsed[i].as_str(), edges);
        let ghost c = collapsed@[i as int]@;
        let ghost before = out@;
        let mut k: usize = 0;
        while k < below.len()
            invariant
                k <= below@.len(),
                string_views(out@).no_duplicates(),
                forall|id: Seq<char>| #[trigger] id_set(out@).contains(id) <==> (id_set(before).contains(id)
                    || id_set(below@.take(k as int)).contains(id)),
            decreases below@.len() - k,
        {
            proof {
                assert(below@.take(k + 1) =~= below@.take(k as int).push(below@[k as int]));
                lemma_id_set_push(below@.take(k as int), below@[k as int]);
                lemma_has_string_id_set(out@, below@[k as int]@);
            }
            if !contains_string(&out, &below[k]) {
                let ghost pre = out@;
                out.push(below[k].clone());
                proof {
                    lemma_id_set_push(pre, below@[k as int]);
                    assert(string_views(out@) =~= string_views(pre).push(below@[k as int]@));
                    assert(!string_views(pre).contains(below@[k as int]@)) by {
                        if string_views(pre).contains(below@[k as int]@) {
                            let j = choose|j: int| 0 <= j < string_views(pre).len() && string_views(pre)[j] == below@[k as int]@;
                            assert(pre[j]@ == below@[k as int]@);
                        }
                    }
                }
            }
            k = k + 1;
        }
        proof {
            assert(below@.take(below@.len() as int) =~= below@);
            let cs = string_views(collapsed@);
            assert(cs.take(i + 1) =~= cs.take(i as int).push(c));
            assert forall|id: Seq<char>| #[trigger] id_set(out@).contains(id) <==> hidden_by(edges@, cs.take(i + 1), id) by {
                if hidden_by(edges@, cs.take(i + 1), id) {
                    let j = choose|j: int| 0 <= j < cs.take(i + 1).len() && lies_below(edges@, #[trigger] cs.take(i + 1)[j], id);
                    if j < i {
                        assert(cs.take(i as int)[j] == cs.take(i + 1)[j]);
                    }
                }
                if hidden_by(edges@, cs.take(i as int), id) {
                    let j = choose|j: int| 0 <= j < cs.take(i as int).len() && lies_below(edges@, #[trigger] cs.take(i as int)[j], id);
                    assert(cs.take(i + 1)[j] == cs.take(i as int)[j]);
                }
                if lies_below(edges@, c, id) {
                    assert(cs.take(i + 1)[i as int] == c);
                }
            }
        }
        i = i + 1;
    }
    proof {
        assert(string_views(collapsed@).take(collapsed@.len() as int) =~= string_views(collapsed@));
    }
    out
}

/// The positions `i < n` of `nodes` whose ids are not in `hidden`, in order.
pub open spec fn shown_nodes(nodes: Seq<HierarchyNode>, hidden: Set<Seq<char>>, n: nat) -> Seq<usize>
    decreases n,
{
    if n == 0 {
        Seq::empty()
    } else if hidden.contains(nodes[n - 1].data.id@) {
        shown_nodes(nodes, hidden, (n - 1) as nat)
    } else {
        shown_nodes(nodes, hidden, (n - 1) as nat).push((n - 1) as usize)
    }
}

/// The positions `i < n` of `edges` with neither end in `hidden`, in order.
pub open spec fn shown_edges(edges: Seq<GraphEdgeData>, hidden: Set<Seq<char>>, n: nat) -> Seq<usize>
    decreases n,
{
    if n == 0 {
        Seq::empty()
    } else if hidden.contains(edges[n - 1].from@) || hidden.contains(edges[n - 1].to@) {
        shown_edges(edges, hidden, (n - 1) as nat)
    } else {
        shown_edges(edges, hidden, (n - 1) as nat).push((n - 1) as usize)
    }
}

/// The ids hidden by collapsing `collapsed`, as a set.
pub open spec fn hidden_set(edges: Seq<GraphEdgeData>, collapsed: Seq<Seq<char>>) -> Set<Seq<char>> {
    Set::new(|id: Seq<char>| hidden_by(edges, collapsed, id))
}

/// What a view shows once the nodes `collapsed` are folded: the positions
/// of the nodes not hidden, and of the edges with neither end hidden.
pub fn visible_parts(nodes: &Vec<HierarchyNode>, edges: &Vec<GraphEdgeData>, collapsed: &Vec<String>) -> (r: (
    Vec<usize>,
    Vec<usize>,
))
    ensures
        r.0@ == shown_nodes(nodes@, hidden_set(edges@, string_views(collapsed@)), nodes@.len()),
        r.1@ == shown_edges(edges@, hidden_set(edges@, string_views(collapsed@)), edges@.len()),
{
    let hidden = hidden_ids(edges, collapsed);
    let ghost hs = hidden_set(edges@, string_views(collapsed@));
    proof {
        assert(id_set(hidden@) =~= hs);
    }
    let mut shown: Vec<usize> = Vec::new();
    let mut i: usize = 0;
    while i < nodes.len()
        invariant
            i <= nodes@.len(),
            id_set(hidden@) == hs,
            shown@ == shown_nodes(nodes@, hs, i as nat),
        decreases nodes@.len() - i,
    {
        proof {
            lemma_has_string_id_set(hidden@, nodes@[i as int].data.id@);
        }
        if !contains_string(&hidden, &nodes[i].data.id) {
            shown.push(i);
        }
        i = i + 1;
    }
    let mut kept: Vec<usize> = Vec::new();
    let mut k: usize = 0;
    while k < edges.len()
        invariant
            k <= edges@.len(),
            id_set(hidden@) == hs,
            kept@ == shown_edges(edges@, hs, k as nat),
        decreases edges@.len() - k,
    {
        proof {
            lemma_has_string_id_set(hidden@, edges@[k as int].from@);
            lemma_has_string_id_set(hidden@, edges@[k as int].to@);
        }
        if !contains_string(&hidden, &edges[k].from) && !contains_string(&hidden, &edges[k].to) {
            kept.push(k);
        }
        k = k + 1;
    }
    (shown, kept)
}

/// The ids of the nodes at `shown` (in that order) that have no parent.
pub open spec fn parentless(nodes: Seq<HierarchyNode>, edges: Seq<GraphEdgeData>, shown: Seq<usize>) -> Seq<Seq<char>>
    decreases shown.len(),
{
    if shown.len() == 0 {
        Seq::empty()
    } else {
        let rest = parentless(nodes, edges, shown.drop_last());
        let id = nodes[shown.last() as int].data.id@;
        if parent_of(edges, id) is None {
            rest.push(id)
        } else {
            rest
        }
    }
}

/// The roots a view starts from: the shown nodes without a parent, or,
/// when every shown node has one, the first shown node.
pub open spec fn view_roots_spec(nodes: Seq<HierarchyNode>, edges: Seq<GraphEdgeData>, shown: Seq<usize>) -> Seq<Seq<char>> {
    let r = parentless(nodes, edges, shown);
    if r.len() == 0 && shown.len() > 0 {
        seq![nodes[shown[0] as int].data.id@]
    } else {
        r
    }
}

/// The roots of the view of the nodes at positions `shown`.
pub fn view_roots(nodes: &Vec<HierarchyNode>, edges: &Vec<GraphEdgeData>, shown: &Vec<usize>) -> (r: Vec<String>)
    requires
        forall|i: int| 0 <= i < shown@.len() ==> #[trigger] shown@[i] < nodes@.len(),
    ensures
        string_views(r@) == view_roots_spec(nodes@, edges@, shown@),
{
    let mut roots: Vec<String> = Vec::new();
    let mut i: usize = 0;
    proof {
        assert(string_views(roots@) =~= Seq::<Seq<char>>::empty());
    }
    while i < shown.len()
        invariant
            i <= shown@.len(),
            forall|j: int| 0 <= j < shown@.len() ==> #[trigger] shown@[j] < nodes@.len(),
            string_views(roots@) == parentless(nodes@, edges@, shown@.take(i as int)),
        decreases shown@.len() - i,
    {
        proof {
            assert(shown@.take(i + 1).drop_last() =~= shown@.take(i as int));
            assert(shown@.take(i + 1).last() == shown@[i as int]);
        }
        let node = &nodes[shown[i]];
        if parent_lookup(edges, &node.data.id).is_none() {
            let ghost pre = roots@;
            roots.push(node.data.id.clone());
            proof {
                assert(string_views(roots@) =~= string_views(pre).push(node.data.id@));
            }
        }
        i = i + 1;
    }
    proof {
        assert(shown@.take(shown@.len() as int) =~= shown@);
    }
    if roots.len() == 0 && shown.len() > 0 {
        let mut first: Vec<String> = Vec::new();
        first.push(nodes[shown[0]].data.id.clone());
        proof {
            assert(string_views(first@) =~= seq![nodes@[shown@[0] as int].data.id@]);
        }
        first
    } else {
        roots
    }
}

/// The main topics of a view: the children of its first root, then its
/// other roots.
pub fn main_topics(edges: &Vec<GraphEdgeData>, roots: &Vec<String>) -> (r: Vec<String>)
    ensures
        string_views(r@) == (if roots@.len() == 0 {
            Seq::<Seq<char>>::empty()
        } else {
            children_of(edges@, roots@[0]@) + string_views(roots@).skip(1)
        }),
{
    if roots.len() == 0 {
        let r: Vec<String> = Vec::new();
        proof {
            assert(string_views(r@) =~= Seq::<Seq<char>>::empty());
        }
        return r;
    }
    let mut r = children_list(&roots[0], edges);
    let ghost start = string_views(r@);
    let mut i: usize = 1;
    while i < roots.len()
        invariant
            1 <= i <= roots@.len(),
            string_views(r@) == start + string_views(roots@).skip(1).take(i - 1),
        decreases roots@.len() - i,
    {
        let ghost pre = r@;
        r.push(roots[i].clone());
        proof {
            assert(string_views(roots@).skip(1).take(i as int) =~= string_views(roots@).skip(1).take(i - 1).push(
                roots@[i as int]@,
            ));
            assert(string_views(r@) =~= string_views(pre).push(roots@[i as int]@));
        }
        i = i + 1;
    }
    proof {
        assert(string_views(roots@).skip(1).take(roots@.len() - 1) =~= string_views(roots@).skip(1));
    }
    r
}

/// The elements of `s` at the positions of parity `parity` (0 for even,
/// 1 for odd), in order.
pub open spec fn every_other(s: Seq<Seq<char>>, parity: int) -> Seq<Seq<char>>
    decreases s.len(),
{
    if s.len() == 0 {
        s
    } else if (s.len() - 1) % 2 == parity {
        every_other(s.drop_last(), parity).push(s.last())
    } else {
        every_other(s.drop_last(), parity)
    }
}

/// Deals the main topics out to the two sides, right first, so that the
/// sides stay even by count: the first, third, ... go right, the second,
/// fourth, ... left.
pub fn split_sides(topics: &Vec<String>) -> (r: (Vec<String>, Vec<String>))
    ensures
        string_views(r.0@) == every_other(string_views(topics@), 0),
        string_views(r.1@) == every_other(string_views(topics@), 1),
{
    let mut right: Vec<String> = Vec::new();
    let mut left: Vec<String> = Vec::new();
    let mut i: usize = 0;
    proof {
        assert(string_views(right@) =~= Seq::<Seq<char>>::empty());
        assert(string_views(left@) =~= Seq::<Seq<char>>::empty());
    }
    while i < topics.len()
        invariant
            i <= topics@.len(),
            string_views(right@) == every_other(string_views(topics@).take(i as int), 0),
            string_views(left@) == every_other(string_views(topics@).take(i as int), 1),
            right@.len() == (i + 1) / 2,
            left@.len() == i / 2,
        decreases topics@.len() - i,
    {
        let ghost t = string_views(topics@);
        proof {
            assert(t.take(i + 1).drop_last() =~= t.take(i as int));
            assert(t.take(i + 1).last() == topics@[i as int]@);
        }
        if right.len() <= left.len() {
            let ghost pre = right@;
            right.push(topics[i].clone());
            proof {
                assert(i % 2 == 0);
                assert(string_views(right@) =~= string_views(pre).push(topics@[i as int]@));
            }
        } else {
            let ghost pre = left@;
            left.push(topics[i].clone());
            proof {
                assert(i % 2 == 1);
                assert(string_views(left@) =~= string_views(pre).push(topics@[i as int]@));
            }
        }
        i = i + 1;
    }
    proof {
        assert(string_views(topics@).take(topics@.len() as int) =~= string_views(topics@));
    }
    (right, left)
}

pub open spec fn opt_view(o: Option<String>) -> Option<Seq<char>> {
    match o {
        Some(s) => Some(s@),
        None => None,
    }
}

/// The first edge into `id`, if there is one.
pub open spec fn first_into(edges: Seq<GraphEdgeData>, id: Seq<char>) -> Option<GraphEdgeData>
    decreases edges.len(),
{
    if edges.len() == 0 {
        None
    } else {
        match first_into(edges.drop_last(), id) {
            Some(e) => Some(e),
            None => if edges.last().to@ == id {
                Some(edges.last())
            } else {
                None
            },
        }
    }
}

/// The colour of a main topic's branch: its own colour, else the colour of
/// the first edge into it.
pub open spec fn branch_color_spec(id: Seq<char>, node_color: Option<String>, edges: Seq<GraphEdgeData>) -> Option<Seq<char>> {
    match node_color {
        Some(c) => Some(c@),
        None => match first_into(edges, id) {
            Some(e) => opt_view(e.color),
            None => None,
        },
    }
}

/// The colour of the branch a main topic starts: its own colour, else that
/// of the first edge into it, else none.
pub fn branch_color_of(node_id: &str, node_color: &Option<String>, edges: &Vec<GraphEdgeData>) -> (r: Option<String>)
    ensures
        opt_view(r) == branch_color_spec(node_id@, *node_color, edges@),
{
    match node_color {
        Some(c) => return Some(c.clone()),
        None => {},
    }
    let id = node_id.to_owned();
    let mut i: usize = 0;
    while i < edges.len()
        invariant
            i <= edges@.len(),
            id@ == node_id@,
            node_color is None,
            first_into(edges@.take(i as int), id@) is None,
        decreases edges@.len() - i,
    {
        proof {
            assert(edges@.take(i + 1).drop_last() =~= edges@.take(i as int));
            assert(edges@.take(i + 1).last() == edges@[i as int]);
        }
        if edges[i].to == id {
            proof {
                assert(first_into(edges@.take(i + 1), id@) == Some(edges@[i as int]));
                lemma_first_into_prefix(edges@, id@, i + 1);
            }
            return clone_opt(&edges[i].color);
        }
        i = i + 1;
    }
    proof {
        assert(edges@.take(edges@.len() as int) =~= edges@);
    }
    None
}

proof fn lemma_first_into_prefix(edges: Seq<GraphEdgeData>, id: Seq<char>, i: int)
    requires
        0 <= i <= edges.len(),
        first_into(edges.take(i), id) is Some,
    ensures
        first_into(edges, id) == first_into(edges.take(i), id),
    decreases edges.len() - i,
{
    if i < edges.len() {
        assert(edges.take(i + 1).drop_last() =~= edges.take(i));
        lemma_first_into_prefix(edges, id, i + 1);
    } else {
        assert(edges.take(i) =~= edges);
    }
}

/// `o`'s text, or `fallback` when it has none.
pub open spec fn or_text(o: Option<String>, fallback: Seq<char>) -> Option<Seq<char>> {
    match o {
        Some(s) => Some(s@),
        None => Some(fallback),
    }
}

/// How a node of the given depth is painted: its accent colour, border and
/// background. The core (depth 0) is bare; a main topic takes its branch
/// colour; a sub-topic takes the branch colour brightened for its level
/// (`level_color`), plain sub-topics keeping the branch colour as accent;
/// deeper topics are transparent unless given a background.
pub open spec fn paint_spec(
    depth: usize,
    shape: NodeShape,
    node_color: Option<String>,
    node_border: Option<String>,
    node_background: Option<String>,
    base_color: Option<String>,
    level_color: Option<String>,
) -> (Option<Seq<char>>, Option<Seq<char>>, Option<Seq<char>>) {
    if depth == 0 {
        (opt_view(node_color), Some("none"@), Some("transparent"@))
    } else if depth == 1 {
        (
            opt_view(base_color),
            or_text(node_border, "none"@),
            match node_background {
                Some(b) => Some(b@),
                None => opt_view(base_color),
            },
        )
    } else if depth == 2 {
        (
            if shape == NodeShape::Plain {
                opt_view(base_color)
            } else {
                opt_view(level_color)
            },
            or_text(node_border, "none"@),
            match node_background {
                Some(b) => if b@ != "transparent"@ {
                    Some(b@)
                } else {
                    opt_view(level_color)
                },
                None => opt_view(level_color),
            },
        )
    } else {
        (opt_view(base_color), or_text(node_border, "none"@), or_text(node_background, "transparent"@))
    }
}

fn text_or(o: &Option<String>, fallback: &str) -> (r: Option<String>)
    ensures
        opt_view(r) == or_text(*o, fallback@),
{
    match o {
        Some(s) => Some(s.clone()),
        None => Some(fallback.to_owned()),
    }
}

/// The accent colour, border and background a node is drawn with.
pub fn node_paint(
    depth: usize,
    shape: NodeShape,
    node_color: &Option<String>,
    node_border: &Option<String>,
    node_background: &Option<String>,
    base_color: &Option<String>,
    level_color: &Option<String>,
) -> (r: (Option<String>, Option<String>, Option<String>))
    ensures
        (opt_view(r.0), opt_view(r.1), opt_view(r.2)) == paint_spec(
            depth,
            shape,
            *node_color,
            *node_border,
            *node_background,
            *base_color,
            *level_color,
        ),
{
    if depth == 0 {
        (clone_opt(node_color), Some("none".to_owned()), Some("transparent".to_owned()))
    } else if depth == 1 {
        let background = match node_background {
            Some(b) => Some(b.clone()),
            None => clone_opt(base_color),
        };
        (clone_opt(base_color), text_or(node_border, "none"), background)
    } else if depth == 2 {
        let accent = if shape == NodeShape::Plain {
            clone_opt(base_color)
        } else {
            clone_opt(level_color)
        };
        let transparent = "transparent".to_owned();
        let background = match node_background {
            Some(b) => if *b != transparent {
                Some(b.clone())
            } else {
                clone_opt(level_color)
            },
            None => clone_opt(level_color),
        };
        (accent, text_or(node_border, "none"), background)
    } else {
        (clone_opt(base_color), text_or(node_border, "none"), text_or(node_background, "transparent"))
    }
}

/// The label of a node's collapse button: how many topics the fold hides,
/// or `-` while it is open.
pub fn collapse_label(is_collapsed: bool, hidden_count: usize) -> (s: String)
    ensures
        s@ == (if is_collapsed {
            decimal(hidden_count as nat)
        } else {
            "-"@
        }),
{
    if is_collapsed {
        let mut digits: Vec<char> = Vec::new();
        digits_into(hidden_count as u64, &mut digits);
        proof {
            assert(digits@ =~= decimal(hidden_count as nat));
        }
        string_of(&digits)
    } else {
        "-".to_owned()
    }
}

/// Folds a node, or unfolds it when it is folded: the first copy of `id`
/// leaves the list, or `id` joins it at the end.
pub fn toggle_collapsed(items: &mut Vec<String>, id: &String)
    ensures
        seq_has_string(old(items)@, id@) ==> exists|j: int|
            0 <= j < old(items)@.len() && old(items)@[j]@ == id@ && (forall|k: int|
                0 <= k < j ==> #[trigger] old(items)@[k]@ != id@) && final(items)@ == old(items)@.remove(j),
        !seq_has_string(old(items)@, id@) ==> final(items)@ == old(items)@.push(*id),
{
    let mut i: usize = 0;
    while i < items.len()
        invariant
            i <= items@.len(),
            items@ == old(items)@,
            forall|k: int| 0 <= k < i ==> #[trigger] items@[k]@ != id@,
        decreases items@.len() - i,
    {
        if items[i] == *id {
            items.remove(i);
            return;
        }
        i = i + 1;
    }
    items.push(id.clone());
}

} // verus!
