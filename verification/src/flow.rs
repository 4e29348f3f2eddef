//! The columns of a flow graph: every node starts at level 0, and rounds
//! of relaxation along the edges push each target one level past its
//! source (longest paths in a DAG), for at most as many rounds as there are
//! nodes.
use vstd::prelude::*;
use crate::graph::{string_views, GraphEdgeData};

verus! {

broadcast use vstd::seq_lib::group_seq_properties;

/// Levels as a list of (id, level) pairs.
pub type Levels = Seq<(Seq<char>, nat)>;

/// The last position of `id` in `ls`, if it is there.
pub open spec fn key_index(ls: Levels, id: Seq<char>) -> Option<int>
    decreases ls.len(),
{
    if ls.len() == 0 {
        None
    } else if ls.last().0 == id {
        Some(ls.len() - 1)
    } else {
        key_index(ls.drop_last(), id)
    }
}

/// The level of `id` (0 when it has none yet).
pub open spec fn level_of(ls: Levels, id: Seq<char>) -> nat {
    match key_index(ls, id) {
        Some(i) => ls[i].1,
        None => 0,
    }
}

/// `ls` with the level of `id` set to `v` (added at the end when new).
pub open spec fn set_level(ls: Levels, id: Seq<char>, v: nat) -> Levels {
    match key_index(ls, id) {
        Some(i) => ls.update(i, (id, v)),
        None => ls.push((id, v)),
    }
}

/// One edge relaxed: its target goes one level past its source when it is
/// not already past it; and whether that changed anything.
pub open spec fn relax_edge(ls: Levels, e: GraphEdgeData) -> (Levels, bool) {
    let f = level_of(ls, e.from@);
    let t = level_of(ls, e.to@);
    if t <= f {
        (set_level(ls, e.to@, f + 1), true)
    } else {
        (ls, false)
    }
}

/// One round: every edge relaxed in order; and whether any changed.
pub open spec fn relax_round(ls: Levels, edges: Seq<GraphEdgeData>) -> (Levels, bool)
    decreases edges.len(),
{
    if edges.len() == 0 {
        (ls, false)
    } else {
        let (l1, c1) = relax_round(ls, edges.drop_last());
        let (l2, c2) = relax_edge(l1, edges.last());
        (l2, c1 || c2)
    }
}

/// Up to `k` rounds, stopping after the first round that changes nothing.
pub open spec fn relax_rounds(ls: Levels, edges: Seq<GraphEdgeData>, k: nat) -> Levels
    decreases k,
{
    if k == 0 {
        ls
    } else {
        let (l1, changed) = relax_round(ls, edges);
        if changed {
            relax_rounds(l1, edges, (k - 1) as nat)
        } else {
            l1
        }
    }
}

/// Every node at level 0.
pub open spec fn start_levels(ids: Seq<Seq<char>>) -> Levels
    decreases ids.len(),
{
    if ids.len() == 0 {
        Seq::empty()
    } else {
        set_level(start_levels(ids.drop_last()), ids.last(), 0)
    }
}

/// The levels once relaxation is done: as many rounds as there are nodes.
pub open spec fn flow_levels_spec(ids: Seq<Seq<char>>, edges: Seq<GraphEdgeData>) -> Levels {
    relax_rounds(start_levels(ids), edges, ids.len())
}

/// The largest level in `ls` (0 for none).
pub open spec fn max_level(ls: Levels) -> nat
    decreases ls.len(),
{
    if ls.len() == 0 {
        0
    } else {
        let m = max_level(ls.drop_last());
        if ls.last().1 > m {
            ls.last().1
        } else {
            m
        }
    }
}

pub open spec fn level_views(ls: Seq<(String, usize)>) -> Levels {
    ls.map_values(|p: (String, usize)| (p.0@, p.1 as nat))
}

proof fn lemma_key_index(ls: Levels, id: Seq<char>)
    ensures
        key_index(ls, id) matches Some(i) ==> 0 <= i < ls.len() && ls[i].0 == id,
        key_index(ls, id) is None ==> forall|i: int| 0 <= i < ls.len() ==> #[trigger] ls[i].0 != id,
    decreases ls.len(),
{
    if ls.len() > 0 {
        lemma_key_index(ls.drop_last(), id);
        if ls.last().0 != id {
            assert forall|i: int| 0 <= i < ls.len() - 1 implies #[trigger] ls[i] == ls.drop_last()[i] by {}
        }
    }
}

proof fn lemma_max_bounds(ls: Levels, i: int)
    requires
        0 <= i < ls.len(),
    ensures
        ls[i].1 <= max_level(ls),
    decreases ls.len(),
{
    if i < ls.len() - 1 {
        lemma_max_bounds(ls.drop_last(), i);
    }
}

proof fn lemma_max_of_update(ls: Levels, i: int, p: (Seq<char>, nat), b: nat)
    requires
        0 <= i < ls.len(),
        max_level(ls) <= b,
        p.1 <= b,
    ensures
        max_level(ls.update(i, p)) <= b,
    decreases ls.len(),
{
    if i < ls.len() - 1 {
        assert(ls.update(i, p).drop_last() =~= ls.drop_last().update(i, p));
        lemma_max_of_update(ls.drop_last(), i, p, b);
    } else {
        assert(ls.update(i, p).drop_last() =~= ls.drop_last());
    }
}

proof fn lemma_level_bound(ls: Levels, id: Seq<char>)
    ensures
        level_of(ls, id) <= max_level(ls),
{
    lemma_key_index(ls, id);
    if let Some(i) = key_index(ls, id) {
        lemma_max_bounds(ls, i);
    }
}

proof fn lemma_set_bound(ls: Levels, id: Seq<char>, v: nat, b: nat)
    requires
        max_level(ls) <= b,
        v <= b,
    ensures
        max_level(set_level(ls, id, v)) <= b,
{
    lemma_key_index(ls, id);
    if let Some(i) = key_index(ls, id) {
        lemma_max_of_update(ls, i, (id, v), b);
    } else {
        assert(ls.push((id, v)).drop_last() =~= ls);
    }
}

fn find_key(ls: &Vec<(String, usize)>, id: &String) -> (r: Option<usize>)
    ensures
        match r {
            Some(i) => key_index(level_views(ls@), id@) == Some(i as int),
            None => key_index(level_views(ls@), id@) is None,
        },
{
    let mut found: Option<usize> = None;
    let mut i: usize = 0;
    while i < ls.len()
        invariant
            i <= ls@.len(),
            match found {
                Some(k) => key_index(level_views(ls@).take(i as int), id@) == Some(k as int),
                None => key_index(level_views(ls@).take(i as int), id@) is None,
            },
        decreases ls@.len() - i,
    {
        proof {
            let v = level_views(ls@);
            assert(v.take(i + 1).drop_last() =~= v.take(i as int));
            assert(v.take(i + 1).last() == v[i as int]);
        }
        if ls[i].0 == *id {
            found = Some(i);
        }
        i = i + 1;
    }
    proof {
        assert(level_views(ls@).take(ls@.len() as int) =~= level_views(ls@));
    }
    found
}

fn get_level(ls: &Vec<(String, usize)>, id: &String) -> (r: usize)
    ensures
        r == level_of(level_views(ls@), id@),
{
    proof {
        lemma_key_index(level_views(ls@), id@);
    }
    match find_key(ls, id) {
        Some(i) => {
            assert(level_views(ls@)[i as int].1 == ls@[i as int].1 as nat);
            ls[i].1
        },
        None => 0,
    }
}

fn put_level(ls: &mut Vec<(String, usize)>, id: &String, v: usize)
    ensures
        level_views(final(ls)@) == set_level(level_views(old(ls)@), id@, v as nat),
{
    let ghost before = level_views(ls@);
    match find_key(ls, id) {
        Some(i) => {
            proof {
                lemma_key_index(before, id@);
            }
            ls.set(i, (id.clone(), v));
            proof {
                assert(level_views(ls@) =~= before.update(i as int, (id@, v as nat)));
            }
        },
        None => {
            ls.push((id.clone(), v));
            proof {
                assert(level_views(ls@) =~= before.push((id@, v as nat)));
            }
        },
    }
}

fn relax_once(ls: &mut Vec<(String, usize)>, edges: &Vec<GraphEdgeData>) -> (changed: bool)
    requires
        max_level(level_views(old(ls)@)) + edges@.len() <= usize::MAX,
    ensures
        (level_views(final(ls)@), changed) == relax_round(level_views(old(ls)@), edges@),
        max_level(level_views(final(ls)@)) <= max_level(level_views(old(ls)@)) + edges@.len(),
{
    let ghost start = level_views(ls@);
    let mut changed = false;
    let mut i: usize = 0;
    while i < edges.len()
        invariant
            i <= edges@.len(),
            max_level(start) + edges@.len() <= usize::MAX,
            (level_views(ls@), changed) == relax_round(start, edges@.take(i as int)),
            max_level(level_views(ls@)) <= max_level(start) + i,
        decreases edges@.len() - i,
    {
        proof {
            assert(edges@.take(i + 1).drop_last() =~= edges@.take(i as int));
            assert(edges@.take(i + 1).last() == edges@[i as int]);
        }
        let ghost cur = level_views(ls@);
        let f = get_level(ls, &edges[i].from);
        let t = get_level(ls, &edges[i].to);
        if t <= f {
            proof {
                lemma_level_bound(cur, edges@[i as int].from@);
                lemma_set_bound(cur, edges@[i as int].to@, (f + 1) as nat, (max_level(start) + i + 1) as nat);
            }
            put_level(ls, &edges[i].to, f + 1);
            changed = true;
        }
        i = i + 1;
    }
    proof {
        assert(edges@.take(edges@.len() as int) =~= edges@);
    }
    changed
}

/// The level of every node of a flow graph (in the order of `node_ids`),
/// and the largest level reached by any id, edge ends that are no node
/// included.
pub fn flow_levels(node_ids: &Vec<String>, edges: &Vec<GraphEdgeData>) -> (r: (Vec<usize>, usize))
    requires
        node_ids@.len() * edges@.len() <= usize::MAX,
    ensures
        r.0@.len() == node_ids@.len(),
        forall|i: int| 0 <= i < node_ids@.len() ==> #[trigger] r.0@[i] == level_of(
            flow_levels_spec(string_views(node_ids@), edges@),
            node_ids@[i]@,
        ),
        r.1 == max_level(flow_levels_spec(string_views(node_ids@), edges@)),
{
    let ghost ids = string_views(node_ids@);
    let mut ls: Vec<(String, usize)> = Vec::new();
    let mut i: usize = 0;
    proof {
        assert(level_views(ls@) =~= start_levels(ids.take(0)));
    }
    while i < node_ids.len()
        invariant
            i <= node_ids@.len(),
            ids == string_views(node_ids@),
            level_views(ls@) == start_levels(ids.take(i as int)),
            max_level(level_views(ls@)) == 0,
        decreases node_ids@.len() - i,
    {
        proof {
            assert(ids.take(i + 1).drop_last() =~= ids.take(i as int));
            assert(ids.take(i + 1).last() == node_ids@[i as int]@);
            lemma_set_bound(level_views(ls@), node_ids@[i as int]@, 0, 0);
        }
        put_level(&mut ls, &node_ids[i], 0);
        i = i + 1;
    }
    proof {
        assert(ids.take(node_ids@.len() as int) =~= ids);
    }
    let ghost start = level_views(ls@);
    let n = node_ids.len();
    let mut round: usize = 0;
    let mut settled = false;
    while round < n && !settled
        invariant
            round <= n,
            n == node_ids@.len(),
            n * edges@.len() <= usize::MAX,
            !settled ==> relax_rounds(level_views(ls@), edges@, (n - round) as nat) == relax_rounds(
                start,
                edges@,
                n as nat,
            ),
            settled ==> level_views(ls@) == relax_rounds(start, edges@, n as nat),
            max_level(level_views(ls@)) <= round * edges@.len(),
        decreases n - round,
    {
        proof {
            assert((round + 1) * edges@.len() <= n * edges@.len()) by (nonlinear_arith)
                requires
                    round + 1 <= n,
            ;
            assert((round + 1) * edges@.len() == round * edges@.len() + edges@.len()) by (nonlinear_arith);
        }
        let ghost before = level_views(ls@);
        let changed = relax_once(&mut ls, edges);
        if !changed {
            settled = true;
        }
        round = round + 1;
    }
    let ghost done = level_views(ls@);
    proof {
        if !settled {
            assert(round == n);
            assert(relax_rounds(done, edges@, 0) == done);
        }
        assert(done == flow_levels_spec(ids, edges@));
    }
    let mut levels: Vec<usize> = Vec::new();
    let mut k: usize = 0;
    while k < node_ids.len()
        invariant
            k <= node_ids@.len(),
            done == level_views(ls@),
            levels@.len() == k,
            forall|j: int| 0 <= j < k ==> #[trigger] levels@[j] == level_of(done, node_ids@[j]@),
        decreases node_ids@.len() - k,
    {
        let v = get_level(&ls, &node_ids[k]);
        levels.push(v);
        k = k + 1;
    }
    let mut top: usize = 0;
    let mut j: usize = 0;
    while j < ls.len()
        invariant
            j <= ls@.len(),
            done == level_views(ls@),
            top == max_level(done.take(j as int)),
        decreases ls@.len() - j,
    {
        proof {
            assert(done.take(j + 1).drop_last() =~= done.take(j as int));
            assert(done.take(j + 1).last() == done[j as int]);
        }
        if ls[j].1 > top {
            top = ls[j].1;
        }
        j = j + 1;
    }
    proof {
        assert(done.take(ls@.len() as int) =~= done);
    }
    (levels, top)
}

/// How many of the first `n` levels equal `lv`.
pub open spec fn count_at(levels: Seq<usize>, lv: usize, n: int) -> nat
    decreases n,
{
    if n <= 0 {
        0
    } else if levels[n - 1] == lv {
        count_at(levels, lv, n - 1) + 1
    } else {
        count_at(levels, lv, n - 1)
    }
}

/// The first position of `id` in `ids` (their length when it is absent).
pub open spec fn first_pos(ids: Seq<Seq<char>>, id: Seq<char>) -> int
    decreases ids.len(),
{
    if ids.len() == 0 {
        0
    } else {
        let r = first_pos(ids.drop_last(), id);
        if r < ids.len() - 1 {
            r
        } else if ids.last() == id {
            ids.len() - 1
        } else {
            ids.len() as int
        }
    }
}

proof fn lemma_count_bound(levels: Seq<usize>, lv: usize, n: int)
    requires
        0 <= n,
    ensures
        count_at(levels, lv, n) <= n,
    decreases n,
{
    if n > 0 {
        lemma_count_bound(levels, lv, n - 1);
    }
}

proof fn lemma_first_pos(ids: Seq<Seq<char>>, id: Seq<char>)
    ensures
        0 <= first_pos(ids, id) <= ids.len(),
        first_pos(ids, id) < ids.len() ==> ids[first_pos(ids, id)] == id,
        forall|k: int| 0 <= k < first_pos(ids, id) ==> #[trigger] ids[k] != id,
    decreases ids.len(),
{
    if ids.len() > 0 {
        lemma_first_pos(ids.drop_last(), id);
        assert forall|k: int| 0 <= k < ids.len() - 1 implies #[trigger] ids[k] == ids.drop_last()[k] by {}
    }
}

fn count_level(levels: &Vec<usize>, lv: usize, n: usize) -> (c: usize)
    requires
        n <= levels@.len(),
    ensures
        c == count_at(levels@, lv, n as int),
{
    let mut c: usize = 0;
    let mut k: usize = 0;
    while k < n
        invariant
            k <= n <= levels@.len(),
            c == count_at(levels@, lv, k as int),
            c <= k,
        decreases n - k,
    {
        if levels[k] == lv {
            c = c + 1;
        }
        k = k + 1;
    }
    c
}

/// Where each node sits in its column: its row (how many nodes of the same
/// level come before the first node with its id) and how many nodes share
/// that level.
pub fn level_slots(node_ids: &Vec<String>, levels: &Vec<usize>) -> (r: Vec<(usize, usize)>)
    requires
        levels@.len() == node_ids@.len(),
    ensures
        r@.len() == node_ids@.len(),
        forall|i: int| 0 <= i < node_ids@.len() ==> #[trigger] r@[i] == (
            count_at(levels@, levels@[i], first_pos(string_views(node_ids@), node_ids@[i]@)) as usize,
            count_at(levels@, levels@[i], levels@.len() as int) as usize,
        ),
{
    let ghost ids = string_views(node_ids@);
    let mut slots: Vec<(usize, usize)> = Vec::new();
    let mut i: usize = 0;
    while i < node_ids.len()
        invariant
            i <= node_ids@.len(),
            levels@.len() == node_ids@.len(),
            ids == string_views(node_ids@),
            slots@.len() == i,
            forall|j: int| 0 <= j < i ==> #[trigger] slots@[j] == (
                count_at(levels@, levels@[j], first_pos(ids, node_ids@[j]@)) as usize,
                count_at(levels@, levels@[j], levels@.len() as int) as usize,
            ),
        decreases node_ids@.len() - i,
    {
        let mut k0: usize = 0;
        while k0 < node_ids.len() && node_ids[k0] != node_ids[i]
            invariant
                k0 <= node_ids@.len(),
                i < node_ids@.len(),
                ids == string_views(node_ids@),
                forall|k: int| 0 <= k < k0 ==> #[trigger] ids[k] != node_ids@[i as int]@,
            decreases node_ids@.len() - k0,
        {
            k0 = k0 + 1;
        }
        proof {
            lemma_first_pos(ids, node_ids@[i as int]@);
            let fp = first_pos(ids, node_ids@[i as int]@);
            assert(ids[i as int] == node_ids@[i as int]@);
            if k0 < fp {
                assert(ids[k0 as int] == node_ids@[i as int]@);
            }
            if fp < k0 {
                assert(ids[fp] != node_ids@[i as int]@);
            }
            assert(k0 == fp);
        }
        let row = count_level(levels, levels[i], k0);
        let size = count_level(levels, levels[i], levels.len());
        slots.push((row, size));
        i = i + 1;
    }
    slots
}

/// A round that reports no change changed nothing, and leaves every edge
/// settled: each target lies past its source. (So when the rounds stop
/// before their limit, the levels are final.)
pub proof fn law_quiet_round_settles(ls: Levels, edges: Seq<GraphEdgeData>)
    ensures
        !relax_round(ls, edges).1 ==> relax_round(ls, edges).0 == ls && forall|i: int|
            0 <= i < edges.len() ==> level_of(ls, #[trigger] edges[i].to@) > level_of(ls, edges[i].from@),
    decreases edges.len(),
{
    if edges.len() > 0 {
        law_quiet_round_settles(ls, edges.drop_last());
        if !relax_round(ls, edges).1 {
            assert forall|i: int| 0 <= i < edges.len() implies level_of(ls, #[trigger] edges[i].to@) > level_of(
                ls,
                edges[i].from@,
            ) by {
                if i < edges.len() - 1 {
                    assert(edges[i] == edges.drop_last()[i]);
                }
            }
        }
    }
}

/// When every edge is already settled, a round changes nothing and says
/// so, and so do any number of rounds.
pub proof fn law_settled_levels_stay(ls: Levels, edges: Seq<GraphEdgeData>, k: nat)
    requires
        forall|i: int| 0 <= i < edges.len() ==> level_of(ls, #[trigger] edges[i].to@) > level_of(ls, edges[i].from@),
    ensures
        relax_round(ls, edges) == (ls, false),
        relax_rounds(ls, edges, k) == ls,
    decreases edges.len(),
{
    if edges.len() > 0 {
        assert forall|i: int| 0 <= i < edges.drop_last().len() implies level_of(ls, #[trigger] edges.drop_last()[i].to@)
            > level_of(ls, edges.drop_last()[i].from@) by {
            assert(edges.drop_last()[i] == edges[i]);
        }
        law_settled_levels_stay(ls, edges.drop_last(), 0);
        assert(level_of(ls, edges[edges.len() - 1].to@) > level_of(ls, edges[edges.len() - 1].from@));
    }
}

} // verus!
