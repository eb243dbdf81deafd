//! Single-source relaxation: a first-in, first-out work queue of nodes whose
//! outgoing arcs may still improve a tentative distance.

use crate::paths::{
    has_arc, is_distance_table, is_least_cost, is_walk, lemma_distance_is_least,
    lemma_walk_extend, reaches, sentinel, walk_cost, walk_of_cost, well_formed, Adjacency, Edge,
};
use std::collections::HashMap;
use std::collections::VecDeque;
use vstd::prelude::*;

verus! {

broadcast use {
    vstd::std_specs::hash::group_hash_axioms,
    vstd::std_specs::vecdeque::group_vec_dequeue_axioms,
};

/// The adjacency that a map of arc lists stands for.
pub open spec fn adjacency_of(m: Map<i32, Vec<Edge>>) -> Adjacency {
    Map::new(|k: i32| m.contains_key(k), |k: i32| m[k]@)
}

/// The tentative distance of a node: its entry, or the sentinel without one.
spec fn tentative(m: Map<i32, i32>, k: i32) -> int {
    if m.contains_key(k) {
        m[k] as int
    } else {
        sentinel()
    }
}

/// One past the largest node id.
spec fn id_limit() -> int {
    i32::MAX + 1
}

/// The sum of the tentative distances of all node ids below `hi`. Every
/// improvement of an entry lowers it, which bounds the work of the relaxation.
spec fn potential(m: Map<i32, i32>, hi: int) -> int
    decreases hi - i32::MIN,
{
    if hi <= i32::MIN {
        0
    } else {
        potential(m, hi - 1) + tentative(m, (hi - 1) as i32)
    }
}

/// Every entry is the cost of some walk from `from` and lies below the
/// sentinel; `from` itself stands at 0.
spec fn table_sound(adj: Adjacency, from: i32, m: Map<i32, i32>) -> bool {
    &&& m.contains_key(from)
    &&& m[from] == 0
    &&& forall|v: i32| #[trigger]
        m.contains_key(v) ==> 0 <= m[v] < sentinel() && walk_of_cost(adj, from, v, m[v] as int)
}

/// The arc cannot improve the entry of the node it leads to.
spec fn arc_relaxed(m: Map<i32, i32>, e: Edge) -> bool {
    m.contains_key(e.node_a_id) && m[e.node_a_id] + e.weight < sentinel() ==> m.contains_key(
        e.node_b_id,
    ) && m[e.node_b_id] <= m[e.node_a_id] + e.weight
}

/// The first `n` arcs that leave `u` are relaxed.
spec fn settled_upto(adj: Adjacency, m: Map<i32, i32>, u: i32, n: int) -> bool {
    adj.contains_key(u) ==> forall|i: int|
        0 <= i < n && i < adj[u].len() ==> arc_relaxed(m, #[trigger] adj[u][i])
}

/// All arcs that leave `u` are relaxed.
spec fn settled(adj: Adjacency, m: Map<i32, i32>, u: i32) -> bool {
    adj.contains_key(u) ==> settled_upto(adj, m, u, adj[u].len() as int)
}

/// Every node with an entry that is not waiting in `queue` is settled, but
/// for `skip`.
spec fn idle_settled(
    adj: Adjacency,
    m: Map<i32, i32>,
    queue: Seq<i32>,
    skip: Option<i32>,
) -> bool {
    forall|u: i32|
        #[trigger] m.contains_key(u) && !queue.contains(u) && skip != Some(u) ==> settled(
            adj,
            m,
            u,
        )
}

/// Every node that is marked as queued waits in `queue`.
spec fn marks_sound(marks: Map<i32, bool>, queue: Seq<i32>) -> bool {
    forall|v: i32| #[trigger] marks.contains_key(v) && marks[v] ==> queue.contains(v)
}

/// Every node that waits in `queue` has an entry.
spec fn queue_sound(m: Map<i32, i32>, queue: Seq<i32>) -> bool {
    forall|i: int| 0 <= i < queue.len() ==> m.contains_key(#[trigger] queue[i])
}

proof fn lemma_potential_nonnegative(m: Map<i32, i32>, hi: int)
    requires
        forall|v: i32| #[trigger] m.contains_key(v) ==> m[v] >= 0,
    ensures
        potential(m, hi) >= 0,
    decreases hi - i32::MIN,
{
    if hi > i32::MIN {
        lemma_potential_nonnegative(m, hi - 1);
    }
}

proof fn lemma_potential_lowered(m: Map<i32, i32>, k: i32, v: i32, hi: int)
    requires
        i32::MIN <= hi <= id_limit(),
    ensures
        potential(m.insert(k, v), hi) == potential(m, hi) - (if k < hi {
            tentative(m, k) - v
        } else {
            0
        }),
    decreases hi - i32::MIN,
{
    if hi > i32::MIN {
        lemma_potential_lowered(m, k, v, hi - 1);
    }
}

/// Lowering the entry of `v` leaves every other node's relaxed arcs relaxed.
proof fn lemma_relaxed_kept(m: Map<i32, i32>, v: i32, d: i32, e: Edge)
    requires
        arc_relaxed(m, e),
        e.node_a_id != v,
        d <= tentative(m, v),
    ensures
        arc_relaxed(m.insert(v, d), e),
{
}

proof fn lemma_settled_kept(adj: Adjacency, m: Map<i32, i32>, v: i32, d: i32, u: i32, n: int)
    requires
        well_formed(adj),
        settled_upto(adj, m, u, n),
        u != v,
        d <= tentative(m, v),
    ensures
        settled_upto(adj, m.insert(v, d), u, n),
{
    if adj.contains_key(u) {
        assert forall|i: int| 0 <= i < n && i < adj[u].len() implies arc_relaxed(
            m.insert(v, d),
            #[trigger] adj[u][i],
        ) by {
            lemma_relaxed_kept(m, v, d, adj[u][i]);
        }
    }
}

/// The state after one arc improved the entry of the node it leads to.
proof fn lemma_improve(
    adj: Adjacency,
    from: i32,
    m: Map<i32, i32>,
    queue: Seq<i32>,
    cur: i32,
    i: int,
    d: i32,
)
    requires
        well_formed(adj),
        table_sound(adj, from, m),
        idle_settled(adj, m, queue, Some(cur)),
        settled_upto(adj, m, cur, i),
        adj.contains_key(cur),
        0 <= i < adj[cur].len(),
        m.contains_key(cur),
        d == m[cur] + adj[cur][i].weight,
        d < tentative(m, adj[cur][i].node_b_id),
    ensures
        table_sound(adj, from, m.insert(adj[cur][i].node_b_id, d)),
        forall|q: Seq<i32>|
            q.contains(adj[cur][i].node_b_id) && (forall|x: i32|
                queue.contains(x) ==> q.contains(x)) ==> #[trigger] idle_settled(
                adj,
                m.insert(adj[cur][i].node_b_id, d),
                q,
                Some(cur),
            ),
        settled_upto(adj, m.insert(adj[cur][i].node_b_id, d), cur, i + 1),
        potential(m.insert(adj[cur][i].node_b_id, d), id_limit()) < potential(m, id_limit()),
{
    let e = adj[cur][i];
    let v = e.node_b_id;
    let m2 = m.insert(v, d);
    assert(e.node_a_id == cur && e.weight >= 0);
    assert(has_arc(adj, e));
    assert(v != cur);
    // The new entry is the cost of a walk.
    let p = choose|p: Seq<Edge>| is_walk(adj, from, cur, p) && walk_cost(p) == m[cur] as int;
    lemma_walk_extend(adj, from, p, e);
    assert(walk_of_cost(adj, from, v, d as int));
    assert(table_sound(adj, from, m2));
    lemma_potential_lowered(m, v, d, id_limit());
    lemma_settled_kept(adj, m, v, d, cur, i);
    assert(arc_relaxed(m2, e));
    assert(settled_upto(adj, m2, cur, i + 1));
    assert forall|q: Seq<i32>|
        q.contains(v) && (forall|x: i32|
            queue.contains(x) ==> q.contains(x)) implies #[trigger] idle_settled(
        adj,
        m2,
        q,
        Some(cur),
    ) by {
        assert forall|u: i32|
            #[trigger] m2.contains_key(u) && !q.contains(u) && Some(cur) != Some(u) implies settled(
            adj,
            m2,
            u,
        ) by {
            assert(u != v);
            assert(m.contains_key(u));
            assert(!queue.contains(u));
            if adj.contains_key(u) {
                lemma_settled_kept(adj, m, v, d, u, adj[u].len() as int);
            }
        }
    }
}

/// Where every node with an entry is settled, no walk below the sentinel
/// undercuts the entry of the node it ends at.
proof fn lemma_settled_bounds_walk(
    adj: Adjacency,
    from: i32,
    m: Map<i32, i32>,
    to: i32,
    p: Seq<Edge>,
)
    requires
        well_formed(adj),
        table_sound(adj, from, m),
        idle_settled(adj, m, Seq::<i32>::empty(), None),
        is_walk(adj, from, to, p),
        walk_cost(p) < sentinel(),
    ensures
        m.contains_key(to),
        m[to] <= walk_cost(p),
    decreases p.len(),
{
    if p.len() > 0 {
        let e = p.last();
        let a = e.node_a_id;
        let i = choose|i: int| 0 <= i < adj[a].len() && adj[a][i] == e;
        assert(adj[a][i].weight >= 0);
        lemma_settled_bounds_walk(adj, from, m, a, p.drop_last());
        assert(m.contains_key(a));
        assert(!Seq::<i32>::empty().contains(a));
        assert(settled(adj, m, a));
        assert(arc_relaxed(m, adj[a][i]));
    }
}

/// A sound table in which every node is settled is the distance table.
proof fn lemma_fixpoint_is_table(adj: Adjacency, from: i32, m: Map<i32, i32>)
    requires
        well_formed(adj),
        table_sound(adj, from, m),
        idle_settled(adj, m, Seq::<i32>::empty(), None),
    ensures
        is_distance_table(adj, from, m),
{
    assert forall|t: i32|
        (#[trigger] m.contains_key(t) <==> reaches(adj, from, t)) && (m.contains_key(t) ==> m[t]
            == crate::paths::distance(adj, from, t)) by {
        if m.contains_key(t) {
            assert forall|p: Seq<Edge>| is_walk(adj, from, t, p) implies m[t] <= walk_cost(p) by {
                if walk_cost(p) < sentinel() {
                    lemma_settled_bounds_walk(adj, from, m, t, p);
                }
            }
            assert(is_least_cost(adj, from, t, m[t] as int));
            lemma_distance_is_least(adj, from, t, m[t] as int);
        }
        if reaches(adj, from, t) {
            let p = choose|p: Seq<Edge>| is_walk(adj, from, t, p) && walk_cost(p) < sentinel();
            lemma_settled_bounds_walk(adj, from, m, t, p);
        }
    }
}

/// Computes the full single-source distance table of `from` over the arcs in
/// `edges`: an entry for every node that `from` reaches, none for any other.
pub fn relax_from(edges: &HashMap<i32, Vec<Edge>>, from: i32) -> (table: HashMap<i32, i32>)
    requires
        well_formed(adjacency_of(edges@)),
    ensures
        is_distance_table(adjacency_of(edges@), from, table@),
{
    let ghost adj = adjacency_of(edges@);
    let mut distances: HashMap<i32, i32> = HashMap::new();
    let mut in_queue: HashMap<i32, bool> = HashMap::new();
    let mut queue: VecDeque<i32> = VecDeque::new();

    distances.insert(from, 0);
    queue.push_back(from);
    in_queue.insert(from, true);

    proof {
        assert(is_walk(adj, from, from, Seq::<Edge>::empty()));
        assert(walk_cost(Seq::<Edge>::empty()) == 0);
        assert(walk_of_cost(adj, from, from, 0));
        assert(queue@[0] == from);
    }

    loop
        invariant
            adj == adjacency_of(edges@),
            well_formed(adj),
            table_sound(adj, from, distances@),
            queue_sound(distances@, queue@),
            marks_sound(in_queue@, queue@),
            idle_settled(adj, distances@, queue@, None),
        ensures
            queue@.len() == 0,
        decreases potential(distances@, id_limit()), queue@.len(),
    {
        let ghost queue_before = queue@;
        let ghost potential_before = potential(distances@, id_limit());
        proof {
            lemma_potential_nonnegative(distances@, id_limit());
        }
        let current_node_id: i32 = match queue.pop_front() {
            Some(c) => c,
            None => {
                break ;
            },
        };
        in_queue.insert(current_node_id, false);
        proof {
            assert(current_node_id == queue_before[0]);
            assert forall|x: i32|
                queue_before.contains(x) && x != current_node_id implies queue@.contains(x) by {
                let j = choose|j: int| 0 <= j < queue_before.len() && queue_before[j] == x;
                assert(queue@[j - 1] == x);
            }
            assert forall|x: i32| queue@.contains(x) implies queue_before.contains(x) by {
                let j = choose|j: int| 0 <= j < queue@.len() && queue@[j] == x;
                assert(queue_before[j + 1] == x);
            }
            assert(queue_sound(distances@, queue@)) by {
                assert forall|j: int| 0 <= j < queue@.len() implies distances@.contains_key(
                    #[trigger] queue@[j],
                ) by {
                    assert(queue@[j] == queue_before[j + 1]);
                }
            }
        }

        match edges.get(&current_node_id) {
            Some(list) => {
                let n: usize = list.len();
                let mut i: usize = 0;
                proof {
                    assert(adj.contains_key(current_node_id));
                    assert(adj[current_node_id] == list@);
                }
                while i < n
                    invariant
                        i <= n,
                        n == list@.len(),
                        adj == adjacency_of(edges@),
                        well_formed(adj),
                        adj.contains_key(current_node_id),
                        adj[current_node_id] == list@,
                        distances@.contains_key(current_node_id),
                        table_sound(adj, from, distances@),
                        queue_sound(distances@, queue@),
                        marks_sound(in_queue@, queue@),
                        idle_settled(adj, distances@, queue@, Some(current_node_id)),
                        settled_upto(adj, distances@, current_node_id, i as int),
                        potential(distances@, id_limit()) <= potential_before,
                        potential(distances@, id_limit()) == potential_before ==> queue@.len() + 1
                            == queue_before.len(),
                    decreases n - i,
                {
                    let edge: Edge = list[i];
                    let ghost m = distances@;
                    let ghost q = queue@;
                    proof {
                        assert(adj[current_node_id][i as int] == edge);
                        assert(edge.weight >= 0 && edge.node_a_id == current_node_id);
                    }
                    let new_distance: i32 = match distances.get(&current_node_id) {
                        Some(d) => match d.checked_add(edge.weight) {
                            Some(sum) => sum,
                            None => i32::MAX,
                        },
                        None => i32::MAX,
                    };
                    let current_distance: i32 = match distances.get(&edge.node_b_id) {
                        Some(d) => *d,
                        None => i32::MAX,
                    };
                    assert(current_distance == tentative(m, edge.node_b_id));
                    if new_distance < current_distance {
                        distances.insert(edge.node_b_id, new_distance);
                        let queued: bool = match in_queue.get(&edge.node_b_id) {
                            Some(b) => *b,
                            None => false,
                        };
                        if !queued {
                            queue.push_back(edge.node_b_id);
                            in_queue.insert(edge.node_b_id, true);
                        }
                        proof {
                            lemma_improve(adj, from, m, q, current_node_id, i as int, new_distance);
                            assert forall|x: i32| q.contains(x) implies queue@.contains(x) by {
                                let j = choose|j: int| 0 <= j < q.len() && q[j] == x;
                                assert(queue@[j] == x);
                            }
                            if !queued {
                                assert(queue@[q.len() as int] == edge.node_b_id);
                            }
                            assert(queue@.contains(edge.node_b_id));
                            assert(idle_settled(adj, distances@, queue@, Some(current_node_id)));
                            assert(queue_sound(distances@, queue@));
                            assert(marks_sound(in_queue@, queue@));
                        }
                    } else {
                        proof {
                            assert(arc_relaxed(m, edge));
                            assert(settled_upto(adj, m, current_node_id, i + 1));
                        }
                    }
                    i += 1;
                }
                proof {
                    assert(settled(adj, distances@, current_node_id));
                }
            },
            None => {
                proof {
                    assert(!adj.contains_key(current_node_id));
                    assert(settled(adj, distances@, current_node_id));
                    assert forall|u: i32|
                        #[trigger] distances@.contains_key(u) && !queue@.contains(
                            u,
                        ) implies settled(
                        adj,
                        distances@,
                        u,
                    ) by {
                        if u != current_node_id {
                            assert(!queue_before.contains(u));
                        }
                    }
                }
            },
        }
        proof {
            assert(idle_settled(adj, distances@, queue@, None));
            lemma_potential_nonnegative(distances@, id_limit());
        }
    }
    proof {
        assert(queue@ =~= Seq::<i32>::empty());
        lemma_fixpoint_is_table(adj, from, distances@);
    }
    distances
}

} // verus!
