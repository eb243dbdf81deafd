//! What holds of distances and of the store's answers, whatever the network.

use crate::dispatch::{is_dispatch_choice, is_first_minimum, TowTruck, MAX_DISPATCH_DISTANCE};
use crate::graph::{answer, cache_after, cache_current, tables_anchored};
use crate::paths::{
    distance, has_arc, is_walk, lemma_arc_filed, lemma_arc_keeps_well_formed, lemma_arc_kept,
    lemma_distance_facts, lemma_distance_to_self, lemma_table_lookup, lemma_walk_extend,
    lemma_walk_kept, reaches, reversed, sentinel, walk_cost, well_formed, with_arc, with_edge,
    Adjacency, Edge,
};
use vstd::prelude::*;

verus! {

/// Every node is at distance 0 from itself.
pub proof fn law_distance_to_self(adj: Adjacency, s: i32)
    requires
        well_formed(adj),
    ensures
        distance(adj, s, s) == 0,
{
    lemma_distance_to_self(adj, s);
}

/// A store answers 0 for the distance of a node from itself, cached or not,
/// as long as every cached table has its own source at 0: which holds of
/// every table that the store computed, also after road segments were added.
pub proof fn law_answer_to_self(adj: Adjacency, cache: Map<i32, Map<i32, i32>>, s: i32)
    requires
        well_formed(adj),
        tables_anchored(cache),
    ensures
        answer(adj, cache, s, s) == 0,
        tables_anchored(cache_after(adj, cache, s)),
{
    lemma_distance_to_self(adj, s);
}

/// Once a road segment of non-negative weight was added, a store without
/// stale tables answers at most the segment's weight for the distance
/// between its two ends, in either direction.
pub proof fn law_added_edge_bounds_answer(adj: Adjacency, cache: Map<i32, Map<i32, i32>>, e: Edge)
    requires
        well_formed(adj),
        e.weight >= 0,
        cache_current(with_edge(adj, e), cache),
    ensures
        answer(with_edge(adj, e), cache, e.node_a_id, e.node_b_id) <= e.weight,
        answer(with_edge(adj, e), cache, e.node_b_id, e.node_a_id) <= e.weight,
{
    law_edge_bounds_distance(adj, e);
    law_answer_is_distance(with_edge(adj, e), cache, e.node_a_id, e.node_b_id);
    law_answer_is_distance(with_edge(adj, e), cache, e.node_b_id, e.node_a_id);
}

/// A store whose cache is current answers with the network distance.
pub proof fn law_answer_is_distance(
    adj: Adjacency,
    cache: Map<i32, Map<i32, i32>>,
    s: i32,
    t: i32,
)
    requires
        well_formed(adj),
        cache_current(adj, cache),
    ensures
        answer(adj, cache, s, t) == distance(adj, s, t),
        cache_current(adj, cache_after(adj, cache, s)),
{
    lemma_table_lookup(adj, s, t);
}

/// The distance along an arc of the network is at most the arc's weight.
pub proof fn law_arc_bounds_distance(adj: Adjacency, e: Edge)
    requires
        well_formed(adj),
        has_arc(adj, e),
    ensures
        distance(adj, e.node_a_id, e.node_b_id) <= e.weight,
{
    let a = e.node_a_id;
    let b = e.node_b_id;
    let empty = Seq::<Edge>::empty();
    assert(is_walk(adj, a, a, empty) && walk_cost(empty) == 0);
    lemma_walk_extend(adj, a, empty, e);
    lemma_distance_facts(adj, a, b);
    if e.weight < sentinel() {
        assert(is_walk(adj, a, b, empty.push(e)) && walk_cost(empty.push(e)) < sentinel());
        assert(reaches(adj, a, b));
    }
}

/// Once a road segment of non-negative weight was added, the distance
/// between its two ends is at most its weight, in either direction.
pub proof fn law_edge_bounds_distance(adj: Adjacency, e: Edge)
    requires
        well_formed(adj),
        e.weight >= 0,
    ensures
        distance(with_edge(adj, e), e.node_a_id, e.node_b_id) <= e.weight,
        distance(with_edge(adj, e), e.node_b_id, e.node_a_id) <= e.weight,
        well_formed(with_edge(adj, e)),
{
    let mid = with_arc(adj, e);
    lemma_arc_keeps_well_formed(adj, e);
    lemma_arc_keeps_well_formed(mid, reversed(e));
    lemma_arc_filed(adj, e);
    lemma_arc_kept(mid, reversed(e), e);
    lemma_arc_filed(mid, reversed(e));
    law_arc_bounds_distance(with_edge(adj, e), e);
    law_arc_bounds_distance(with_edge(adj, e), reversed(e));
}

/// A road segment that was added stays one, whatever is added after it, and
/// so does the bound that it puts on the distance between its ends.
pub proof fn law_edge_bound_persists(adj: Adjacency, e: Edge, later: Edge)
    requires
        well_formed(adj),
        has_arc(adj, e),
        later.weight >= 0,
    ensures
        has_arc(with_edge(adj, later), e),
        distance(with_edge(adj, later), e.node_a_id, e.node_b_id) <= e.weight,
{
    let mid = with_arc(adj, later);
    lemma_arc_keeps_well_formed(adj, later);
    lemma_arc_keeps_well_formed(mid, reversed(later));
    lemma_arc_kept(adj, later, e);
    lemma_arc_kept(mid, reversed(later), e);
    law_arc_bounds_distance(with_edge(adj, later), e);
}

/// Asking twice gives the same answer: after the first query the source has
/// a cached table, the second query is answered from it, and it leaves the
/// cache as the first one left it.
pub proof fn law_repeated_query(adj: Adjacency, cache: Map<i32, Map<i32, i32>>, s: i32, t: i32)
    requires
        well_formed(adj),
    ensures
        cache_after(adj, cache, s).contains_key(s),
        answer(adj, cache_after(adj, cache, s), s, t) == answer(adj, cache, s, t),
        cache_after(adj, cache_after(adj, cache, s), s) == cache_after(adj, cache, s),
{
    lemma_table_lookup(adj, s, t);
}

/// Adding a road segment of non-negative weight lengthens no distance: what
/// is computed on the larger network is at most what was computed before.
pub proof fn law_edge_never_lengthens(adj: Adjacency, e: Edge, s: i32, t: i32)
    requires
        well_formed(adj),
        e.weight >= 0,
    ensures
        distance(with_edge(adj, e), s, t) <= distance(adj, s, t),
{
    let mid = with_arc(adj, e);
    let more = with_edge(adj, e);
    lemma_arc_keeps_well_formed(adj, e);
    lemma_arc_keeps_well_formed(mid, reversed(e));
    lemma_distance_facts(adj, s, t);
    lemma_distance_facts(more, s, t);
    if reaches(adj, s, t) {
        let d = distance(adj, s, t);
        let p = choose|p: Seq<Edge>| is_walk(adj, s, t, p) && walk_cost(p) == d;
        lemma_walk_kept(adj, e, s, t, p);
        lemma_walk_kept(mid, reversed(e), s, t, p);
        assert(reaches(more, s, t));
    }
}

/// A source that has no cached table is answered from the network as it
/// stands: after a road segment was added, with at most the distance that
/// held before.
pub proof fn law_fresh_source_sees_new_edge(
    adj: Adjacency,
    cache: Map<i32, Map<i32, i32>>,
    e: Edge,
    s: i32,
    t: i32,
)
    requires
        well_formed(adj),
        e.weight >= 0,
        !cache.contains_key(s),
    ensures
        answer(with_edge(adj, e), cache, s, t) == distance(with_edge(adj, e), s, t),
        answer(with_edge(adj, e), cache, s, t) <= distance(adj, s, t),
{
    law_edge_never_lengthens(adj, e, s, t);
}

/// Among candidates there is at most one first minimum.
pub proof fn law_first_minimum_unique(c: Seq<(i32, usize)>, a: int, b: int)
    requires
        is_first_minimum(c, a),
        is_first_minimum(c, b),
    ensures
        a == b,
{
    if a < b {
        assert(c[b].0 < c[a].0);
        assert(c[a].0 <= c[b].0);
    } else if b < a {
        assert(c[a].0 < c[b].0);
        assert(c[b].0 <= c[a].0);
    }
}

/// At most one unit is the one to send: the rule leaves no choice open.
pub proof fn law_dispatch_choice_unique(
    adj: Adjacency,
    from: i32,
    trucks: Seq<TowTruck>,
    i: int,
    j: int,
)
    requires
        is_dispatch_choice(adj, from, trucks, i),
        is_dispatch_choice(adj, from, trucks, j),
    ensures
        i == j,
{
    let di = distance(adj, from, trucks[i].node_id);
    let dj = distance(adj, from, trucks[j].node_id);
    if i < j {
        assert(dj < di);
        assert(di <= dj);
    } else if j < i {
        assert(di < dj);
        assert(dj <= di);
    }
}

/// A unit that is sent is reached, and lies within the dispatch distance;
/// no reached unit is nearer.
pub proof fn law_dispatch_choice_is_nearest(
    adj: Adjacency,
    from: i32,
    trucks: Seq<TowTruck>,
    i: int,
    j: int,
)
    requires
        is_dispatch_choice(adj, from, trucks, i),
        0 <= j < trucks.len(),
    ensures
        distance(adj, from, trucks[i].node_id) <= MAX_DISPATCH_DISTANCE,
        distance(adj, from, trucks[i].node_id) <= distance(adj, from, trucks[j].node_id),
{
    let dj = distance(adj, from, trucks[j].node_id);
    if !reaches(adj, from, trucks[j].node_id) {
        assert(dj == sentinel());
    }
}

} // verus!
