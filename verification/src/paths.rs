//! The mathematical model of a road network: arcs, walks, their cost, and the
//! network distance between two nodes.

use vstd::prelude::*;

verus! {

/// A road segment as the store keeps it: one direction of travel, from
/// `node_a_id` to `node_b_id`, at a cost of `weight`.
#[derive(Clone, Copy, Debug, PartialEq, Eq, Structural)]
pub struct Edge {
    pub node_a_id: i32,
    pub node_b_id: i32,
    pub weight: i32,
}

/// The adjacency of a network: for each node, the arcs that leave it, in the
/// order in which they arrived.
pub type Adjacency = Map<i32, Seq<Edge>>;

/// The distance that stands for "no known path".
pub open spec fn sentinel() -> int {
    i32::MAX as int
}

/// `e` is one of the arcs that leave `e.node_a_id`.
pub open spec fn has_arc(adj: Adjacency, e: Edge) -> bool {
    adj.contains_key(e.node_a_id) && adj[e.node_a_id].contains(e)
}

/// Every arc is filed under the node it leaves and has a non-negative weight.
pub open spec fn well_formed(adj: Adjacency) -> bool {
    forall|k: i32, i: int|
        adj.contains_key(k) && 0 <= i < adj[k].len() ==> (#[trigger] adj[k][i]).node_a_id == k
            && adj[k][i].weight >= 0
}

/// `p` is a walk from `from` to `to`: consecutive arcs of the network, each
/// starting where the one before it ended. The empty walk stays at `from`.
pub open spec fn is_walk(adj: Adjacency, from: i32, to: i32, p: Seq<Edge>) -> bool
    decreases p.len(),
{
    if p.len() == 0 {
        from == to
    } else {
        has_arc(adj, p.last()) && p.last().node_b_id == to && is_walk(
            adj,
            from,
            p.last().node_a_id,
            p.drop_last(),
        )
    }
}

/// The sum of the weights along a walk.
pub open spec fn walk_cost(p: Seq<Edge>) -> int
    decreases p.len(),
{
    if p.len() == 0 {
        0
    } else {
        walk_cost(p.drop_last()) + p.last().weight
    }
}

/// Some walk from `from` to `to` costs exactly `d`.
pub open spec fn walk_of_cost(adj: Adjacency, from: i32, to: i32, d: int) -> bool {
    exists|p: Seq<Edge>| is_walk(adj, from, to, p) && walk_cost(p) == d
}

/// Some walk from `from` to `to` costs less than the sentinel.
pub open spec fn reaches(adj: Adjacency, from: i32, to: i32) -> bool {
    exists|p: Seq<Edge>| is_walk(adj, from, to, p) && walk_cost(p) < sentinel()
}

/// `d` is the cost of a cheapest walk from `from` to `to`.
pub open spec fn is_least_cost(adj: Adjacency, from: i32, to: i32, d: int) -> bool {
    walk_of_cost(adj, from, to, d) && forall|p: Seq<Edge>|
        is_walk(adj, from, to, p) ==> d <= walk_cost(p)
}

/// The network distance: the cost of a cheapest walk where one costs less
/// than the sentinel, and the sentinel otherwise.
pub open spec fn distance(adj: Adjacency, from: i32, to: i32) -> int {
    if reaches(adj, from, to) {
        choose|d: int| is_least_cost(adj, from, to, d)
    } else {
        sentinel()
    }
}

/// `table` is the full single-source table of `from`: it has an entry for
/// exactly the nodes that `from` reaches, and each entry is the distance.
pub open spec fn is_distance_table(adj: Adjacency, from: i32, table: Map<i32, i32>) -> bool {
    forall|t: i32|
        (#[trigger] table.contains_key(t) <==> reaches(adj, from, t)) && (table.contains_key(t)
            ==> table[t] == distance(adj, from, t))
}

/// The full single-source table of `from`, as a map: the distance of every
/// node that `from` reaches.
pub open spec fn distance_table(adj: Adjacency, from: i32) -> Map<i32, i32> {
    Map::new(|t: i32| reaches(adj, from, t), |t: i32| distance(adj, from, t) as i32)
}

/// What a table says of a node: its entry, or the sentinel without one.
pub open spec fn lookup(table: Map<i32, i32>, to: i32) -> int {
    if table.contains_key(to) {
        table[to] as int
    } else {
        sentinel()
    }
}

/// The targets that `from` reaches, in their order, each behind its distance.
pub open spec fn reached_targets(adj: Adjacency, from: i32, targets: Seq<i32>) -> Seq<(i32, i32)>
    decreases targets.len(),
{
    if targets.len() == 0 {
        Seq::empty()
    } else {
        let rest = reached_targets(adj, from, targets.drop_last());
        let t = targets.last();
        if reaches(adj, from, t) {
            rest.push((distance(adj, from, t) as i32, t))
        } else {
            rest
        }
    }
}

/// The adjacency after one more arc was filed under the node it leaves.
pub open spec fn with_arc(adj: Adjacency, e: Edge) -> Adjacency {
    if adj.contains_key(e.node_a_id) {
        adj.insert(e.node_a_id, adj[e.node_a_id].push(e))
    } else {
        adj.insert(e.node_a_id, seq![e])
    }
}

/// The arc that runs the other way, at the same weight.
pub open spec fn reversed(e: Edge) -> Edge {
    Edge { node_a_id: e.node_b_id, node_b_id: e.node_a_id, weight: e.weight }
}

/// The adjacency after a road segment was added: the arc itself and the arc
/// that runs the other way.
pub open spec fn with_edge(adj: Adjacency, e: Edge) -> Adjacency {
    with_arc(with_arc(adj, e), reversed(e))
}

/// In a well-formed network no walk has a negative cost.
pub proof fn lemma_cost_nonnegative(adj: Adjacency, from: i32, to: i32, p: Seq<Edge>)
    requires
        well_formed(adj),
        is_walk(adj, from, to, p),
    ensures
        walk_cost(p) >= 0,
    decreases p.len(),
{
    if p.len() > 0 {
        let e = p.last();
        let i = choose|i: int| 0 <= i < adj[e.node_a_id].len() && adj[e.node_a_id][i] == e;
        assert(adj[e.node_a_id][i].weight >= 0);
        lemma_cost_nonnegative(adj, from, e.node_a_id, p.drop_last());
    }
}

/// A walk extended by an arc that leaves its end is a walk to that arc's end.
pub proof fn lemma_walk_extend(adj: Adjacency, from: i32, p: Seq<Edge>, e: Edge)
    requires
        is_walk(adj, from, e.node_a_id, p),
        has_arc(adj, e),
    ensures
        is_walk(adj, from, e.node_b_id, p.push(e)),
        walk_cost(p.push(e)) == walk_cost(p) + e.weight,
{
    let q = p.push(e);
    assert(q.last() == e);
    assert(q.drop_last() =~= p);
}

/// Among the walks between two nodes of a well-formed network, where there is
/// one at all, one is cheapest.
pub proof fn lemma_least_cost_exists(adj: Adjacency, from: i32, to: i32, c: int)
    requires
        well_formed(adj),
        walk_of_cost(adj, from, to, c),
    ensures
        exists|d: int| is_least_cost(adj, from, to, d) && d <= c,
    decreases c,
{
    let p = choose|p: Seq<Edge>| is_walk(adj, from, to, p) && walk_cost(p) == c;
    lemma_cost_nonnegative(adj, from, to, p);
    if exists|q: Seq<Edge>| is_walk(adj, from, to, q) && walk_cost(q) < c {
        let q = choose|q: Seq<Edge>| is_walk(adj, from, to, q) && walk_cost(q) < c;
        lemma_cost_nonnegative(adj, from, to, q);
        lemma_least_cost_exists(adj, from, to, walk_cost(q));
    } else {
        assert(is_least_cost(adj, from, to, c));
    }
}

/// The cheapest cost is unique, so the distance is that cost wherever it lies
/// below the sentinel.
pub proof fn lemma_distance_is_least(adj: Adjacency, from: i32, to: i32, d: int)
    requires
        is_least_cost(adj, from, to, d),
    ensures
        d < sentinel() ==> reaches(adj, from, to) && distance(adj, from, to) == d,
        d >= sentinel() ==> !reaches(adj, from, to) && distance(adj, from, to) == sentinel(),
{
    if reaches(adj, from, to) {
        let d2 = choose|d2: int| is_least_cost(adj, from, to, d2);
        let p = choose|p: Seq<Edge>| is_walk(adj, from, to, p) && walk_cost(p) == d;
        let p2 = choose|p: Seq<Edge>| is_walk(adj, from, to, p) && walk_cost(p) == d2;
        assert(d <= walk_cost(p2));
        assert(d2 <= walk_cost(p));
    }
}

/// What the distance is, in a well-formed network: never negative, never
/// above the sentinel, below it exactly for the nodes reached, and then the
/// cost of a cheapest walk.
pub proof fn lemma_distance_facts(adj: Adjacency, from: i32, to: i32)
    requires
        well_formed(adj),
    ensures
        0 <= distance(adj, from, to) <= sentinel(),
        reaches(adj, from, to) <==> distance(adj, from, to) < sentinel(),
        reaches(adj, from, to) ==> is_least_cost(adj, from, to, distance(adj, from, to)),
{
    if reaches(adj, from, to) {
        let p = choose|p: Seq<Edge>| is_walk(adj, from, to, p) && walk_cost(p) < sentinel();
        lemma_least_cost_exists(adj, from, to, walk_cost(p));
        let d = choose|d: int| is_least_cost(adj, from, to, d);
        let q = choose|q: Seq<Edge>| is_walk(adj, from, to, q) && walk_cost(q) == d;
        lemma_cost_nonnegative(adj, from, to, q);
        assert(d <= walk_cost(p));
    }
}

/// There is one distance table, and it is `distance_table`.
pub proof fn lemma_table_unique(adj: Adjacency, from: i32, table: Map<i32, i32>)
    requires
        is_distance_table(adj, from, table),
    ensures
        table == distance_table(adj, from),
{
    assert(table =~= distance_table(adj, from));
}

/// In a well-formed network, `distance_table` is a distance table and its
/// lookup is the distance.
pub proof fn lemma_table_lookup(adj: Adjacency, from: i32, to: i32)
    requires
        well_formed(adj),
    ensures
        lookup(distance_table(adj, from), to) == distance(adj, from, to),
        is_distance_table(adj, from, distance_table(adj, from)),
{
    lemma_distance_facts(adj, from, to);
    assert forall|t: i32|
        (#[trigger] distance_table(adj, from).contains_key(t) <==> reaches(adj, from, t)) && (
        distance_table(adj, from).contains_key(t) ==> distance_table(adj, from)[t] == distance(
            adj,
            from,
            t,
        )) by {
        lemma_distance_facts(adj, from, t);
    }
}

/// An arc of the network is still one after another arc was filed.
pub proof fn lemma_arc_kept(adj: Adjacency, e: Edge, x: Edge)
    requires
        has_arc(adj, x),
    ensures
        has_arc(with_arc(adj, e), x),
{
    let i = choose|i: int| 0 <= i < adj[x.node_a_id].len() && adj[x.node_a_id][i] == x;
    if x.node_a_id == e.node_a_id {
        assert(with_arc(adj, e)[x.node_a_id][i] == x);
    }
}

/// The arc that was filed is an arc of the network.
pub proof fn lemma_arc_filed(adj: Adjacency, e: Edge)
    ensures
        has_arc(with_arc(adj, e), e),
{
    let list = with_arc(adj, e)[e.node_a_id];
    assert(list[list.len() - 1] == e);
}

/// Filing an arc of non-negative weight keeps the network well formed.
pub proof fn lemma_arc_keeps_well_formed(adj: Adjacency, e: Edge)
    requires
        well_formed(adj),
        e.weight >= 0,
    ensures
        well_formed(with_arc(adj, e)),
{
    let adj2 = with_arc(adj, e);
    assert forall|k: i32, i: int| adj2.contains_key(k) && 0 <= i < adj2[k].len() implies (
    #[trigger] adj2[k][i]).node_a_id == k && adj2[k][i].weight >= 0 by {
        if k == e.node_a_id {
            if adj.contains_key(k) && i < adj[k].len() {
                assert(adj2[k][i] == adj[k][i]);
            }
        } else {
            assert(adj2[k][i] == adj[k][i]);
        }
    }
}

/// A walk of the network is still one after another arc was filed.
pub proof fn lemma_walk_kept(adj: Adjacency, e: Edge, from: i32, to: i32, p: Seq<Edge>)
    requires
        is_walk(adj, from, to, p),
    ensures
        is_walk(with_arc(adj, e), from, to, p),
    decreases p.len(),
{
    if p.len() > 0 {
        lemma_arc_kept(adj, e, p.last());
        lemma_walk_kept(adj, e, from, p.last().node_a_id, p.drop_last());
    }
}

/// In a well-formed network every node reaches itself, at distance 0.
pub proof fn lemma_distance_to_self(adj: Adjacency, s: i32)
    requires
        well_formed(adj),
    ensures
        reaches(adj, s, s),
        distance(adj, s, s) == 0,
{
    let empty = Seq::<Edge>::empty();
    assert(is_walk(adj, s, s, empty) && walk_cost(empty) == 0);
    assert(walk_of_cost(adj, s, s, 0));
    assert forall|p: Seq<Edge>| is_walk(adj, s, s, p) implies 0 <= walk_cost(p) by {
        lemma_cost_nonnegative(adj, s, s, p);
    }
    assert(is_least_cost(adj, s, s, 0));
    lemma_distance_is_least(adj, s, s, 0);
}

} // verus!
