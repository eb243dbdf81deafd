//! The graph store: nodes, arcs in both directions for every road segment,
//! and a cache of single-source distance tables.

pub use crate::paths::Edge;
use crate::paths::{
    distance, distance_table, is_distance_table, lemma_arc_keeps_well_formed,
    lemma_distance_to_self, lemma_table_lookup, lemma_table_unique, lookup, reached_targets,
    reaches, reversed, well_formed, with_arc, with_edge, Adjacency,
};
use crate::relax::{adjacency_of, relax_from};
use std::collections::HashMap;
use vstd::prelude::*;

verus! {

broadcast use vstd::std_specs::hash::group_hash_axioms;

/// A vertex of the road network. The coordinates play no part in distances.
#[derive(Clone, Copy, Debug, PartialEq, Eq, Structural)]
pub struct Node {
    pub id: i32,
    pub x: i32,
    pub y: i32,
}

/// The graph store.
#[derive(Debug)]
pub struct Graph {
    pub nodes: HashMap<i32, Node>,
    pub edges: HashMap<i32, Vec<Edge>>,
    pub distances_cache: HashMap<i32, HashMap<i32, i32>>,
}

/// The cache once `from` has been asked for: unchanged where it already has
/// a table for `from`, and with the distance table of `from` added otherwise.
pub open spec fn cache_after(adj: Adjacency, cache: Map<i32, Map<i32, i32>>, from: i32) -> Map<
    i32,
    Map<i32, i32>,
> {
    if cache.contains_key(from) {
        cache
    } else {
        cache.insert(from, distance_table(adj, from))
    }
}

/// The answer to a single-target query: read from the cached table of `from`
/// where there is one, and the network distance otherwise.
pub open spec fn answer(adj: Adjacency, cache: Map<i32, Map<i32, i32>>, from: i32, to: i32) -> int {
    if cache.contains_key(from) {
        lookup(cache[from], to)
    } else {
        distance(adj, from, to)
    }
}

/// Every cached table has its own source at distance 0.
pub open spec fn tables_anchored(cache: Map<i32, Map<i32, i32>>) -> bool {
    forall|s: i32| #[trigger]
        cache.contains_key(s) ==> cache[s].contains_key(s) && cache[s][s] == 0
}

/// Every cached table is the distance table of its source in `adj`.
pub open spec fn cache_current(adj: Adjacency, cache: Map<i32, Map<i32, i32>>) -> bool {
    forall|s: i32| #[trigger] cache.contains_key(s) ==> cache[s] == distance_table(adj, s)
}

fn file_arc(edges: &mut HashMap<i32, Vec<Edge>>, e: Edge)
    ensures
        adjacency_of(final(edges)@) == with_arc(adjacency_of(old(edges)@), e),
{
    let mut list: Vec<Edge> = match edges.remove(&e.node_a_id) {
        Some(l) => l,
        None => Vec::new(),
    };
    list.push(e);
    edges.insert(e.node_a_id, list);
    proof {
        assert(adjacency_of(edges@) =~= with_arc(adjacency_of(old(edges)@), e));
    }
}

impl Graph {
    /// The arcs of the store, node by node.
    pub open spec fn adjacency(&self) -> Adjacency {
        adjacency_of(self.edges@)
    }

    /// The cached tables, source by source.
    pub open spec fn cache(&self) -> Map<i32, Map<i32, i32>> {
        Map::new(
            |s: i32| self.distances_cache@.contains_key(s),
            |s: i32| self.distances_cache@[s]@,
        )
    }

    /// Every arc is filed under the node it leaves and no weight is negative.
    pub open spec fn wf(&self) -> bool {
        well_formed(self.adjacency())
    }

    /// No cached table is older than the arcs: each is the distance table of
    /// its source in the store as it stands.
    pub open spec fn cache_fresh(&self) -> bool {
        cache_current(self.adjacency(), self.cache())
    }

    /// Every cached table has its own source at distance 0: so it is of
    /// every table that the store computed, whatever was added since.
    pub open spec fn cache_anchored(&self) -> bool {
        tables_anchored(self.cache())
    }

    /// An empty store: no node, no arc, nothing cached.
    pub fn new() -> (g: Self)
        ensures
            g.nodes@ == Map::<i32, Node>::empty(),
            g.adjacency() == Map::<i32, Seq<Edge>>::empty(),
            g.cache() == Map::<i32, Map<i32, i32>>::empty(),
            g.wf(),
            g.cache_fresh(),
            g.cache_anchored(),
    {
        let g = Graph {
            nodes: HashMap::new(),
            edges: HashMap::new(),
            distances_cache: HashMap::new(),
        };
        proof {
            assert(g.adjacency() =~= Map::<i32, Seq<Edge>>::empty());
            assert(g.cache() =~= Map::<i32, Map<i32, i32>>::empty());
        }
        g
    }

    /// Inserts a node under its id, in place of any node that had it.
    pub fn add_node(&mut self, node: Node)
        ensures
            final(self).nodes@ == old(self).nodes@.insert(node.id, node),
            final(self).adjacency() == old(self).adjacency(),
            final(self).cache() == old(self).cache(),
            old(self).wf() ==> final(self).wf(),
            old(self).cache_fresh() ==> final(self).cache_fresh(),
            old(self).cache_anchored() ==> final(self).cache_anchored(),
    {
        self.nodes.insert(node.id, node);
    }

    /// Adds a road segment: the arc itself at the end of the list of
    /// `edge.node_a_id`, then the arc that runs the other way at the end of
    /// the list of `edge.node_b_id`. Nodes and cached tables stay as they are.
    pub fn add_edge(&mut self, edge: Edge)
        ensures
            final(self).adjacency() == with_edge(old(self).adjacency(), edge),
            final(self).nodes@ == old(self).nodes@,
            final(self).cache() == old(self).cache(),
            old(self).wf() && edge.weight >= 0 ==> final(self).wf(),
            old(self).cache_anchored() ==> final(self).cache_anchored(),
    {
        file_arc(&mut self.edges, edge);
        let reverse_edge = Edge {
            node_a_id: edge.node_b_id,
            node_b_id: edge.node_a_id,
            weight: edge.weight,
        };
        file_arc(&mut self.edges, reverse_edge);
        proof {
            if old(self).wf() && edge.weight >= 0 {
                lemma_arc_keeps_well_formed(old(self).adjacency(), edge);
                lemma_arc_keeps_well_formed(with_arc(old(self).adjacency(), edge), reversed(edge));
            }
        }
    }

    /// The distance from `from_node_id` to `to_node_id`, the sentinel where
    /// there is none. With a table cached for the source the answer is read
    /// from it and the store is left as it is; without one the full table of
    /// the source is computed and cached.
    pub fn shortest_path(&mut self, from_node_id: i32, to_node_id: i32) -> (d: i32)
        requires
            old(self).wf(),
        ensures
            d == answer(old(self).adjacency(), old(self).cache(), from_node_id, to_node_id),
            final(self).cache() == cache_after(
                old(self).adjacency(),
                old(self).cache(),
                from_node_id,
            ),
            final(self).adjacency() == old(self).adjacency(),
            final(self).nodes@ == old(self).nodes@,
            final(self).wf(),
            old(self).cache_anchored() ==> final(self).cache_anchored() && (from_node_id
                == to_node_id ==> d == 0),
            old(self).cache_fresh() ==> final(self).cache_fresh() && d == distance(
                old(self).adjacency(),
                from_node_id,
                to_node_id,
            ),
    {
        let (d, _) = self.shortest_path_traced(from_node_id, to_node_id);
        d
    }

    /// `shortest_path`, which also tells whether it had to compute: the
    /// second component is true where the source had no cached table and the
    /// relaxation ran, false where the answer was read from the cache.
    pub fn shortest_path_traced(&mut self, from_node_id: i32, to_node_id: i32) -> (r: (i32, bool))
        requires
            old(self).wf(),
        ensures
            r.0 == answer(old(self).adjacency(), old(self).cache(), from_node_id, to_node_id),
            r.1 == !old(self).cache().contains_key(from_node_id),
            final(self).cache() == cache_after(
                old(self).adjacency(),
                old(self).cache(),
                from_node_id,
            ),
            final(self).cache().contains_key(from_node_id),
            final(self).adjacency() == old(self).adjacency(),
            final(self).nodes@ == old(self).nodes@,
            final(self).wf(),
            old(self).cache_anchored() ==> final(self).cache_anchored() && (from_node_id
                == to_node_id ==> r.0 == 0),
            old(self).cache_fresh() ==> final(self).cache_fresh() && r.0 == distance(
                old(self).adjacency(),
                from_node_id,
                to_node_id,
            ),
    {
        let ghost adj = self.adjacency();
        proof {
            lemma_table_lookup(adj, from_node_id, to_node_id);
            lemma_distance_to_self(adj, from_node_id);
        }
        match self.distances_cache.get(&from_node_id) {
            Some(distances) => {
                let d: i32 = match distances.get(&to_node_id) {
                    Some(distance) => *distance,
                    None => i32::MAX,
                };
                proof {
                    assert(self.cache().contains_key(from_node_id));
                    assert(self.cache()[from_node_id] == distances@);
                }
                return (d, false);
            },
            None => {},
        }
        let distances = relax_from(&self.edges, from_node_id);
        proof {
            lemma_table_unique(adj, from_node_id, distances@);
        }
        let d: i32 = match distances.get(&to_node_id) {
            Some(distance) => *distance,
            None => i32::MAX,
        };
        self.distances_cache.insert(from_node_id, distances);
        proof {
            assert(self.cache() =~= cache_after(adj, old(self).cache(), from_node_id));
        }
        (d, true)
    }

    /// The distance from `from_node_id` to each target that it reaches, as
    /// `(distance, target)` in the order of `target_nodes`; a target that is
    /// not reached is left out. The cache is neither read nor written.
    pub fn find_nearest_point(&self, from_node_id: i32, target_nodes: &[i32]) -> (result: Vec<
        (i32, i32),
    >)
        requires
            self.wf(),
        ensures
            result@ == reached_targets(self.adjacency(), from_node_id, target_nodes@),
            forall|k: int|
                0 <= k < result@.len() ==> target_nodes@.contains((#[trigger] result@[k]).1)
                    && reaches(self.adjacency(), from_node_id, result@[k].1) && result@[k].0
                    == distance(self.adjacency(), from_node_id, result@[k].1),
    {
        let ghost adj = self.adjacency();
        let distances = relax_from(&self.edges, from_node_id);
        let mut result: Vec<(i32, i32)> = Vec::new();
        let n: usize = target_nodes.len();
        let mut i: usize = 0;
        while i < n
            invariant
                i <= n,
                n == target_nodes@.len(),
                adj == self.adjacency(),
                is_distance_table(adj, from_node_id, distances@),
                result@ == reached_targets(adj, from_node_id, target_nodes@.take(i as int)),
                forall|k: int|
                    0 <= k < result@.len() ==> target_nodes@.contains((#[trigger] result@[k]).1)
                        && reaches(adj, from_node_id, result@[k].1) && result@[k].0 == distance(
                        adj,
                        from_node_id,
                        result@[k].1,
                    ),
            decreases n - i,
        {
            let target_node: i32 = target_nodes[i];
            proof {
                assert(target_nodes@.take(i + 1).drop_last() =~= target_nodes@.take(i as int));
                assert(target_nodes@.take(i + 1).last() == target_node);
                assert(distances@.contains_key(target_node) <==> reaches(
                    adj,
                    from_node_id,
                    target_node,
                ));
            }
            match distances.get(&target_node) {
                Some(distance) => {
                    result.push((*distance, target_node));
                },
                None => {},
            }
            i += 1;
        }
        proof {
            assert(target_nodes@.take(n as int) =~= target_nodes@);
        }
        result
    }
}

} // verus!
