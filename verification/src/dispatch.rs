//! The dispatch policy: which available unit, if any, is sent to an order.

use crate::graph::{Graph, Node};
use crate::paths::{
    distance, lemma_distance_facts, reached_targets, reaches, well_formed, with_edge, Adjacency,
    Edge,
};
use vstd::prelude::*;

verus! {

/// The farthest that a unit may be from an order and still be sent to it.
pub const MAX_DISPATCH_DISTANCE: i32 = 10_000_000;

/// A unit as the unit directory records it.
#[derive(Clone, Debug)]
pub struct TowTruck {
    pub id: i32,
    pub driver_id: i32,
    pub driver_username: Option<String>,
    pub status: String,
    pub node_id: i32,
    pub area_id: i32,
}

/// A unit as it is shown to the outside.
#[derive(Clone, Debug)]
pub struct TowTruckDto {
    pub id: i32,
    pub driver_id: i32,
    pub driver_username: Option<String>,
    pub status: String,
    pub node_id: i32,
    pub area_id: i32,
}

/// The outside representation of a unit: the same fields.
pub open spec fn dto_of(t: TowTruck) -> TowTruckDto {
    TowTruckDto {
        id: t.id,
        driver_id: t.driver_id,
        driver_username: t.driver_username,
        status: t.status,
        node_id: t.node_id,
        area_id: t.area_id,
    }
}

impl TowTruckDto {
    /// Maps a unit to its outside representation.
    pub fn from_entity(entity: TowTruck) -> (dto: TowTruckDto)
        ensures
            dto == dto_of(entity),
    {
        TowTruckDto {
            id: entity.id,
            driver_id: entity.driver_id,
            driver_username: entity.driver_username,
            status: entity.status,
            node_id: entity.node_id,
            area_id: entity.area_id,
        }
    }
}

/// The network that a list of road segments makes, added in their order to
/// an empty store.
pub open spec fn network_of(edges: Seq<Edge>) -> Adjacency
    decreases edges.len(),
{
    if edges.len() == 0 {
        Map::empty()
    } else {
        with_edge(network_of(edges.drop_last()), edges.last())
    }
}

/// The units that `from` reaches, in their order: each as its distance and
/// its place in `trucks`.
pub open spec fn unit_candidates(adj: Adjacency, from: i32, trucks: Seq<TowTruck>) -> Seq<
    (i32, usize),
>
    decreases trucks.len(),
{
    if trucks.len() == 0 {
        Seq::empty()
    } else {
        let rest = unit_candidates(adj, from, trucks.drop_last());
        if reaches(adj, from, trucks.last().node_id) {
            rest.push(
                (distance(adj, from, trucks.last().node_id) as i32, (trucks.len() - 1) as usize),
            )
        } else {
            rest
        }
    }
}

/// Candidate `b` has the least distance, and is the first that has it.
pub open spec fn is_first_minimum(c: Seq<(i32, usize)>, b: int) -> bool {
    &&& 0 <= b < c.len()
    &&& forall|j: int| 0 <= j < c.len() ==> c[b].0 <= (#[trigger] c[j]).0
    &&& forall|j: int| 0 <= j < b ==> c[b].0 < (#[trigger] c[j]).0
}

/// Unit `i` is the one to send: it is reached, within the dispatch distance,
/// no reached unit is nearer, and every reached unit before it is farther.
pub open spec fn is_dispatch_choice(
    adj: Adjacency,
    from: i32,
    trucks: Seq<TowTruck>,
    i: int,
) -> bool {
    &&& 0 <= i < trucks.len()
    &&& reaches(adj, from, trucks[i].node_id)
    &&& distance(adj, from, trucks[i].node_id) <= MAX_DISPATCH_DISTANCE
    &&& forall|j: int|
        0 <= j < trucks.len() && reaches(adj, from, (#[trigger] trucks[j]).node_id) ==> distance(
            adj,
            from,
            trucks[i].node_id,
        ) <= distance(adj, from, trucks[j].node_id) && (j < i ==> distance(
            adj,
            from,
            trucks[i].node_id,
        ) < distance(adj, from, trucks[j].node_id))
}

/// What the reached targets of a shorter list are, the reached targets of
/// the whole list begin with.
proof fn lemma_reached_prefix(adj: Adjacency, from: i32, ids: Seq<i32>, i: int)
    requires
        0 <= i <= ids.len(),
    ensures
        reached_targets(adj, from, ids.take(i)).len() <= reached_targets(adj, from, ids).len(),
        forall|k: int|
            0 <= k < reached_targets(adj, from, ids.take(i)).len() ==> #[trigger] reached_targets(
                adj,
                from,
                ids.take(i),
            )[k] == reached_targets(adj, from, ids)[k],
    decreases ids.len(),
{
    if i == ids.len() {
        assert(ids.take(i) =~= ids);
    } else {
        assert(ids.drop_last().take(i) =~= ids.take(i));
        lemma_reached_prefix(adj, from, ids.drop_last(), i);
    }
}

/// The candidates are the reached units, each once, in rising order of
/// their place, each with its distance.
proof fn lemma_candidates(adj: Adjacency, from: i32, trucks: Seq<TowTruck>)
    requires
        well_formed(adj),
        trucks.len() <= usize::MAX,
    ensures
        forall|k: int|
            0 <= k < unit_candidates(adj, from, trucks).len() ==> {
                let c = #[trigger] unit_candidates(adj, from, trucks)[k];
                c.1 < trucks.len() && reaches(adj, from, trucks[c.1 as int].node_id) && c.0
                    == distance(adj, from, trucks[c.1 as int].node_id)
            },
        forall|k1: int, k2: int|
            0 <= k1 < k2 < unit_candidates(adj, from, trucks).len() ==> (
            #[trigger] unit_candidates(adj, from, trucks)[k1]).1 < (#[trigger] unit_candidates(
                adj,
                from,
                trucks,
            )[k2]).1,
        forall|j: int|
            0 <= j < trucks.len() && reaches(adj, from, (#[trigger] trucks[j]).node_id)
                ==> exists|k: int|
                0 <= k < unit_candidates(adj, from, trucks).len() && (#[trigger] unit_candidates(
                    adj,
                    from,
                    trucks,
                )[k]).1 == j,
    decreases trucks.len(),
{
    if trucks.len() > 0 {
        let shorter = trucks.drop_last();
        let rest = unit_candidates(adj, from, shorter);
        let all = unit_candidates(adj, from, trucks);
        let last = trucks.len() - 1;
        lemma_candidates(adj, from, shorter);
        lemma_distance_facts(adj, from, trucks.last().node_id);
        assert forall|j: int|
            0 <= j < trucks.len() && reaches(
                adj,
                from,
                (#[trigger] trucks[j]).node_id,
            ) implies exists|k: int|
            0 <= k < all.len() && (#[trigger] all[k]).1 == j by {
            if j < last {
                assert(shorter[j] == trucks[j]);
                let k = choose|k: int| 0 <= k < rest.len() && (#[trigger] rest[k]).1 == j;
                assert(all[k] == rest[k]);
            } else {
                assert(all[all.len() - 1].1 == j);
            }
        }
        assert forall|k: int| 0 <= k < all.len() implies {
            let c = #[trigger] all[k];
            c.1 < trucks.len() && reaches(adj, from, trucks[c.1 as int].node_id) && c.0
                == distance(adj, from, trucks[c.1 as int].node_id)
        } by {
            if k < rest.len() {
                assert(all[k] == rest[k]);
                assert(shorter[rest[k].1 as int] == trucks[rest[k].1 as int]);
            }
        }
        assert forall|k1: int, k2: int| 0 <= k1 < k2 < all.len() implies (#[trigger] all[k1]).1 < (
        #[trigger] all[k2]).1 by {
            assert(all[k1] == rest[k1]);
            if k2 < rest.len() {
                assert(all[k2] == rest[k2]);
            }
        }
    }
}

/// The first candidate of least distance, by its place in `candidates`;
/// `None` where there is no candidate.
pub fn select_nearest(candidates: &Vec<(i32, usize)>) -> (best: Option<usize>)
    ensures
        match best {
            Some(b) => is_first_minimum(candidates@, b as int),
            None => candidates@.len() == 0,
        },
{
    if candidates.len() == 0 {
        return None;
    }
    let mut best: usize = 0;
    let mut j: usize = 1;
    while j < candidates.len()
        invariant
            1 <= j <= candidates@.len(),
            best < j,
            is_first_minimum(candidates@.take(j as int), best as int),
        decreases candidates@.len() - j,
    {
        let ghost seen = candidates@.take(j as int);
        let ghost more = candidates@.take(j + 1);
        proof {
            assert forall|k: int| 0 <= k < j implies #[trigger] more[k] == seen[k] by {}
        }
        if candidates[j].0 < candidates[best].0 {
            proof {
                assert(seen[best as int] == more[best as int]);
                assert forall|k: int| 0 <= k < j implies more[j as int].0 < (
                #[trigger] more[k]).0 by {
                    assert(seen[best as int].0 <= seen[k].0);
                }
            }
            best = j;
        } else {
            proof {
                assert(seen[best as int] == more[best as int]);
                assert forall|k: int| 0 <= k < more.len() implies more[best as int].0 <= (
                #[trigger] more[k]).0 by {
                    if k < j {
                        assert(seen[best as int].0 <= seen[k].0);
                    }
                }
                assert forall|k: int| 0 <= k < best implies more[best as int].0 < (
                #[trigger] more[k]).0 by {
                    assert(seen[best as int].0 < seen[k].0);
                }
            }
        }
        j += 1;
    }
    proof {
        assert(candidates@.take(j as int) =~= candidates@);
    }
    Some(best)
}

/// The unit to send, given the candidates as `(distance, unit)` and the
/// farthest that a unit may be: the unit of the first candidate of least
/// distance, unless that distance is beyond `limit`. `None` where every
/// candidate is beyond it, and where there is none.
pub fn choose_unit_within(candidates: &Vec<(i32, usize)>, limit: i32) -> (unit: Option<usize>)
    ensures
        match unit {
            Some(u) => exists|b: int|
                is_first_minimum(candidates@, b) && (#[trigger] candidates@[b]).0 <= limit
                    && candidates@[b].1 == u,
            None => forall|j: int|
                0 <= j < candidates@.len() ==> (#[trigger] candidates@[j]).0 > limit,
        },
{
    match select_nearest(candidates) {
        Some(b) => {
            if candidates[b].0 > limit {
                None
            } else {
                Some(candidates[b].1)
            }
        },
        None => None,
    }
}

/// The unit to send under the dispatch distance: `choose_unit_within` at
/// `MAX_DISPATCH_DISTANCE`.
pub fn choose_unit(candidates: &Vec<(i32, usize)>) -> (unit: Option<usize>)
    ensures
        match unit {
            Some(u) => exists|b: int|
                is_first_minimum(candidates@, b) && (#[trigger] candidates@[b]).0
                    <= MAX_DISPATCH_DISTANCE && candidates@[b].1 == u,
            None => forall|j: int|
                0 <= j < candidates@.len() ==> (#[trigger] candidates@[j]).0
                    > MAX_DISPATCH_DISTANCE,
        },
{
    choose_unit_within(candidates, MAX_DISPATCH_DISTANCE)
}

/// The nearest-unit query: for each unit whose node `order_node_id` reaches,
/// its distance and its place in `tow_trucks`, in the order of `tow_trucks`.
/// One traversal of the network answers for all units.
pub fn nearest_units(graph: &Graph, order_node_id: i32, tow_trucks: &Vec<TowTruck>) -> (candidates:
    Vec<(i32, usize)>)
    requires
        graph.wf(),
    ensures
        candidates@ == unit_candidates(graph.adjacency(), order_node_id, tow_trucks@),
{
    let ghost adj = graph.adjacency();
    let n: usize = tow_trucks.len();
    let mut truck_node_ids: Vec<i32> = Vec::new();
    let mut i: usize = 0;
    while i < n
        invariant
            i <= n,
            n == tow_trucks@.len(),
            truck_node_ids@.len() == i,
            forall|j: int| 0 <= j < i ==> truck_node_ids@[j] == tow_trucks@[j].node_id,
        decreases n - i,
    {
        truck_node_ids.push(tow_trucks[i].node_id);
        i += 1;
    }
    let distances = graph.find_nearest_point(order_node_id, truck_node_ids.as_slice());
    let ghost ids = truck_node_ids@;
    let mut candidates: Vec<(i32, usize)> = Vec::new();
    let mut k: usize = 0;
    i = 0;
    while i < n
        invariant
            i <= n,
            n == tow_trucks@.len(),
            ids.len() == n,
            adj == graph.adjacency(),
            forall|j: int| 0 <= j < n ==> ids[j] == tow_trucks@[j].node_id,
            distances@ == reached_targets(adj, order_node_id, ids),
            forall|j: int|
                0 <= j < distances@.len() ==> reaches(
                    adj,
                    order_node_id,
                    (#[trigger] distances@[j]).1,
                ),
            k == reached_targets(adj, order_node_id, ids.take(i as int)).len(),
            k <= distances@.len(),
            candidates@ == unit_candidates(adj, order_node_id, tow_trucks@.take(i as int)),
        decreases n - i,
    {
        proof {
            assert(ids.take(i + 1).drop_last() =~= ids.take(i as int));
            assert(tow_trucks@.take(i + 1).drop_last() =~= tow_trucks@.take(i as int));
            assert(ids.take(i + 1).last() == tow_trucks@[i as int].node_id);
            assert(tow_trucks@.take(i + 1).last() == tow_trucks@[i as int]);
            lemma_reached_prefix(adj, order_node_id, ids, i + 1);
            if reaches(adj, order_node_id, tow_trucks@[i as int].node_id) {
                assert(reached_targets(adj, order_node_id, ids.take(i + 1))[k as int]
                    == distances@[k as int]);
            }
        }
        if k < distances.len() && distances[k].1 == tow_trucks[i].node_id {
            candidates.push((distances[k].0, i));
            k += 1;
        }
        i += 1;
    }
    proof {
        assert(tow_trucks@.take(n as int) =~= tow_trucks@);
    }
    candidates
}

/// The distance between two nodes, through the store's cache.
pub fn calculate_distance(graph: &mut Graph, node_id_1: i32, node_id_2: i32) -> (d: i32)
    requires
        old(graph).wf(),
    ensures
        d == crate::graph::answer(
            old(graph).adjacency(),
            old(graph).cache(),
            node_id_1,
            node_id_2,
        ),
        final(graph).cache() == crate::graph::cache_after(
            old(graph).adjacency(),
            old(graph).cache(),
            node_id_1,
        ),
        final(graph).adjacency() == old(graph).adjacency(),
        final(graph).nodes@ == old(graph).nodes@,
{
    graph.shortest_path(node_id_1, node_id_2)
}

/// The unit service: the three directories it works with, and the rule by
/// which a unit is picked for an order.
#[derive(Debug)]
pub struct TowTruckService<T, U, V> {
    tow_truck_repository: T,
    order_repository: U,
    map_repository: V,
}

impl<T, U, V> TowTruckService<T, U, V> {
    /// The unit directory that the service was made with.
    pub closed spec fn spec_tow_truck_repository(&self) -> T {
        self.tow_truck_repository
    }

    /// The order directory that the service was made with.
    pub closed spec fn spec_order_repository(&self) -> U {
        self.order_repository
    }

    /// The map directory that the service was made with.
    pub closed spec fn spec_map_repository(&self) -> V {
        self.map_repository
    }

    /// A service over the three directories.
    pub fn new(tow_truck_repository: T, order_repository: U, map_repository: V) -> (service: Self)
        ensures
            service.spec_tow_truck_repository() == tow_truck_repository,
            service.spec_order_repository() == order_repository,
            service.spec_map_repository() == map_repository,
    {
        TowTruckService { tow_truck_repository, order_repository, map_repository }
    }

    /// The unit directory.
    pub fn tow_truck_repository(&self) -> (r: &T)
        ensures
            *r == self.spec_tow_truck_repository(),
    {
        &self.tow_truck_repository
    }

    /// The order directory.
    pub fn order_repository(&self) -> (r: &U)
        ensures
            *r == self.spec_order_repository(),
    {
        &self.order_repository
    }

    /// The map directory.
    pub fn map_repository(&self) -> (r: &V)
        ensures
            *r == self.spec_map_repository(),
    {
        &self.map_repository
    }

    /// Picks the unit to send to an order at `order_node_id`, given the
    /// available units of the order's area and the area's nodes and road
    /// segments. The unit sent is the nearest by network distance, the first
    /// in `tow_trucks` among equally near ones; no unit is sent where none is
    /// reached within the dispatch distance.
    pub fn get_nearest_available_tow_trucks(
        &self,
        order_node_id: i32,
        tow_trucks: Vec<TowTruck>,
        nodes: Vec<Node>,
        edges: Vec<Edge>,
    ) -> (sent: Option<TowTruckDto>)
        requires
            forall|i: int| 0 <= i < edges@.len() ==> (#[trigger] edges@[i]).weight >= 0,
        ensures
            match sent {
                Some(dto) => exists|i: int|
                    is_dispatch_choice(network_of(edges@), order_node_id, tow_trucks@, i) && dto
                        == dto_of(#[trigger] tow_trucks@[i]),
                None => forall|i: int|
                    0 <= i < tow_trucks@.len() ==> !(reaches(
                        network_of(edges@),
                        order_node_id,
                        (#[trigger] tow_trucks@[i]).node_id,
                    ) && distance(network_of(edges@), order_node_id, tow_trucks@[i].node_id)
                        <= MAX_DISPATCH_DISTANCE),
            },
    {
        let mut tow_trucks = tow_trucks;
        let ghost trucks = tow_trucks@;
        let unit_count: usize = tow_trucks.len();
        let mut graph = Graph::new();
        let mut i: usize = 0;
        while i < nodes.len()
            invariant
                i <= nodes@.len(),
                graph.wf(),
                graph.adjacency() == Map::<i32, Seq<Edge>>::empty(),
            decreases nodes@.len() - i,
        {
            graph.add_node(nodes[i]);
            i += 1;
        }
        let mut j: usize = 0;
        while j < edges.len()
            invariant
                j <= edges@.len(),
                graph.wf(),
                graph.adjacency() == network_of(edges@.take(j as int)),
                forall|i: int| 0 <= i < edges@.len() ==> (#[trigger] edges@[i]).weight >= 0,
            decreases edges@.len() - j,
        {
            proof {
                assert(edges@.take(j + 1).drop_last() =~= edges@.take(j as int));
            }
            graph.add_edge(edges[j]);
            j += 1;
        }
        proof {
            assert(edges@.take(j as int) =~= edges@);
        }
        let ghost adj = graph.adjacency();
        let candidates = nearest_units(&graph, order_node_id, &tow_trucks);
        proof {
            assert(trucks.len() == unit_count);
            lemma_candidates(adj, order_node_id, trucks);
        }
        match choose_unit(&candidates) {
            Some(unit) => {
                proof {
                    let b = choose|b: int|
                        is_first_minimum(candidates@, b) && (#[trigger] candidates@[b]).0
                            <= MAX_DISPATCH_DISTANCE && candidates@[b].1 == unit;
                    assert forall|j: int|
                        0 <= j < trucks.len() && reaches(
                            adj,
                            order_node_id,
                            (#[trigger] trucks[j]).node_id,
                        ) implies distance(adj, order_node_id, trucks[unit as int].node_id)
                        <= distance(adj, order_node_id, trucks[j].node_id) && (j < unit
                        ==> distance(adj, order_node_id, trucks[unit as int].node_id) < distance(
                        adj,
                        order_node_id,
                        trucks[j].node_id,
                    )) by {
                        let k = choose|k: int|
                            0 <= k < candidates@.len() && (#[trigger] candidates@[k]).1 == j;
                        assert(candidates@[b].0 <= candidates@[k].0);
                        if j < unit {
                            if k >= b {
                                if k > b {
                                    assert(candidates@[b].1 < candidates@[k].1);
                                }
                            }
                            assert(k < b);
                            assert(candidates@[b].0 < candidates@[k].0);
                        }
                    }
                    assert(is_dispatch_choice(adj, order_node_id, trucks, unit as int));
                }
                let truck = tow_trucks.remove(unit);
                Some(TowTruckDto::from_entity(truck))
            },
            None => {
                proof {
                    assert forall|i: int| 0 <= i < trucks.len() implies !(reaches(
                        adj,
                        order_node_id,
                        (#[trigger] trucks[i]).node_id,
                    ) && distance(adj, order_node_id, trucks[i].node_id)
                        <= MAX_DISPATCH_DISTANCE) by {
                        if reaches(adj, order_node_id, trucks[i].node_id) {
                            let k = choose|k: int|
                                0 <= k < candidates@.len() && (#[trigger] candidates@[k]).1 == i;
                            assert(candidates@[k].0 > MAX_DISPATCH_DISTANCE);
                        }
                    }
                }
                None
            },
        }
    }
}

} // verus!
