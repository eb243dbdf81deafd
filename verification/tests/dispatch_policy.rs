use tow_dispatch::dispatch::{
    calculate_distance, choose_unit, choose_unit_within, nearest_units, select_nearest, TowTruck,
    TowTruckDto, TowTruckService, MAX_DISPATCH_DISTANCE,
};
use tow_dispatch::graph::{Edge, Graph, Node};

fn truck(id: i32, node_id: i32) -> TowTruck {
    TowTruck {
        id,
        driver_id: id + 100,
        driver_username: Some(format!("driver{}", id)),
        status: String::from("available"),
        node_id,
        area_id: 1,
    }
}

fn edge(a: i32, b: i32, w: i32) -> Edge {
    Edge { node_a_id: a, node_b_id: b, weight: w }
}

fn nodes(ids: &[i32]) -> Vec<Node> {
    ids.iter().map(|&id| Node { id, x: id, y: -id }).collect()
}

fn service() -> TowTruckService<(), (), ()> {
    TowTruckService::new((), (), ())
}

#[test]
fn threshold_is_ten_million() {
    assert_eq!(MAX_DISPATCH_DISTANCE, 10_000_000);
}

#[test]
fn service_keeps_its_directories() {
    let s = TowTruckService::new(1u8, String::from("orders"), vec![3i32]);
    assert_eq!(*s.tow_truck_repository(), 1u8);
    assert_eq!(s.order_repository().as_str(), "orders");
    assert_eq!(*s.map_repository(), vec![3i32]);
}

#[test]
fn from_entity_keeps_every_field() {
    let dto = TowTruckDto::from_entity(truck(3, 9));
    assert_eq!(dto.id, 3);
    assert_eq!(dto.driver_id, 103);
    assert_eq!(dto.driver_username, Some(String::from("driver3")));
    assert_eq!(dto.status, "available");
    assert_eq!(dto.node_id, 9);
    assert_eq!(dto.area_id, 1);
}

#[test]
fn select_nearest_takes_first_of_equal_minima() {
    assert_eq!(select_nearest(&vec![(12, 0), (7, 1), (7, 2)]), Some(1));
    assert_eq!(select_nearest(&vec![(7, 0), (12, 1), (7, 2)]), Some(0));
    assert_eq!(select_nearest(&vec![(9, 4)]), Some(0));
    assert_eq!(select_nearest(&vec![(9, 4), (8, 3), (7, 2)]), Some(2));
    assert_eq!(select_nearest(&vec![]), None);
}

#[test]
fn tie_goes_to_first_encountered() {
    assert_eq!(choose_unit(&vec![(12, 10), (7, 11), (7, 12)]), Some(11));
}

#[test]
fn all_candidates_too_far_sends_none() {
    assert_eq!(choose_unit(&vec![(10_000_001, 0), (20_000_000, 1), (i32::MAX - 1, 2)]), None);
}

#[test]
fn no_candidates_sends_none() {
    assert_eq!(choose_unit(&vec![]), None);
}

#[test]
fn threshold_itself_is_still_near_enough() {
    assert_eq!(choose_unit(&vec![(10_000_000, 5)]), Some(5));
    assert_eq!(choose_unit(&vec![(10_000_001, 5)]), None);
    assert_eq!(choose_unit(&vec![(10_000_001, 5), (3, 6)]), Some(6));
}

#[test]
fn dispatch_distance_can_be_set() {
    let candidates = vec![(12, 10), (7, 11), (7, 12)];
    assert_eq!(choose_unit_within(&candidates, 7), Some(11));
    assert_eq!(choose_unit_within(&candidates, 6), None);
    assert_eq!(choose_unit_within(&candidates, i32::MAX), Some(11));
    assert_eq!(choose_unit_within(&vec![], i32::MAX), None);
    assert_eq!(choose_unit_within(&vec![(0, 3)], 0), Some(3));
    assert_eq!(choose_unit_within(&vec![(0, 3)], -1), None);
}

#[test]
fn nearest_units_pairs_distance_with_place() {
    let mut g = Graph::new();
    g.add_edge(edge(1, 2, 5));
    g.add_edge(edge(2, 3, 5));
    let trucks = vec![truck(1, 3), truck(2, 8), truck(3, 2), truck(4, 3), truck(5, 1)];
    assert_eq!(nearest_units(&g, 1, &trucks), vec![(10, 0), (5, 2), (10, 3), (0, 4)]);
    assert_eq!(nearest_units(&g, 8, &trucks), vec![(0, 1)]);
    assert_eq!(nearest_units(&g, 1, &vec![]), Vec::<(i32, usize)>::new());
}

#[test]
fn calculate_distance_goes_through_the_cache() {
    let mut g = Graph::new();
    g.add_edge(edge(1, 2, 5));
    assert_eq!(calculate_distance(&mut g, 1, 2), 5);
    assert!(g.distances_cache.contains_key(&1));
    assert_eq!(calculate_distance(&mut g, 1, 3), i32::MAX);
}

#[test]
fn dispatch_sends_the_nearest_unit() {
    let sent = service().get_nearest_available_tow_trucks(
        1,
        vec![truck(1, 3), truck(2, 2), truck(3, 4)],
        nodes(&[1, 2, 3, 4]),
        vec![edge(1, 2, 5), edge(2, 3, 5)],
    );
    let sent = sent.map(|d| (d.id, d.node_id, d.driver_username));
    assert_eq!(sent, Some((2, 2, Some(String::from("driver2")))));
}

#[test]
fn dispatch_tie_goes_to_first_unit() {
    let sent = service().get_nearest_available_tow_trucks(
        2,
        vec![truck(1, 4), truck(2, 3), truck(3, 1), truck(4, 3)],
        nodes(&[1, 2, 3, 4]),
        vec![edge(1, 2, 7), edge(2, 3, 7), edge(3, 4, 5)],
    );
    assert_eq!(sent.map(|d| d.id), Some(2));
}

#[test]
fn dispatch_two_units_on_one_node() {
    let sent = service().get_nearest_available_tow_trucks(
        1,
        vec![truck(8, 2), truck(9, 2)],
        nodes(&[1, 2]),
        vec![edge(1, 2, 3)],
    );
    assert_eq!(sent.map(|d| d.id), Some(8));
}

#[test]
fn dispatch_rejects_units_beyond_the_threshold() {
    let sent = service().get_nearest_available_tow_trucks(
        1,
        vec![truck(1, 2), truck(2, 3)],
        nodes(&[1, 2, 3]),
        vec![edge(1, 2, 10_000_001), edge(2, 3, 1)],
    );
    assert!(sent.is_none());
}

#[test]
fn dispatch_without_units_sends_none() {
    let sent = service().get_nearest_available_tow_trucks(
        1,
        vec![],
        nodes(&[1, 2]),
        vec![edge(1, 2, 1)],
    );
    assert!(sent.is_none());
}

#[test]
fn dispatch_without_reachable_units_sends_none() {
    let sent = service().get_nearest_available_tow_trucks(
        1,
        vec![truck(1, 4)],
        nodes(&[1, 2, 4]),
        vec![edge(1, 2, 1)],
    );
    assert!(sent.is_none());
}

#[test]
fn dispatch_unit_on_the_order_node() {
    let sent = service().get_nearest_available_tow_trucks(
        6,
        vec![truck(1, 2), truck(2, 6)],
        nodes(&[]),
        vec![edge(6, 2, 1)],
    );
    assert_eq!(sent.map(|d| d.id), Some(2));
}
