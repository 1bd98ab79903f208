use satellite_simulation::simulation::cgr::{RouteNode, CGR, DEFAULT_MAX_HOPS};
use satellite_simulation::simulation::graph::Contact;

const A: u32 = 1;
const B: u32 = 2;
const C: u32 = 3;
const D: u32 = 4;

fn contact(from: u32, destination: u32, start_time: u64, end_time: u64, latency: u64) -> Contact {
    Contact::new(from, destination, start_time, end_time, latency).unwrap()
}

fn found(engine: &CGR, source: u32, destination: u32, departure: u64) -> (Vec<u32>, u64) {
    let route = engine.find_best_route(source, destination, departure).unwrap();
    assert_eq!(route.id, destination);
    (route.path, route.arrival_time)
}

#[test]
fn three_node_relay_reaches_ground() {
    let engine = CGR::new(vec![contact(A, B, 0, 10, 1), contact(B, C, 2, 12, 1)]);
    let route = engine.find_best_route(A, C, 0).unwrap();
    assert_eq!(route.path, vec![A, B, C]);
    assert_eq!(route.id, C);
    // A leaves at 0 and is at B at 1; B waits for its window to open at 2 and is at C at 3.
    assert_eq!(route.arrival_time, 3);
}

#[test]
fn no_contact_to_ground_means_no_route() {
    let engine = CGR::new(vec![contact(A, B, 0, 10, 1), contact(B, A, 0, 10, 1)]);
    assert!(engine.find_best_route(A, C, 0).is_none());
    assert!(engine.find_best_route(B, C, 5).is_none());
    let empty = CGR::new(Vec::new());
    assert!(empty.find_best_route(A, C, 0).is_none());
}

#[test]
fn contact_arrival_follows_the_window() {
    let c = contact(A, B, 5, 20, 3);
    // Ready before the window opens: leave at 5.
    assert_eq!(c.arrival(0), Some(8));
    // Ready inside the window: leave at once.
    assert_eq!(c.arrival(10), Some(13));
    // Arrival exactly at the end of the window is still inside.
    assert_eq!(c.arrival(17), Some(20));
    assert_eq!(c.arrival(18), None);
    assert_eq!(c.arrival(u64::MAX), None);
    // A latency that does not fit in the window, or in the clock.
    assert_eq!(contact(A, B, 0, 10, 11).arrival(0), None);
    assert_eq!(contact(A, B, 0, u64::MAX, u64::MAX).arrival(1), None);
    assert_eq!(contact(A, B, 0, u64::MAX, u64::MAX).arrival(0), Some(u64::MAX));
    assert_eq!(contact(A, B, 7, 7, 0).arrival(3), Some(7));
}

#[test]
fn contact_must_join_two_nodes_and_have_an_ordered_window() {
    assert!(Contact::new(A, A, 0, 10, 1).is_none());
    assert!(Contact::new(A, B, 11, 10, 1).is_none());
    let c = Contact::new(A, B, 10, 10, 0).unwrap();
    assert_eq!(
        c,
        Contact { from: A, destination: B, start_time: 10, end_time: 10, latency: 0 }
    );
}

#[test]
fn route_to_oneself_is_the_source_alone() {
    let engine = CGR::new(vec![contact(A, B, 0, 10, 1)]);
    assert_eq!(found(&engine, A, A, 4), (vec![A], 4));
    // Also for a node that the graph does not list.
    assert_eq!(found(&engine, D, D, 9), (vec![D], 9));
}

#[test]
fn earliest_arrival_wins_over_fewer_hops() {
    let engine = CGR::new(vec![
        contact(A, C, 0, 100, 50),
        contact(A, B, 0, 100, 1),
        contact(B, C, 0, 100, 1),
    ]);
    assert_eq!(found(&engine, A, C, 0), (vec![A, B, C], 2));
}

#[test]
fn equal_arrival_prefers_the_shorter_path() {
    let engine = CGR::new(vec![
        contact(A, B, 0, 100, 1),
        contact(B, C, 0, 100, 1),
        contact(A, C, 0, 100, 2),
    ]);
    assert_eq!(found(&engine, A, C, 0), (vec![A, C], 2));
}

#[test]
fn equal_arrival_and_length_prefers_the_lower_node() {
    // B and D are both reached at 1; the lower id is expanded first, so its
    // candidate for C enters the frontier first and is the one returned.
    let engine = CGR::new(vec![
        contact(A, D, 0, 100, 1),
        contact(A, B, 0, 100, 1),
        contact(D, C, 0, 100, 1),
        contact(B, C, 0, 100, 1),
    ]);
    assert_eq!(found(&engine, A, C, 0), (vec![A, B, C], 2));
}

#[test]
fn frontier_order_is_arrival_then_length_then_node() {
    let entry = |id: u32, arrival_time: u64, path: Vec<u32>| RouteNode { id, arrival_time, path };
    let early = entry(9, 1, vec![A, B, C, 9]);
    let late = entry(1, 2, vec![A, 1]);
    assert!(early.comes_before(&late));
    assert!(!late.comes_before(&early));
    let short = entry(9, 2, vec![A, 9]);
    let long = entry(1, 2, vec![A, B, 1]);
    assert!(short.comes_before(&long));
    assert!(!long.comes_before(&short));
    let low = entry(3, 2, vec![A, 3]);
    let high = entry(4, 2, vec![A, 4]);
    assert!(low.comes_before(&high));
    assert!(!high.comes_before(&low));
    // Equal in all three: neither comes before the other.
    let twin = entry(3, 2, vec![B, 3]);
    assert!(!low.comes_before(&twin));
    assert!(!twin.comes_before(&low));
}

#[test]
fn found_route_visits_no_node_twice() {
    let engine = CGR::new(pseudo_random_links(8, 40, 5));
    for source in 0..8 {
        for destination in 0..8 {
            if let Some(route) = engine.find_best_route(source, destination, 0) {
                let mut seen = route.path.clone();
                seen.sort();
                seen.dedup();
                assert_eq!(seen.len(), route.path.len());
            }
        }
    }
}

#[test]
fn closed_window_is_not_crossed() {
    let engine = CGR::new(vec![
        contact(A, B, 0, 10, 1),
        contact(B, C, 0, 1, 1),
        contact(B, D, 0, 50, 5),
        contact(D, C, 0, 50, 5),
    ]);
    // At B at 1: B to C would arrive at 2, after its window closed at 1.
    assert_eq!(found(&engine, A, C, 0), (vec![A, B, D, C], 11));
    // Departing later the first window is missed too.
    assert!(engine.find_best_route(A, C, 10).is_none());
    assert_eq!(found(&engine, A, C, 9), (vec![A, B, D, C], 20));
}

#[test]
fn hop_cap_cuts_longer_paths() {
    let links = vec![contact(A, B, 0, 10, 1), contact(B, C, 0, 10, 1), contact(C, D, 0, 10, 1)];
    let engine = CGR::new(links.clone());
    assert_eq!(found(&engine, A, D, 0), (vec![A, B, C, D], 3));
    let capped = CGR::new(links.clone()).with_max_hops(2);
    assert!(capped.find_best_route(A, D, 0).is_none());
    assert_eq!(found(&capped, A, C, 0), (vec![A, B, C], 2));
    let none = CGR::new(links).with_max_hops(0);
    assert!(none.find_best_route(A, B, 0).is_none());
    assert_eq!(found(&none, A, A, 0), (vec![A], 0));
    assert_eq!(DEFAULT_MAX_HOPS, 64);
}

#[test]
fn cycles_do_not_trap_the_search() {
    let engine = CGR::new(vec![
        contact(A, B, 0, 100, 1),
        contact(B, A, 0, 100, 1),
        contact(B, C, 0, 100, 1),
        contact(C, A, 0, 100, 1),
        contact(C, B, 0, 100, 1),
    ]);
    assert_eq!(found(&engine, A, C, 0), (vec![A, B, C], 2));
    assert!(engine.find_best_route(A, D, 0).is_none());
}

#[test]
fn parallel_contacts_use_the_one_that_is_open() {
    let engine = CGR::new(vec![contact(A, B, 0, 3, 1), contact(A, B, 20, 30, 1)]);
    assert_eq!(found(&engine, A, B, 0), (vec![A, B], 1));
    assert_eq!(found(&engine, A, B, 5), (vec![A, B], 21));
    assert!(engine.find_best_route(A, B, 30).is_none());
}

#[test]
fn repeated_searches_give_the_same_route() {
    let engine = CGR::new(pseudo_random_links(7, 40, 11));
    for departure in [0u64, 3, 17] {
        let first = engine.find_best_route(0, 6, departure);
        for _ in 0..5 {
            let again = engine.find_best_route(0, 6, departure);
            match (&first, &again) {
                (Some(a), Some(b)) => {
                    assert_eq!(a.path, b.path);
                    assert_eq!(a.arrival_time, b.arrival_time);
                    assert_eq!(a.id, b.id);
                }
                (None, None) => {}
                _ => panic!("one search found a route and the other none"),
            }
        }
    }
}

fn pseudo_random_links(nodes: u32, count: usize, seed: u64) -> Vec<Contact> {
    let mut state = seed;
    let mut next = move |bound: u64| {
        state = state.wrapping_mul(6364136223846793005).wrapping_add(1442695040888963407);
        (state >> 33) % bound
    };
    let mut links = Vec::new();
    while links.len() < count {
        let from = next(nodes as u64) as u32;
        let to = next(nodes as u64) as u32;
        if from == to {
            continue;
        }
        let start = next(30);
        let end = start + next(30);
        let latency = next(6);
        links.push(contact(from, to, start, end, latency));
    }
    links
}

/// Earliest arrival at `destination` over all paths without a repeated node.
fn earliest_by_exhaustion(
    links: &[Contact],
    at: u32,
    ready: u64,
    destination: u32,
    visited: &mut Vec<u32>,
) -> Option<u64> {
    if at == destination {
        return Some(ready);
    }
    let mut best: Option<u64> = None;
    for link in links.iter().filter(|l| l.from == at) {
        if visited.contains(&link.destination) {
            continue;
        }
        let leave = ready.max(link.start_time);
        let arrive = match leave.checked_add(link.latency) {
            Some(t) if t <= link.end_time => t,
            _ => continue,
        };
        visited.push(link.destination);
        let reached = earliest_by_exhaustion(links, link.destination, arrive, destination, visited);
        visited.pop();
        best = match (best, reached) {
            (Some(b), Some(r)) => Some(b.min(r)),
            (None, r) => r,
            (b, None) => b,
        };
    }
    best
}

fn assert_feasible(links: &[Contact], route: &RouteNode, source: u32, departure: u64) {
    assert_eq!(route.path[0], source);
    assert_eq!(*route.path.last().unwrap(), route.id);
    // Some choice of contacts along the path gives the reported arrival with
    // every hop inside its window.
    let mut ready: Vec<u64> = vec![departure];
    for hop in route.path.windows(2) {
        let mut reached: Vec<u64> = Vec::new();
        for &t in &ready {
            for link in links.iter().filter(|l| l.from == hop[0] && l.destination == hop[1]) {
                let leave = t.max(link.start_time);
                if let Some(arrive) = leave.checked_add(link.latency) {
                    if arrive <= link.end_time {
                        reached.push(arrive);
                    }
                }
            }
        }
        assert!(!reached.is_empty(), "hop {:?} is outside every window", hop);
        ready = reached;
    }
    assert!(ready.contains(&route.arrival_time));
}

#[test]
fn search_agrees_with_exhaustive_enumeration() {
    for seed in 1..60u64 {
        let nodes = 6;
        let links = pseudo_random_links(nodes, 14, seed);
        let engine = CGR::new(links.clone());
        for source in 0..nodes {
            for destination in 0..nodes {
                for departure in [0u64, 10, 25] {
                    let expected = earliest_by_exhaustion(
                        &links,
                        source,
                        departure,
                        destination,
                        &mut vec![source],
                    );
                    let got = engine.find_best_route(source, destination, departure);
                    assert_eq!(got.as_ref().map(|r| r.arrival_time), expected);
                    if let Some(route) = got {
                        assert_feasible(&links, &route, source, departure);
                        assert!(route.path.len() - 1 <= DEFAULT_MAX_HOPS);
                    }
                }
            }
        }
    }
}
