//! Contact discovery: which pairs of nodes can exchange data, when, and at
//! what latency.

use vstd::prelude::*;
use std::collections::HashMap;
use crate::common::{
    calculate_euclid_distance, clamped, euclid_distance, SPEED_OF_LIGHT, TICKS_PER_SECOND,
};
use crate::simulation::diff::destinations;
use crate::simulation::graph::{enumerates, graph_view, node_ids, Contact};
use crate::simulation::satellite::Satellite;

verus! {

/// The range within which two nodes can exchange data, in metres.
pub const COMMUNICATION_RANGE: u64 = 1_000_000;

/// The distance between two nodes now.
pub open spec fn distance_now(a: Satellite, b: Satellite) -> u64 {
    clamped(euclid_distance(a.position, b.position))
}

/// The distance between two nodes after the lookahead horizon.
pub open spec fn distance_predicted(a: Satellite, b: Satellite) -> u64 {
    clamped(euclid_distance(a.predicted_position, b.predicted_position))
}

/// Two nodes are in contact where they are within communication range now
/// or will be after the lookahead horizon.
pub open spec fn in_contact(a: Satellite, b: Satellite) -> bool {
    distance_now(a, b) <= COMMUNICATION_RANGE || distance_predicted(a, b) <= COMMUNICATION_RANGE
}

/// The time that light takes over `distance` metres, in ticks, rounded down.
pub open spec fn light_delay(distance: u64) -> u64 {
    (distance * TICKS_PER_SECOND / (SPEED_OF_LIGHT as int)) as u64
}

/// The end of a window that opens at `start` and lasts `window`, held at the
/// end of the clock.
pub open spec fn window_end(start: u64, window: u64) -> u64 {
    if start + window > u64::MAX {
        u64::MAX
    } else {
        (start + window) as u64
    }
}

/// The smaller of two distances.
pub open spec fn nearer(a: u64, b: u64) -> u64 {
    if a <= b {
        a
    } else {
        b
    }
}

/// The contact from node `from`, sampled as `a`, to node `to`, sampled as
/// `b`: its window opens at `a`'s time to downlink and lasts `a`'s
/// communication window; its latency is the light delay over the smaller of
/// the present and the predicted distance.
pub open spec fn contact_between(from: u32, a: Satellite, to: u32, b: Satellite) -> Contact {
    Contact {
        from,
        destination: to,
        start_time: a.time_to_downlink,
        end_time: window_end(a.time_to_downlink, a.communication_window),
        latency: light_delay(nearer(distance_now(a, b), distance_predicted(a, b))),
    }
}

/// The contacts of node `a` to the first `k` nodes of `order`, in that order.
pub open spec fn contacts_among(sats: Map<u32, Satellite>, a: u32, order: Seq<u32>, k: int) -> Seq<
    Contact,
>
    decreases k,
{
    if k <= 0 {
        Seq::empty()
    } else {
        let earlier = contacts_among(sats, a, order, k - 1);
        let b = order[k - 1];
        if b != a && in_contact(sats[a], sats[b]) {
            earlier.push(contact_between(a, sats[a], b, sats[b]))
        } else {
            earlier
        }
    }
}

/// The contact graph of a snapshot: every node of the snapshot, with its
/// contacts to the others in the order `order`.
pub open spec fn discovered(sats: Map<u32, Satellite>, order: Seq<u32>) -> Map<u32, Seq<Contact>> {
    Map::new(
        |a: u32| sats.contains_key(a),
        |a: u32| contacts_among(sats, a, order, order.len() as int),
    )
}

/// Every discovered contact joins two different nodes of the snapshot that
/// are in contact, leaves the node it is listed under, and has a window that
/// is not reversed.
pub proof fn lemma_discovered_contacts(
    sats: Map<u32, Satellite>,
    a: u32,
    order: Seq<u32>,
    k: int,
    i: int,
)
    requires
        0 <= k <= order.len(),
        0 <= i < contacts_among(sats, a, order, k).len(),
    ensures
        ({
            let c = contacts_among(sats, a, order, k)[i];
            &&& c.well_formed()
            &&& c.from == a
            &&& exists|j: int|
                0 <= j < k && #[trigger] order[j] == c.destination && in_contact(
                    sats[a],
                    sats[order[j]],
                ) && c == contact_between(a, sats[a], order[j], sats[order[j]])
        }),
    decreases k,
{
    let earlier = contacts_among(sats, a, order, k - 1);
    if i < earlier.len() {
        lemma_discovered_contacts(sats, a, order, k - 1, i);
        let c = earlier[i];
        let j = choose|j: int|
            0 <= j < k - 1 && #[trigger] order[j] == c.destination && in_contact(
                sats[a],
                sats[order[j]],
            ) && c == contact_between(a, sats[a], order[j], sats[order[j]]);
        assert(order[j] == c.destination);
    } else {
        assert(order[k - 1] == contacts_among(sats, a, order, k)[i].destination);
    }
}

/// The nodes of the snapshot that node `a` is in contact with.
pub open spec fn neighbours(sats: Map<u32, Satellite>, a: u32) -> Set<u32> {
    Set::new(|b: u32| sats.contains_key(b) && b != a && in_contact(sats[a], sats[b]))
}

proof fn lemma_contacts_among_reach(
    sats: Map<u32, Satellite>,
    a: u32,
    order: Seq<u32>,
    k: int,
    j: int,
)
    requires
        0 <= j < k <= order.len(),
        order[j] != a,
        in_contact(sats[a], sats[order[j]]),
    ensures
        destinations(contacts_among(sats, a, order, k)).contains(order[j]),
    decreases k,
{
    let now = contacts_among(sats, a, order, k);
    if j < k - 1 {
        lemma_contacts_among_reach(sats, a, order, k - 1, j);
        let earlier = contacts_among(sats, a, order, k - 1);
        let i = choose|i: int|
            0 <= i < earlier.len() && (#[trigger] earlier[i]).destination == order[j];
        assert(now[i].destination == order[j]);
    } else {
        assert(now[now.len() - 1].destination == order[j]);
    }
}

/// Discovery lists, for each node, exactly the nodes it is in contact with,
/// each once.
pub proof fn lemma_discovered_neighbours(sats: Map<u32, Satellite>, order: Seq<u32>, a: u32)
    requires
        enumerates(order, sats.dom()),
        sats.contains_key(a),
    ensures
        destinations(discovered(sats, order)[a]) == neighbours(sats, a),
        forall|i: int, j: int|
            0 <= i < j < discovered(sats, order)[a].len() ==> (#[trigger] discovered(
                sats,
                order,
            )[a][i]).destination != (#[trigger] discovered(sats, order)[a][j]).destination,
{
    let list = discovered(sats, order)[a];
    let n = order.len() as int;
    assert(list == contacts_among(sats, a, order, n));
    assert forall|b: u32| destinations(list).contains(b) <==> neighbours(sats, a).contains(b) by {
        if destinations(list).contains(b) {
            let i = choose|i: int| 0 <= i < list.len() && (#[trigger] list[i]).destination == b;
            lemma_discovered_contacts(sats, a, order, n, i);
            let j = choose|j: int|
                0 <= j < n && #[trigger] order[j] == list[i].destination && in_contact(
                    sats[a],
                    sats[order[j]],
                ) && list[i] == contact_between(a, sats[a], order[j], sats[order[j]]);
            assert(order.to_set().contains(order[j]));
        }
        if neighbours(sats, a).contains(b) {
            assert(order.to_set().contains(b));
            let j = choose|j: int| 0 <= j < order.len() && order[j] == b;
            lemma_contacts_among_reach(sats, a, order, n, j);
        }
    }
    assert(destinations(list) =~= neighbours(sats, a));
    lemma_contacts_among_distinct(sats, a, order, n);
}

proof fn lemma_contacts_among_distinct(sats: Map<u32, Satellite>, a: u32, order: Seq<u32>, k: int)
    requires
        0 <= k <= order.len(),
        order.no_duplicates(),
    ensures
        forall|i: int, j: int|
            0 <= i < j < contacts_among(sats, a, order, k).len() ==> (#[trigger] contacts_among(
                sats,
                a,
                order,
                k,
            )[i]).destination != (#[trigger] contacts_among(sats, a, order, k)[j]).destination,
    decreases k,
{
    if k > 0 {
        lemma_contacts_among_distinct(sats, a, order, k - 1);
        let earlier = contacts_among(sats, a, order, k - 1);
        let now = contacts_among(sats, a, order, k);
        assert forall|i: int, j: int| 0 <= i < j < now.len() implies (#[trigger] now[i]).destination
            != (#[trigger] now[j]).destination by {
            if j < earlier.len() {
                assert(now[i] == earlier[i] && now[j] == earlier[j]);
            } else {
                assert(now[i] == earlier[i]);
                lemma_discovered_contacts(sats, a, order, k - 1, i);
                let m = choose|m: int|
                    0 <= m < k - 1 && #[trigger] order[m] == earlier[i].destination && in_contact(
                        sats[a],
                        sats[order[m]],
                    ) && earlier[i] == contact_between(a, sats[a], order[m], sats[order[m]]);
                assert(now[j].destination == order[k - 1]);
                assert(order[m] != order[k - 1]);
            }
        }
    }
}

/// The distance between two satellites after the lookahead horizon.
pub fn predict_future_distance(sat1: &Satellite, sat2: &Satellite) -> (r: u64)
    ensures
        r == distance_predicted(*sat1, *sat2),
{
    calculate_euclid_distance(&sat1.predicted_position, &sat2.predicted_position)
}

fn delay_over(distance: u64) -> (r: u64)
    ensures
        r == light_delay(distance),
{
    ((distance as u128) * (TICKS_PER_SECOND as u128) / (SPEED_OF_LIGHT as u128)) as u64
}

fn end_of_window(start: u64, window: u64) -> (r: u64)
    ensures
        r == window_end(start, window),
{
    if window > u64::MAX - start {
        u64::MAX
    } else {
        start + window
    }
}

/// The contact from `sat1`, listed as `id1`, to `sat2`, listed as `id2`, if
/// the two are in contact.
pub fn contact_if_in_range(id1: u32, sat1: &Satellite, id2: u32, sat2: &Satellite) -> (r: Option<
    Contact,
>)
    ensures
        r == (if in_contact(*sat1, *sat2) {
            Some(contact_between(id1, *sat1, id2, *sat2))
        } else {
            None
        }),
{
    let distance_btw_sats = calculate_euclid_distance(&sat1.position, &sat2.position);
    let predicted_distance = predict_future_distance(sat1, sat2);
    if distance_btw_sats <= COMMUNICATION_RANGE || predicted_distance <= COMMUNICATION_RANGE {
        let nearest = if distance_btw_sats <= predicted_distance {
            distance_btw_sats
        } else {
            predicted_distance
        };
        Some(
            Contact {
                from: id1,
                destination: id2,
                start_time: sat1.time_to_downlink,
                end_time: end_of_window(sat1.time_to_downlink, sat1.communication_window),
                latency: delay_over(nearest),
            },
        )
    } else {
        None
    }
}

/// Contact discovery: for every node of the snapshot, its contacts to the
/// other nodes that are in range now or after the lookahead horizon. The
/// nodes are gone through in the order in which the map hands them out.
pub fn create_satellites_map(satellites: &HashMap<u32, Satellite>) -> (connections: HashMap<
    u32,
    Vec<Contact>,
>)
    ensures
        exists|order: Seq<u32>|
            enumerates(order, satellites@.dom()) && graph_view(connections@)
                == #[trigger] discovered(satellites@, order),
{
    broadcast use vstd::std_specs::hash::group_hash_axioms;

    let ids = node_ids(satellites);
    let ghost sats = satellites@;
    let ghost order = ids@;
    let mut connections: HashMap<u32, Vec<Contact>> = HashMap::new();
    let mut i: usize = 0;
    while i < ids.len()
        invariant
            i <= ids.len(),
            sats == satellites@,
            order == ids@,
            enumerates(order, sats.dom()),
            graph_view(connections@) =~= Map::new(
                |a: u32| order.take(i as int).contains(a),
                |a: u32| contacts_among(sats, a, order, order.len() as int),
            ),
        decreases ids.len() - i,
    {
        let id1 = ids[i];
        let ghost before = graph_view(connections@);
        assert(order.to_set().contains(id1));
        let mut contact_list: Vec<Contact> = Vec::new();
        match satellites.get(&id1) {
            Some(sat1) => {
                let mut j: usize = 0;
                while j < ids.len()
                    invariant
                        j <= ids.len(),
                        sats == satellites@,
                        order == ids@,
                        enumerates(order, sats.dom()),
                        sats.contains_key(id1),
                        *sat1 == sats[id1],
                        contact_list@ == contacts_among(sats, id1, order, j as int),
                    decreases ids.len() - j,
                {
                    let id2 = ids[j];
                    assert(order.to_set().contains(id2));
                    if id1 != id2 {
                        match satellites.get(&id2) {
                            Some(sat2) => {
                                match contact_if_in_range(id1, sat1, id2, sat2) {
                                    Some(contact) => {
                                        contact_list.push(contact);
                                    },
                                    None => {},
                                }
                            },
                            None => {},
                        }
                    }
                    j += 1;
                }
            },
            None => {},
        }
        connections.insert(id1, contact_list);
        proof {
            let after = graph_view(connections@);
            let seen = order.take(i as int);
            let now = order.take(i + 1);
            assert(now =~= seen.push(id1));
            assert forall|a: u32| after.contains_key(a) <==> now.contains(a) by {
                assert(before.contains_key(a) <==> seen.contains(a));
                assert(after.contains_key(a) <==> (a == id1 || before.contains_key(a)));
                if a == id1 {
                    assert(now[i as int] == id1);
                } else if seen.contains(a) {
                    let k = choose|k: int| 0 <= k < seen.len() && seen[k] == a;
                    assert(now[k] == a);
                } else if now.contains(a) {
                    let k = choose|k: int| 0 <= k < now.len() && now[k] == a;
                    assert(seen[k] == a);
                }
            }
            assert forall|a: u32| after.contains_key(a) implies after[a] == contacts_among(
                sats,
                a,
                order,
                order.len() as int,
            ) by {
                if a != id1 {
                    assert(before.contains_key(a));
                    assert(after[a] == before[a]);
                }
            }
            assert(after =~= Map::new(
                |a: u32| now.contains(a),
                |a: u32| contacts_among(sats, a, order, order.len() as int),
            ));
        }
        i += 1;
    }
    proof {
        assert(order.take(ids.len() as int) =~= order);
        assert forall|a: u32| order.contains(a) <==> sats.contains_key(a) by {
            assert(order.to_set().contains(a) <==> order.contains(a));
        }
        assert(graph_view(connections@) =~= discovered(sats, order));
    }
    connections
}

} // verus!
