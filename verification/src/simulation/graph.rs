//! Contacts, and the network that holds the latest samples with the contact
//! graph of the last update.

use vstd::prelude::*;
use std::collections::HashMap;
use vstd::std_specs::iter::IteratorSpec;
use crate::common::copy_of;
use crate::routing::heuristics::{chosen_relay, find_best_relay, lemma_best_candidate_is_least};
use crate::simulation::diff::{changes_described, graph_changes};
use crate::simulation::route_model::contacts_of;
use crate::simulation::satellite::{
    distance_to_ground, random_between, relay_score, Satellite, MAX_ENERGY_CAPACITY,
    MAX_ONBOARD_STORAGE,
};
use crate::simulation::tracking::{create_satellites_map, discovered};

verus! {

/// A directed, time-windowed opportunity for `from` to transmit to
/// `destination`. All times are in ticks of the simulation clock.
#[derive(Clone, Copy, Debug, PartialEq, Eq, Structural)]
pub struct Contact {
    pub from: u32,
    pub destination: u32,
    pub start_time: u64,
    pub end_time: u64,
    pub latency: u64,
}

/// The later of two instants.
pub open spec fn later(a: int, b: int) -> int {
    if a >= b {
        a
    } else {
        b
    }
}

impl Contact {
    /// A contact joins two different nodes and its window is not reversed.
    pub open spec fn well_formed(&self) -> bool {
        &&& self.from != self.destination
        &&& self.start_time <= self.end_time
    }

    /// The instant at which data that is ready to leave at `ready` reaches
    /// the far end: transmission waits for the window to open, then takes
    /// `latency`.
    pub open spec fn arrival_spec(&self, ready: int) -> int {
        later(ready, self.start_time as int) + self.latency
    }

    /// Data ready at `ready` can cross iff it arrives before the window
    /// closes.
    pub open spec fn usable_at(&self, ready: int) -> bool {
        self.arrival_spec(ready) <= self.end_time
    }

    /// Builds a contact, or `None` where the endpoints coincide or the
    /// window is reversed.
    pub fn new(from: u32, destination: u32, start_time: u64, end_time: u64, latency: u64) -> (r:
        Option<Contact>)
        ensures
            r == (if from != destination && start_time <= end_time {
                Some(Contact { from, destination, start_time, end_time, latency })
            } else {
                None
            }),
    {
        if from != destination && start_time <= end_time {
            Some(Contact { from, destination, start_time, end_time, latency })
        } else {
            None
        }
    }

    /// The arrival instant over this contact for data ready at `ready`, or
    /// `None` where the hop does not fit in the window.
    pub fn arrival(&self, ready: u64) -> (r: Option<u64>)
        ensures
            r == (if self.usable_at(ready as int) {
                Some(self.arrival_spec(ready as int) as u64)
            } else {
                None
            }),
    {
        let leave: u64 = if ready >= self.start_time {
            ready
        } else {
            self.start_time
        };
        if leave <= self.end_time && self.latency <= self.end_time - leave {
            Some(leave + self.latency)
        } else {
            None
        }
    }
}

/// A stored adjacency as a map from each node to its contacts in order.
pub open spec fn graph_view(m: Map<u32, Vec<Contact>>) -> Map<u32, Seq<Contact>> {
    m.map_values(|v: Vec<Contact>| v@)
}

/// `order` lists the elements of `nodes`, each once.
pub open spec fn enumerates(order: Seq<u32>, nodes: Set<u32>) -> bool {
    order.no_duplicates() && order.to_set() == nodes
}

/// What one node's update of the contact graph tells its observers.
#[derive(Clone, Debug)]
pub enum GraphEvent {
    /// The node is listed for the first time, with these neighbours.
    NodeJoined { node: u32, neighbors: Vec<u32> },
    /// The set of nodes that `node` can transmit to has changed.
    ContactsChanged { node: u32, gained: Vec<u32>, lost: Vec<u32> },
}

/// The keys of a map, each once, in the order in which the map hands them
/// out.
pub fn node_ids<V>(m: &HashMap<u32, V>) -> (ids: Vec<u32>)
    ensures
        enumerates(ids@, m@.dom()),
{
    broadcast use vstd::std_specs::hash::group_hash_axioms;

    let mut ids: Vec<u32> = Vec::new();
    let keys = m.keys();
    let ghost all = keys.remaining();
    for k in it: keys
        invariant
            it.seq() == all,
            ids@.len() == it.index(),
            forall|i: int| 0 <= i < ids@.len() ==> ids@[i] == *it.seq()[i],
    {
        ids.push(*k);
    }
    proof {
        broadcast use vstd::std_specs::hash::axiom_spec_keys_iter;

        assert(ids@ =~= all.unref());
    }
    ids
}

/// The mesh: the latest sample of every node, and the contact graph of the
/// last update.
pub struct SatelliteNetwork {
    satellites: HashMap<u32, Satellite>,
    connections_graph: HashMap<u32, Vec<Contact>>,
}

/// Speed of a satellite in low orbit, in metres per second.
pub const ORBITAL_VELOCITY: u64 = 7_800;

/// Generated satellites lie within this distance of the origin along each
/// axis: the radius of the highest low orbit, in metres.
pub const GENERATION_REACH: i64 = 8_371_000;

/// What holds of the satellite generated under `id`: it lies within reach of
/// the origin, moves at orbital velocity, is predicted to stay where it is,
/// has storage and energy within their bounds, and no downlink times yet.
pub open spec fn generated(sat: Satellite, id: u32) -> bool {
    &&& sat.id == id
    &&& -GENERATION_REACH <= sat.position.0 < GENERATION_REACH
    &&& -GENERATION_REACH <= sat.position.1 < GENERATION_REACH
    &&& sat.predicted_position == sat.position
    &&& sat.velocity == ORBITAL_VELOCITY
    &&& 500 <= sat.storage_on_board < MAX_ONBOARD_STORAGE
    &&& 50 <= sat.energy_efficiency < MAX_ENERGY_CAPACITY
    &&& sat.time_to_downlink == 0
    &&& sat.communication_window == 0
}

/// `sats` after the first `k` of `added` are listed, each under its id.
pub open spec fn with_all(sats: Map<u32, Satellite>, added: Seq<Satellite>, k: int) -> Map<
    u32,
    Satellite,
>
    decreases k,
{
    if k <= 0 {
        sats
    } else {
        with_all(sats, added, k - 1).insert(added[k - 1].id, added[k - 1])
    }
}

/// The samples of the nodes of `order`, in that order.
pub open spec fn samples(sats: Map<u32, Satellite>, order: Seq<u32>) -> Seq<Satellite> {
    order.map_values(|id: u32| sats[id])
}

/// Every sample is listed under its own id.
pub open spec fn listed_under_own_ids(sats: Map<u32, Satellite>) -> bool {
    forall|id: u32| sats.contains_key(id) ==> (#[trigger] sats[id]).id == id
}

/// The relay or, where the fallback chooses none, the source itself.
pub open spec fn relay_or_self(source_id: u32, relay: Option<u32>) -> u32 {
    match relay {
        Some(id) => id,
        None => source_id,
    }
}

impl SatelliteNetwork {
    /// The network lists every sample under the sample's own id.
    #[verifier::type_invariant]
    spec fn well_formed(&self) -> bool {
        listed_under_own_ids(self.satellites@)
    }

    /// The latest sample of every node, by node id.
    pub closed spec fn satellites(&self) -> Map<u32, Satellite> {
        self.satellites@
    }

    /// The contact graph of the last update.
    pub closed spec fn graph(&self) -> Map<u32, Seq<Contact>> {
        graph_view(self.connections_graph@)
    }

    /// A network without nodes.
    pub fn new() -> (r: SatelliteNetwork)
        ensures
            r.satellites() == Map::<u32, Satellite>::empty(),
            r.graph() == Map::<u32, Seq<Contact>>::empty(),
            listed_under_own_ids(r.satellites()),
    {
        let r = SatelliteNetwork { satellites: HashMap::new(), connections_graph: HashMap::new() };
        r
    }

    /// Lists `sat` under its id; an earlier sample of the same node is
    /// replaced.
    pub fn add_satellite(&mut self, sat: &Satellite)
        ensures
            final(self).satellites() == old(self).satellites().insert(sat.id, *sat),
            final(self).graph() == old(self).graph(),
            listed_under_own_ids(final(self).satellites()),
    {
        broadcast use vstd::std_specs::hash::group_hash_axioms;

        proof {
            use_type_invariant(&*self);
        }
        let mut satellites: HashMap<u32, Satellite> = HashMap::new();
        std::mem::swap(&mut self.satellites, &mut satellites);
        satellites.insert(sat.id, *sat);
        std::mem::swap(&mut self.satellites, &mut satellites);
    }

    /// Lists each of `satellites` under its id, in order.
    pub fn add_satellites(&mut self, satellites: &Vec<Satellite>)
        ensures
            final(self).satellites() == with_all(
                old(self).satellites(),
                satellites@,
                satellites.len() as int,
            ),
            final(self).graph() == old(self).graph(),
            listed_under_own_ids(final(self).satellites()),
    {
        proof {
            use_type_invariant(&*self);
        }
        let mut i: usize = 0;
        while i < satellites.len()
            invariant
                i <= satellites.len(),
                listed_under_own_ids(self.satellites()),
                self.satellites() == with_all(old(self).satellites(), satellites@, i as int),
                self.graph() == old(self).graph(),
            decreases satellites.len() - i,
        {
            self.add_satellite(&satellites[i]);
            i += 1;
        }
    }

    /// The latest sample of node `id`, if the network lists it.
    pub fn get_satellite(&self, id: u32) -> (r: Option<Satellite>)
        ensures
            r == (if self.satellites().contains_key(id) {
                Some(self.satellites()[id])
            } else {
                None
            }),
            r matches Some(sat) ==> sat.id == id,
            listed_under_own_ids(self.satellites()),
    {
        broadcast use vstd::std_specs::hash::group_hash_axioms;

        proof {
            use_type_invariant(self);
        }
        match self.satellites.get(&id) {
            Some(sat) => Some(*sat),
            None => None,
        }
    }

    /// The latest sample of every node, each once, in the order in which the
    /// map hands the nodes out.
    pub fn get_satellites(&self) -> (r: Vec<Satellite>)
        ensures
            exists|order: Seq<u32>|
                enumerates(order, self.satellites().dom()) && r@ == #[trigger] samples(
                    self.satellites(),
                    order,
                ),
    {
        broadcast use vstd::std_specs::hash::group_hash_axioms;

        let ids = node_ids(&self.satellites);
        let mut r: Vec<Satellite> = Vec::new();
        let mut i: usize = 0;
        while i < ids.len()
            invariant
                i <= ids.len(),
                enumerates(ids@, self.satellites().dom()),
                r@ == samples(self.satellites(), ids@.take(i as int)),
            decreases ids.len() - i,
        {
            match self.satellites.get(&ids[i]) {
                Some(sat) => {
                    r.push(*sat);
                },
                None => {},
            }
            i += 1;
        }
        assert(ids@.take(ids.len() as int) =~= ids@);
        r
    }

    /// The contacts of node `id` in the graph of the last update; none where
    /// the graph does not list the node.
    pub fn get_contacts(&self, id: u32) -> (r: Vec<Contact>)
        ensures
            r@ == contacts_of(self.graph(), id),
    {
        broadcast use vstd::std_specs::hash::group_hash_axioms;

        match self.connections_graph.get(&id) {
            Some(contacts) => copy_of(contacts.as_slice()),
            None => Vec::new(),
        }
    }

    /// A copy of the contact graph of the last update.
    pub fn contact_graph(&self) -> (r: HashMap<u32, Vec<Contact>>)
        ensures
            graph_view(r@) == self.graph(),
    {
        self.connections_graph.clone()
    }

    /// Recomputes the contacts of every node from the latest samples and
    /// replaces the stored graph by the result, whole. Returns the events
    /// that tell how the new graph differs from the one before.
    pub fn update_satellite_graph(&mut self) -> (events: Vec<GraphEvent>)
        ensures
            final(self).satellites() == old(self).satellites(),
            exists|order: Seq<u32>|
                enumerates(order, old(self).satellites().dom()) && final(self).graph()
                    == #[trigger] discovered(old(self).satellites(), order),
            changes_described(events@, old(self).graph(), final(self).graph()),
            listed_under_own_ids(final(self).satellites()),
    {
        proof {
            use_type_invariant(&*self);
        }
        let updated_graph = create_satellites_map(&self.satellites);
        let ghost order = choose|order: Seq<u32>|
            enumerates(order, self.satellites@.dom()) && graph_view(updated_graph@)
                == #[trigger] discovered(self.satellites@, order);
        let events = graph_changes(&self.connections_graph, &updated_graph);
        self.connections_graph = updated_graph;
        assert(self.graph() == discovered(old(self).satellites(), order));
        events
    }

    /// Adds `num_satellites` satellites with the ids from 0 on, each at a
    /// random place of the square that reaches `GENERATION_REACH` from the
    /// origin along each axis.
    pub fn generate_satellite_network(&mut self, num_satellites: u32)
        ensures
            final(self).graph() == old(self).graph(),
            forall|id: u32|
                final(self).satellites().contains_key(id) <==> (id < num_satellites || old(
                    self
                ).satellites().contains_key(id)),
            forall|id: u32|
                id >= num_satellites && old(self).satellites().contains_key(id) ==> final(
                    self
                ).satellites()[id] == old(self).satellites()[id],
            forall|id: u32|
                id < num_satellites ==> generated(#[trigger] final(self).satellites()[id], id),
            listed_under_own_ids(final(self).satellites()),
    {
        proof {
            use_type_invariant(&*self);
        }
        let mut num: u32 = 0;
        while num < num_satellites
            invariant
                num <= num_satellites,
                listed_under_own_ids(self.satellites()),
                self.graph() == old(self).graph(),
                forall|id: u32|
                    self.satellites().contains_key(id) <==> (id < num || old(
                        self
                    ).satellites().contains_key(id)),
                forall|id: u32|
                    id >= num && old(self).satellites().contains_key(id) ==> self.satellites()[id]
                        == old(self).satellites()[id],
                forall|id: u32| id < num ==> generated(#[trigger] self.satellites()[id], id),
            decreases num_satellites - num,
        {
            let x = random_between(-GENERATION_REACH, GENERATION_REACH);
            let y = random_between(-GENERATION_REACH, GENERATION_REACH);
            let sat = Satellite::new(num, (x, y), ORBITAL_VELOCITY);
            self.add_satellite(&sat);
            num += 1;
        }
    }

    /// The fallback relay for node `source_satellite_id`: the relay that the
    /// heuristic chooses among the nodes of the network, or the node itself
    /// where it chooses none. `None` where the network does not list the
    /// node.
    pub fn find_best_relay(&self, source_satellite_id: u32, ground_position: (i64, i64)) -> (r:
        Option<u32>)
        ensures
            listed_under_own_ids(self.satellites()),
            !self.satellites().contains_key(source_satellite_id) ==> r is None,
            r matches Some(relay) ==> self.satellites().contains_key(relay),
            match r {
                Some(relay) => relay != source_satellite_id ==> {
                    &&& distance_to_ground(self.satellites()[relay], ground_position)
                        < distance_to_ground(
                        self.satellites()[source_satellite_id],
                        ground_position,
                    )
                    &&& forall|id: u32|
                        self.satellites().contains_key(id) && id != source_satellite_id
                            ==> relay_score(self.satellites()[relay], ground_position)
                            <= relay_score(#[trigger] self.satellites()[id], ground_position)
                },
                None => true,
            },
            self.satellites().contains_key(source_satellite_id) ==> exists|order: Seq<u32>|
                enumerates(order, self.satellites().dom()) && r == Some(
                    relay_or_self(
                        source_satellite_id,
                        chosen_relay(
                            self.satellites()[source_satellite_id],
                            #[trigger] samples(self.satellites(), order),
                            ground_position,
                        ),
                    ),
                ),
    {
        proof {
            use_type_invariant(self);
        }
        match self.get_satellite(source_satellite_id) {
            Some(source) => {
                let others = self.get_satellites();
                proof {
                    let sats = self.satellites();
                    let order = choose|order: Seq<u32>|
                        enumerates(order, sats.dom()) && others@ == #[trigger] samples(sats, order);
                    lemma_best_candidate_is_least(
                        others@,
                        source.id,
                        ground_position,
                        others@.len() as int,
                    );
                    assert forall|j: int| 0 <= j < order.len() implies sats.contains_key(
                        #[trigger] order[j],
                    ) && others@[j] == sats[order[j]] by {
                        assert(order.to_set().contains(order[j]));
                    }
                    assert forall|id: u32| sats.contains_key(id) implies exists|j: int|
                        0 <= j < order.len() && #[trigger] order[j] == id by {
                        assert(order.to_set().contains(id));
                    }
                }
                match find_best_relay(&source, &others, ground_position) {
                    Some(relay) => Some(relay),
                    None => Some(source_satellite_id),
                }
            },
            None => None,
        }
    }
}

} // verus!
