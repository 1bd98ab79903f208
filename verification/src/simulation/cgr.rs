//! The route engine: a time-expanded least-arrival search over the contact
//! graph, and the steps that take a delivery from discovery to transmission.

use vstd::prelude::*;
use std::collections::HashMap;
use crate::common::copy_of;
use crate::simulation::delivery::{
    applied, follows, CGREvent, CGRState, DeliveryTask, RoutingError,
};
use crate::simulation::graph::{graph_view, Contact, SatelliteNetwork};
use crate::simulation::route_laws::{lemma_route_correct, route_is_correct};
use crate::simulation::route_model::{
    contacts_of, expand, first_min, initial, lemma_step_decreases, pending, precedes, route_of,
    run, successor, Candidate, SearchState,
};

verus! {

/// A frontier entry of the route search, and the form in which a found route
/// is returned: the node reached, the instant of arrival there, and the
/// nodes visited from the source on, the node itself last.
#[derive(Debug, Clone)]
pub struct RouteNode {
    pub id: u32,
    pub arrival_time: u64,
    pub path: Vec<u32>,
}

impl View for RouteNode {
    type V = Candidate;

    open spec fn view(&self) -> Candidate {
        Candidate { node: self.id, arrival: self.arrival_time, path: self.path@ }
    }
}

/// The frontier as the model sees it.
pub open spec fn frontier_view(f: Seq<RouteNode>) -> Seq<Candidate> {
    f.map_values(|n: RouteNode| n@)
}

/// The model's view of an optional route.
pub open spec fn route_view(r: Option<RouteNode>) -> Option<Candidate> {
    match r {
        Some(n) => Some(n@),
        None => None,
    }
}

/// Hop cap of an engine built by `CGR::new`.
pub const DEFAULT_MAX_HOPS: usize = 64;

/// The route engine: the contact graph it searches and the hop cap.
pub struct CGR {
    adjacency_list: HashMap<u32, Vec<Contact>>,
    max_hops: usize,
}

/// The contacts of `links` that leave `u`, in list order.
pub open spec fn links_from(links: Seq<Contact>, u: u32) -> Seq<Contact>
    decreases links.len(),
{
    if links.len() == 0 {
        Seq::empty()
    } else {
        let earlier = links_from(links.drop_last(), u);
        if links.last().from == u {
            earlier.push(links.last())
        } else {
            earlier
        }
    }
}

/// The contact graph of a list of contacts: each node that some contact
/// leaves, with its contacts in list order.
pub open spec fn adjacency_of(links: Seq<Contact>) -> Map<u32, Seq<Contact>> {
    Map::new(|u: u32| links_from(links, u).len() > 0, |u: u32| links_from(links, u))
}

impl RouteNode {
    /// Whether this entry leaves the frontier before `other`: the earlier
    /// arrival first, then the shorter path, then the lower node id.
    pub fn comes_before(&self, other: &RouteNode) -> (r: bool)
        ensures
            r == precedes(self@, other@),
    {
        if self.arrival_time != other.arrival_time {
            self.arrival_time < other.arrival_time
        } else if self.path.len() != other.path.len() {
            self.path.len() < other.path.len()
        } else {
            self.id < other.id
        }
    }
}

fn least_index(frontier: &Vec<RouteNode>) -> (least: usize)
    requires
        frontier.len() > 0,
    ensures
        least == first_min(frontier_view(frontier@)),
        least < frontier.len(),
{
    let ghost fv = frontier_view(frontier@);
    let mut least: usize = 0;
    let mut i: usize = 1;
    while i < frontier.len()
        invariant
            1 <= i <= frontier.len(),
            least < i,
            fv == frontier_view(frontier@),
            least == first_min(fv.take(i as int)),
        decreases frontier.len() - i,
    {
        proof {
            assert(fv.take(i + 1).drop_last() =~= fv.take(i as int));
        }
        if frontier[i].comes_before(&frontier[least]) {
            least = i;
        }
        i += 1;
    }
    assert(fv.take(frontier.len() as int) =~= fv);
    least
}

fn extend_path(path: &Vec<u32>, next: u32) -> (r: Vec<u32>)
    ensures
        r@ == path@.push(next),
{
    let mut r = copy_of(path.as_slice());
    r.push(next);
    r
}

impl CGR {
    /// The contact graph that the engine searches.
    pub closed spec fn graph(&self) -> Map<u32, Seq<Contact>> {
        graph_view(self.adjacency_list@)
    }

    /// The hop cap of the engine.
    pub closed spec fn hop_cap(&self) -> nat {
        self.max_hops as nat
    }

    /// An engine over the graph of the given contacts, with the default hop
    /// cap.
    pub fn new(communication_links: Vec<Contact>) -> (r: CGR)
        ensures
            r.graph() == adjacency_of(communication_links@),
            r.graph().dom().finite(),
            r.hop_cap() == DEFAULT_MAX_HOPS,
    {
        broadcast use vstd::std_specs::hash::group_hash_axioms;

        let mut adjacency_list: HashMap<u32, Vec<Contact>> = HashMap::new();
        let mut i: usize = 0;
        while i < communication_links.len()
            invariant
                i <= communication_links.len(),
                graph_view(adjacency_list@) == adjacency_of(communication_links@.take(i as int)),
            decreases communication_links.len() - i,
        {
            let link = communication_links[i];
            let ghost before = graph_view(adjacency_list@);
            let ghost seen = communication_links@.take(i as int);
            let ghost now = communication_links@.take(i + 1);
            let mut list = match adjacency_list.remove(&link.from) {
                Some(list) => list,
                None => Vec::new(),
            };
            proof {
                assert(now.drop_last() =~= seen);
                assert(list@ =~= links_from(seen, link.from)) by {
                    if before.contains_key(link.from) {
                        assert(before[link.from] == links_from(seen, link.from));
                    }
                }
            }
            list.push(link);
            adjacency_list.insert(link.from, list);
            proof {
                let after = graph_view(adjacency_list@);
                assert forall|u: u32| after.contains_key(u) <==> adjacency_of(now).contains_key(
                    u,
                ) by {
                    if u != link.from {
                        assert(after.contains_key(u) <==> before.contains_key(u));
                    }
                }
                assert forall|u: u32| after.contains_key(u) implies after[u] == adjacency_of(
                    now,
                )[u] by {
                    if u != link.from {
                        assert(after[u] == before[u]);
                    }
                }
            }
            i += 1;
        }
        assert(communication_links@.take(communication_links.len() as int)
            =~= communication_links@);
        assert(graph_view(adjacency_list@).dom() =~= adjacency_list@.dom());
        CGR { adjacency_list, max_hops: DEFAULT_MAX_HOPS }
    }

    /// An engine over a contact graph as the network holds it.
    pub fn from_graph(adjacency_list: HashMap<u32, Vec<Contact>>) -> (r: CGR)
        ensures
            r.graph() == graph_view(adjacency_list@),
            r.graph().dom().finite(),
            r.hop_cap() == DEFAULT_MAX_HOPS,
    {
        broadcast use vstd::std_specs::hash::group_hash_axioms;

        assert(graph_view(adjacency_list@).dom() =~= adjacency_list@.dom());
        CGR { adjacency_list, max_hops: DEFAULT_MAX_HOPS }
    }

    /// The same engine with another hop cap.
    pub fn with_max_hops(self, max_hops: usize) -> (r: CGR)
        ensures
            r.graph() == self.graph(),
            r.graph().dom().finite(),
            r.hop_cap() == max_hops,
    {
        broadcast use vstd::std_specs::hash::group_hash_axioms;

        assert(graph_view(self.adjacency_list@).dom() =~= self.adjacency_list@.dom());
        CGR { adjacency_list: self.adjacency_list, max_hops }
    }

    /// Time-expanded least-arrival search from `source_satellite` to
    /// `destination_satellite` for data ready at `departure_time`.
    ///
    /// The result is the one that the search model gives for the graph, so
    /// two searches with the same arguments agree. A found route starts at
    /// the source, ends at the destination, takes no more hops than the hop
    /// cap, and every hop arrives inside the window of a contact between its
    /// two nodes. Where the hop cap is no smaller than the number of nodes
    /// that the graph lists, the arrival is the earliest that any route
    /// achieves, and `None` means that the destination cannot be reached. A
    /// found route visits no node twice. The graph lists finitely many nodes.
    pub fn find_best_route(
        &self,
        source_satellite: u32,
        destination_satellite: u32,
        departure_time: u64,
    ) -> (r: Option<RouteNode>)
        ensures
            self.graph().dom().finite(),
            route_view(r) == route_of(
                self.graph(),
                source_satellite,
                destination_satellite,
                departure_time,
                self.hop_cap(),
            ),
            route_is_correct(
                self.graph(),
                source_satellite,
                destination_satellite,
                departure_time,
                self.hop_cap(),
                route_view(r),
            ),
    {
        broadcast use vstd::std_specs::hash::group_hash_axioms;

        let ghost g = self.graph();
        let ghost cap = self.hop_cap();
        let mut start_path: Vec<u32> = Vec::new();
        start_path.push(source_satellite);
        let mut frontier: Vec<RouteNode> = Vec::new();
        frontier.push(
            RouteNode { id: source_satellite, arrival_time: departure_time, path: start_path },
        );
        let mut best: HashMap<u32, u64> = HashMap::new();
        proof {
            assert(g.dom() =~= self.adjacency_list@.dom());
            lemma_route_correct(g, source_satellite, destination_satellite, departure_time, cap);
        }
        loop
            invariant
                g == self.graph(),
                cap == self.hop_cap(),
                g.dom().finite(),
                route_is_correct(
                    g,
                    source_satellite,
                    destination_satellite,
                    departure_time,
                    cap,
                    route_of(g, source_satellite, destination_satellite, departure_time, cap),
                ),
                run(
                    g,
                    destination_satellite,
                    cap,
                    SearchState { frontier: frontier_view(frontier@), best: best@ },
                ) == route_of(g, source_satellite, destination_satellite, departure_time, cap),
            decreases
                pending(g, SearchState { frontier: frontier_view(frontier@), best: best@ }),
                frontier.len(),
        {
            let ghost s = SearchState { frontier: frontier_view(frontier@), best: best@ };
            if frontier.len() == 0 {
                return None;
            }
            let i = least_index(&frontier);
            let entry = frontier.remove(i);
            proof {
                assert(frontier_view(frontier@) =~= s.frontier.remove(i as int));
            }
            if best.contains_key(&entry.id) {
                proof {
                    lemma_step_decreases(g, destination_satellite, cap, s);
                }
            } else if entry.id == destination_satellite {
                return Some(entry);
            } else {
                proof {
                    lemma_step_decreases(g, destination_satellite, cap, s);
                }
                best.insert(entry.id, entry.arrival_time);
                let ghost rest = frontier_view(frontier@);
                match self.adjacency_list.get(&entry.id) {
                    Some(contacts) => {
                        let mut k: usize = 0;
                        while k < contacts.len()
                            invariant
                                k <= contacts.len(),
                                frontier_view(frontier@) == rest + expand(
                                    contacts@,
                                    k as int,
                                    entry@,
                                    best@,
                                    cap,
                                ),
                                cap == self.hop_cap(),
                            decreases contacts.len() - k,
                        {
                            let contact = contacts[k];
                            let ghost before = frontier_view(frontier@);
                            if entry.path.len() <= self.max_hops && !best.contains_key(
                                &contact.destination,
                            ) {
                                match contact.arrival(entry.arrival_time) {
                                    Some(arrival_time) => {
                                        let path = extend_path(&entry.path, contact.destination);
                                        let id = contact.destination;
                                        frontier.push(RouteNode { id, arrival_time, path });
                                        assert(frontier_view(frontier@) =~= before.push(
                                            successor(contact, entry@),
                                        ));
                                    },
                                    None => {},
                                }
                            }
                            k += 1;
                        }
                    },
                    None => {},
                }
            }
        }
    }

    /// Looks for contacts that leave the source of `task` and fires the
    /// matching event: the links are available where the graph lists at
    /// least one, else they are not, which is reported as an error.
    pub fn discover_contacts(&self, task: &mut DeliveryTask) -> (r: Result<(), RoutingError>)
        ensures
            contacts_of(self.graph(), old(task).source).len() > 0 ==> r == Ok::<
                (),
                RoutingError,
            >(()) && *final(task) == applied(*old(task), CGREvent::CommunicationLinksAvailable),
            contacts_of(self.graph(), old(task).source).len() == 0 ==> r == Err::<
                (),
                RoutingError,
            >(RoutingError::NoContactsAvailable) && *final(task) == applied(
                *old(task),
                CGREvent::NoCommunicationLinksAvailable,
            ),
    {
        broadcast use vstd::std_specs::hash::group_hash_axioms;

        let available = match self.adjacency_list.get(&task.source) {
            Some(contacts) => contacts.len() > 0,
            None => false,
        };
        if available {
            task.transition(&CGREvent::CommunicationLinksAvailable);
            Ok(())
        } else {
            task.transition(&CGREvent::NoCommunicationLinksAvailable);
            Err(RoutingError::NoContactsAvailable)
        }
    }

    /// Searches a route for `task` from its source to its destination for
    /// data ready at `now`, and fires the matching event. A delivery that is
    /// selecting its route takes the found path as its current one and the
    /// arrival instant is returned; where there is no route the delivery
    /// keeps its path and the error says so.
    pub fn select_route(&self, task: &mut DeliveryTask, now: u64) -> (r: Result<
        u64,
        RoutingError,
    >)
        ensures
            match route_of(
                self.graph(),
                old(task).source,
                old(task).destination,
                now,
                self.hop_cap(),
            ) {
                Some(found) => {
                    &&& r == Ok::<u64, RoutingError>(found.arrival)
                    &&& follows(*final(task), *old(task), CGREvent::RouteComputed)
                    &&& final(task).current_path@ == (if old(task).state
                        == CGRState::SelectingRoute {
                        found.path
                    } else {
                        old(task).current_path@
                    })
                },
                None => {
                    &&& r == Err::<u64, RoutingError>(RoutingError::NoFeasibleRoute)
                    &&& *final(task) == applied(*old(task), CGREvent::NoFeasibleRoute)
                },
            },
    {
        match self.find_best_route(task.source, task.destination, now) {
            Some(found) => {
                let selecting = match task.state {
                    CGRState::SelectingRoute => true,
                    _ => false,
                };
                task.transition(&CGREvent::RouteComputed);
                if selecting {
                    task.current_path = found.path;
                }
                Ok(found.arrival_time)
            },
            None => {
                task.transition(&CGREvent::NoFeasibleRoute);
                Err(RoutingError::NoFeasibleRoute)
            },
        }
    }
}

/// Route search is deterministic: two searches of the same graph between the
/// same nodes, for the same departure and under the same hop cap, give the
/// same path and the same arrival, or both give none.
pub proof fn lemma_search_is_deterministic(
    engine: CGR,
    source_satellite: u32,
    destination_satellite: u32,
    departure_time: u64,
    first: Option<RouteNode>,
    second: Option<RouteNode>,
)
    requires
        route_view(first) == route_of(
            engine.graph(),
            source_satellite,
            destination_satellite,
            departure_time,
            engine.hop_cap(),
        ),
        route_view(second) == route_of(
            engine.graph(),
            source_satellite,
            destination_satellite,
            departure_time,
            engine.hop_cap(),
        ),
    ensures
        first is Some <==> second is Some,
        first is Some ==> first->Some_0.path@ == second->Some_0.path@ && first->Some_0.arrival_time
            == second->Some_0.arrival_time && first->Some_0.id == second->Some_0.id,
{
}

impl SatelliteNetwork {
    /// A route engine over the contact graph of the last update.
    pub fn route_engine(&self) -> (r: CGR)
        ensures
            r.graph() == self.graph(),
            r.graph().dom().finite(),
            r.hop_cap() == DEFAULT_MAX_HOPS,
    {
        CGR::from_graph(self.contact_graph())
    }
}

} // verus!
