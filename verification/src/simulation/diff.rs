//! The diff between two contact graphs, node by node.

use vstd::prelude::*;
use std::collections::{HashMap, HashSet};
use crate::simulation::graph::{enumerates, graph_view, node_ids, Contact, GraphEvent};
use crate::simulation::route_model::contacts_of;

verus! {

/// The nodes that the contacts lead to.
pub open spec fn destinations(contacts: Seq<Contact>) -> Set<u32> {
    Set::new(
        |d: u32|
            exists|i: int| 0 <= i < contacts.len() && (#[trigger] contacts[i]).destination == d,
    )
}

/// The diff step splits cleanly: nothing is both gained and lost, and the
/// new set is the old one without what was lost, with what was gained.
pub proof fn lemma_diff_partitions(old_edges: Set<u32>, new_edges: Set<u32>)
    ensures
        ({
            let gained = new_edges.difference(old_edges);
            let lost = old_edges.difference(new_edges);
            &&& gained.intersect(lost) == Set::<u32>::empty()
            &&& new_edges == old_edges.difference(lost).union(gained)
        }),
{
    let gained = new_edges.difference(old_edges);
    let lost = old_edges.difference(new_edges);
    assert(gained.intersect(lost) =~= Set::<u32>::empty());
    assert(new_edges =~= old_edges.difference(lost).union(gained));
}

fn destination_set(contacts: &Vec<Contact>) -> (r: HashSet<u32>)
    ensures
        r@ == destinations(contacts@),
{
    broadcast use vstd::std_specs::hash::group_hash_axioms;

    let mut r: HashSet<u32> = HashSet::new();
    let mut i: usize = 0;
    assert(r@ =~= destinations(contacts@.take(0)));
    while i < contacts.len()
        invariant
            i <= contacts.len(),
            r@ == destinations(contacts@.take(i as int)),
        decreases contacts.len() - i,
    {
        r.insert(contacts[i].destination);
        proof {
            lemma_destinations_step(contacts@, i as int);
            assert(r@ =~= destinations(contacts@.take(i + 1)));
        }
        i += 1;
    }
    assert(contacts@.take(contacts.len() as int) =~= contacts@);
    r
}

/// One more contact adds its destination to the nodes led to.
proof fn lemma_destinations_step(contacts: Seq<Contact>, i: int)
    requires
        0 <= i < contacts.len(),
    ensures
        destinations(contacts.take(i + 1)) == destinations(contacts.take(i)).insert(
            contacts[i].destination,
        ),
{
    let seen = contacts.take(i);
    let now = contacts.take(i + 1);
    let node = contacts[i].destination;
    assert forall|d: u32| destinations(now).contains(d) <==> (destinations(seen).contains(d) || d
        == node) by {
        if destinations(seen).contains(d) {
            let k = choose|k: int| 0 <= k < seen.len() && (#[trigger] seen[k]).destination == d;
            assert(now[k].destination == d);
        }
        if d == node {
            assert(now[i].destination == d);
        }
        if destinations(now).contains(d) {
            let k = choose|k: int| 0 <= k < now.len() && (#[trigger] now[k]).destination == d;
            if k < i {
                assert(seen[k].destination == d);
            }
        }
    }
    assert(destinations(now) =~= destinations(seen).insert(node));
}

/// The nodes that `contacts` lead to and `others` do not, each once, in the
/// order of `contacts`.
pub fn destinations_missing_from(contacts: &Vec<Contact>, others: &Vec<Contact>) -> (r: Vec<u32>)
    ensures
        r@.no_duplicates(),
        r@.to_set() == destinations(contacts@).difference(destinations(others@)),
{
    broadcast use vstd::std_specs::hash::group_hash_axioms;

    let theirs = destination_set(others);
    let mut listed: HashSet<u32> = HashSet::new();
    let mut r: Vec<u32> = Vec::new();
    let mut i: usize = 0;
    assert(r@.to_set() =~= destinations(contacts@.take(0)).difference(theirs@));
    assert(listed@ =~= r@.to_set());
    while i < contacts.len()
        invariant
            i <= contacts.len(),
            theirs@ == destinations(others@),
            r@.no_duplicates(),
            listed@ == r@.to_set(),
            r@.to_set() == destinations(contacts@.take(i as int)).difference(theirs@),
        decreases contacts.len() - i,
    {
        let node = contacts[i].destination;
        let ghost before = r@;
        if !theirs.contains(&node) {
            if listed.insert(node) {
                r.push(node);
                proof {
                    assert(!before.contains(node));
                    assert forall|d: u32| r@.to_set().contains(d) <==> (before.to_set().contains(d)
                        || d == node) by {
                        if before.contains(d) {
                            let k = choose|k: int| 0 <= k < before.len() && before[k] == d;
                            assert(r@[k] == d);
                        }
                        if d == node {
                            assert(r@[r@.len() - 1] == d);
                        }
                        if r@.contains(d) {
                            let k = choose|k: int| 0 <= k < r@.len() && r@[k] == d;
                            if k < before.len() {
                                assert(before[k] == d);
                            }
                        }
                    }
                    assert(r@.to_set() =~= before.to_set().insert(node));
                }
            }
        }
        proof {
            lemma_destinations_step(contacts@, i as int);
            assert(r@.to_set() =~= destinations(contacts@.take(i + 1)).difference(theirs@));
            assert(listed@ =~= r@.to_set());
        }
        i += 1;
    }
    assert(contacts@.take(contacts.len() as int) =~= contacts@);
    r
}

/// The diff of one node's contacts: the nodes gained, then the nodes lost,
/// each list without repetition. Nothing is both gained and lost, and the
/// new set of neighbours is the old one without the lost, with the gained.
pub fn diff_destinations(previous: &Vec<Contact>, updated: &Vec<Contact>) -> (r: (
    Vec<u32>,
    Vec<u32>,
))
    ensures
        r.0@.no_duplicates(),
        r.1@.no_duplicates(),
        r.0@.to_set() == destinations(updated@).difference(destinations(previous@)),
        r.1@.to_set() == destinations(previous@).difference(destinations(updated@)),
        r.0@.to_set().intersect(r.1@.to_set()) == Set::<u32>::empty(),
        destinations(updated@) == destinations(previous@).difference(r.1@.to_set()).union(
            r.0@.to_set(),
        ),
{
    let gained = destinations_missing_from(updated, previous);
    let lost = destinations_missing_from(previous, updated);
    proof {
        lemma_diff_partitions(destinations(previous@), destinations(updated@));
    }
    (gained, lost)
}

/// The node that an event is about.
pub open spec fn event_node(e: GraphEvent) -> u32 {
    match e {
        GraphEvent::NodeJoined { node, .. } => node,
        GraphEvent::ContactsChanged { node, .. } => node,
    }
}

/// Event `e` tells truly how its node's neighbours differ between two
/// graphs: a node that joins is new and comes with all its neighbours; a
/// node whose contacts changed was listed before and comes with the
/// neighbours gained and lost, at least one in all.
pub open spec fn describes(
    e: GraphEvent,
    before: Map<u32, Seq<Contact>>,
    after: Map<u32, Seq<Contact>>,
) -> bool {
    match e {
        GraphEvent::NodeJoined { node, neighbors } => {
            &&& after.contains_key(node)
            &&& !before.contains_key(node)
            &&& neighbors@.no_duplicates()
            &&& neighbors@.to_set() == destinations(after[node])
        },
        GraphEvent::ContactsChanged { node, gained, lost } => {
            &&& before.contains_key(node)
            &&& gained@.no_duplicates()
            &&& lost@.no_duplicates()
            &&& gained@.to_set() == destinations(contacts_of(after, node)).difference(
                destinations(before[node]),
            )
            &&& lost@.to_set() == destinations(before[node]).difference(
                destinations(contacts_of(after, node)),
            )
            &&& gained@.len() + lost@.len() > 0
        },
    }
}

/// Whether the update from `before` to `after` calls for an event about
/// `node`: the node is new, or it was listed and its set of neighbours is no
/// longer the same.
pub open spec fn noteworthy(
    node: u32,
    before: Map<u32, Seq<Contact>>,
    after: Map<u32, Seq<Contact>>,
) -> bool {
    ||| (after.contains_key(node) && !before.contains_key(node))
    ||| (before.contains_key(node) && destinations(before[node]) != destinations(
        contacts_of(after, node),
    ))
}

/// The events tell the whole difference between two graphs: each is true,
/// no node has two, and every node that calls for one has one.
pub open spec fn changes_described(
    events: Seq<GraphEvent>,
    before: Map<u32, Seq<Contact>>,
    after: Map<u32, Seq<Contact>>,
) -> bool {
    &&& forall|i: int| 0 <= i < events.len() ==> describes(#[trigger] events[i], before, after)
    &&& forall|i: int, j: int|
        0 <= i < events.len() && 0 <= j < events.len() && i != j ==> event_node(
            #[trigger] events[i],
        ) != event_node(#[trigger] events[j])
    &&& forall|node: u32| #[trigger]
        noteworthy(node, before, after) ==> exists|i: int|
            0 <= i < events.len() && event_node(#[trigger] events[i]) == node
}

/// Some event of the list is about `node`.
pub open spec fn mentions(events: Seq<GraphEvent>, node: u32) -> bool {
    exists|i: int| 0 <= i < events.len() && event_node(#[trigger] events[i]) == node
}

proof fn lemma_no_contacts_no_destinations(contacts: Seq<Contact>)
    requires
        contacts.len() == 0,
    ensures
        destinations(contacts) == Set::<u32>::empty(),
{
    assert(destinations(contacts) =~= Set::<u32>::empty());
}

proof fn lemma_empty_list_empty_set(nodes: Seq<u32>)
    ensures
        nodes.len() == 0 <==> nodes.to_set() == Set::<u32>::empty(),
{
    if nodes.len() == 0 {
        assert(nodes.to_set() =~= Set::<u32>::empty());
    } else {
        assert(nodes.to_set().contains(nodes[0]));
    }
}

/// The events that tell how the contact graph `updated` differs from
/// `previous`: one for each node that is new or whose set of neighbours has
/// changed, none for any other.
pub fn graph_changes(
    previous: &HashMap<u32, Vec<Contact>>,
    updated: &HashMap<u32, Vec<Contact>>,
) -> (events: Vec<GraphEvent>)
    ensures
        changes_described(events@, graph_view(previous@), graph_view(updated@)),
{
    broadcast use vstd::std_specs::hash::group_hash_axioms;

    let ghost before = graph_view(previous@);
    let ghost after = graph_view(updated@);
    let nothing: Vec<Contact> = Vec::new();
    proof {
        lemma_no_contacts_no_destinations(nothing@);
    }
    let mut events: Vec<GraphEvent> = Vec::new();
    let listed = node_ids(updated);
    let mut i: usize = 0;
    while i < listed.len()
        invariant
            i <= listed.len(),
            before == graph_view(previous@),
            after == graph_view(updated@),
            nothing@.len() == 0,
            destinations(nothing@) == Set::<u32>::empty(),
            enumerates(listed@, updated@.dom()),
            forall|k: int| 0 <= k < events.len() ==> describes(#[trigger] events[k], before, after),
            forall|k: int|
                0 <= k < events.len() ==> listed@.take(i as int).contains(
                    event_node(#[trigger] events[k]),
                ),
            forall|k: int, l: int|
                0 <= k < events.len() && 0 <= l < events.len() && k != l ==> event_node(
                    #[trigger] events[k],
                ) != event_node(#[trigger] events[l]),
            forall|m: int|
                0 <= m < i && noteworthy(#[trigger] listed@[m], before, after) ==> mentions(
                    events@,
                    listed@[m],
                ),
        decreases listed.len() - i,
    {
        let node = listed[i];
        let ghost earlier = events@;
        assert(listed@.to_set().contains(node));
        assert(!listed@.take(i as int).contains(node));
        let mut added: Option<GraphEvent> = None;
        match updated.get(&node) {
            Some(contacts) => {
                assert(contacts@ == contacts_of(after, node));
                match previous.get(&node) {
                    Some(old_contacts) => {
                        assert(old_contacts@ == before[node]);
                        let (gained, lost) = diff_destinations(old_contacts, contacts);
                        proof {
                            lemma_empty_list_empty_set(gained@);
                            lemma_empty_list_empty_set(lost@);
                        }
                        if gained.len() > 0 || lost.len() > 0 {
                            added = Some(GraphEvent::ContactsChanged { node, gained, lost });
                        } else {
                            assert(destinations(before[node]) =~= destinations(
                                contacts_of(after, node),
                            ));
                        }
                    },
                    None => {
                        let neighbors = destinations_missing_from(contacts, &nothing);
                        assert(neighbors@.to_set() =~= destinations(contacts@));
                        added = Some(GraphEvent::NodeJoined { node, neighbors });
                    },
                }
            },
            None => {},
        }
        match added {
            Some(event) => {
                events.push(event);
                assert(events@[events.len() - 1] == event);
            },
            None => {},
        }
        proof {
            let seen = listed@.take(i as int);
            let now = listed@.take(i + 1);
            assert(now =~= seen.push(node));
            assert forall|k: int| 0 <= k < events.len() implies now.contains(
                event_node(#[trigger] events[k]),
            ) by {
                if k < earlier.len() {
                    assert(events[k] == earlier[k]);
                    let n = event_node(earlier[k]);
                    assert(seen.contains(n));
                    let m = choose|m: int| 0 <= m < seen.len() && seen[m] == n;
                    assert(now[m] == n);
                } else {
                    assert(now[i as int] == node);
                }
            }
            assert forall|k: int, l: int|
                0 <= k < events.len() && 0 <= l < events.len() && k != l implies event_node(
                #[trigger] events[k],
            ) != event_node(#[trigger] events[l]) by {
                if k < earlier.len() {
                    assert(events[k] == earlier[k]);
                    assert(seen.contains(event_node(earlier[k])));
                }
                if l < earlier.len() {
                    assert(events[l] == earlier[l]);
                    assert(seen.contains(event_node(earlier[l])));
                }
            }
            assert forall|m: int|
                0 <= m < i + 1 && noteworthy(#[trigger] listed@[m], before, after) implies mentions(
                events@,
                listed@[m],
            ) by {
                if m < i {
                    assert(mentions(earlier, listed@[m]));
                    let k = choose|k: int|
                        0 <= k < earlier.len() && event_node(#[trigger] earlier[k]) == listed@[m];
                    assert(events[k] == earlier[k]);
                } else {
                    assert(event_node(events@[events.len() - 1]) == node);
                }
            }
        }
        i += 1;
    }
    assert(listed@.take(listed.len() as int) =~= listed@);
    let known = node_ids(previous);
    let mut j: usize = 0;
    while j < known.len()
        invariant
            j <= known.len(),
            before == graph_view(previous@),
            after == graph_view(updated@),
            nothing@.len() == 0,
            destinations(nothing@) == Set::<u32>::empty(),
            enumerates(listed@, updated@.dom()),
            enumerates(known@, previous@.dom()),
            forall|k: int| 0 <= k < events.len() ==> describes(#[trigger] events[k], before, after),
            forall|k: int|
                0 <= k < events.len() ==> after.contains_key(event_node(#[trigger] events[k])) || (
                known@.take(j as int).contains(event_node(events[k]))),
            forall|k: int, l: int|
                0 <= k < events.len() && 0 <= l < events.len() && k != l ==> event_node(
                    #[trigger] events[k],
                ) != event_node(#[trigger] events[l]),
            forall|m: int|
                0 <= m < listed.len() && noteworthy(#[trigger] listed@[m], before, after)
                    ==> mentions(events@, listed@[m]),
            forall|m: int|
                0 <= m < j && noteworthy(#[trigger] known@[m], before, after) ==> mentions(
                    events@,
                    known@[m],
                ),
        decreases known.len() - j,
    {
        let node = known[j];
        let ghost earlier = events@;
        assert(known@.to_set().contains(node));
        assert(!known@.take(j as int).contains(node));
        let mut added: Option<GraphEvent> = None;
        if !updated.contains_key(&node) {
            match previous.get(&node) {
                Some(old_contacts) => {
                    assert(old_contacts@ == before[node]);
                    assert(contacts_of(after, node) =~= nothing@);
                    let lost = destinations_missing_from(old_contacts, &nothing);
                    let gained: Vec<u32> = Vec::new();
                    proof {
                        lemma_empty_list_empty_set(gained@);
                        lemma_empty_list_empty_set(lost@);
                        assert(lost@.to_set() =~= destinations(before[node]).difference(
                            destinations(contacts_of(after, node)),
                        ));
                        assert(gained@.to_set() =~= destinations(
                            contacts_of(after, node),
                        ).difference(destinations(before[node])));
                    }
                    if lost.len() > 0 {
                        added = Some(GraphEvent::ContactsChanged { node, gained, lost });
                    } else {
                        assert(destinations(before[node]) =~= destinations(
                            contacts_of(after, node),
                        ));
                    }
                },
                None => {},
            }
        }
        match added {
            Some(event) => {
                events.push(event);
                assert(events@[events.len() - 1] == event);
            },
            None => {},
        }
        proof {
            let seen = known@.take(j as int);
            let now = known@.take(j + 1);
            assert(now =~= seen.push(node));
            assert forall|k: int| 0 <= k < events.len() implies after.contains_key(
                event_node(#[trigger] events[k]),
            ) || now.contains(event_node(events[k])) by {
                if k < earlier.len() {
                    assert(events[k] == earlier[k]);
                    let n = event_node(earlier[k]);
                    if !after.contains_key(n) {
                        assert(seen.contains(n));
                        let m = choose|m: int| 0 <= m < seen.len() && seen[m] == n;
                        assert(now[m] == n);
                    }
                } else {
                    assert(now[j as int] == node);
                }
            }
            assert forall|k: int, l: int|
                0 <= k < events.len() && 0 <= l < events.len() && k != l implies event_node(
                #[trigger] events[k],
            ) != event_node(#[trigger] events[l]) by {
                if k < earlier.len() {
                    assert(events[k] == earlier[k]);
                }
                if l < earlier.len() {
                    assert(events[l] == earlier[l]);
                }
            }
            assert forall|m: int|
                0 <= m < listed.len() && noteworthy(
                    #[trigger] listed@[m],
                    before,
                    after,
                ) implies mentions(events@, listed@[m]) by {
                assert(mentions(earlier, listed@[m]));
                let k = choose|k: int|
                    0 <= k < earlier.len() && event_node(#[trigger] earlier[k]) == listed@[m];
                assert(events[k] == earlier[k]);
            }
            assert forall|m: int|
                0 <= m < j + 1 && noteworthy(#[trigger] known@[m], before, after) implies mentions(
                events@,
                known@[m],
            ) by {
                if m < j {
                    assert(mentions(earlier, known@[m]));
                    let k = choose|k: int|
                        0 <= k < earlier.len() && event_node(#[trigger] earlier[k]) == known@[m];
                    assert(events[k] == earlier[k]);
                } else if after.contains_key(node) {
                    assert(listed@.to_set().contains(node));
                    let n = choose|n: int| 0 <= n < listed@.len() && listed@[n] == node;
                    assert(mentions(events@, listed@[n]));
                } else {
                    assert(event_node(events@[events.len() - 1]) == node);
                }
            }
        }
        j += 1;
    }
    proof {
        assert(known@.take(known.len() as int) =~= known@);
        assert forall|node: u32| #[trigger] noteworthy(node, before, after) implies exists|k: int|
            0 <= k < events.len() && event_node(#[trigger] events[k]) == node by {
            if after.contains_key(node) {
                assert(listed@.to_set().contains(node));
                let m = choose|m: int| 0 <= m < listed@.len() && listed@[m] == node;
                assert(mentions(events@, listed@[m]));
            } else {
                assert(before.contains_key(node));
                assert(known@.to_set().contains(node));
                let m = choose|m: int| 0 <= m < known@.len() && known@[m] == node;
                assert(mentions(events@, known@[m]));
            }
        }
    }
    events
}

} // verus!
