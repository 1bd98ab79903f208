//! The route search as a function of the contact graph: the frontier, its
//! order, and one step after another until a route is found or none is left.

use vstd::prelude::*;
use crate::simulation::graph::Contact;

verus! {

/// One candidate on the search frontier: a node, the instant at which data
/// reaches it, and the nodes visited on the way there, the node itself last.
pub struct Candidate {
    pub node: u32,
    pub arrival: u64,
    pub path: Seq<u32>,
}

/// The search state: the frontier, and for each finalized node the instant at
/// which it was finalized.
pub struct SearchState {
    pub frontier: Seq<Candidate>,
    pub best: Map<u32, u64>,
}

/// What one step of the search yields.
pub enum Step {
    Done(Option<Candidate>),
    Continue(SearchState),
}

/// The frontier order: earlier arrival first, then the shorter path, then the
/// lower node id.
pub open spec fn precedes(a: Candidate, b: Candidate) -> bool {
    ||| a.arrival < b.arrival
    ||| (a.arrival == b.arrival && a.path.len() < b.path.len())
    ||| (a.arrival == b.arrival && a.path.len() == b.path.len() && a.node < b.node)
}

/// Index of the least candidate of a non-empty frontier; among candidates
/// that the order does not separate, the one that entered first.
pub open spec fn first_min(f: Seq<Candidate>) -> int
    decreases f.len(),
{
    if f.len() <= 1 {
        0
    } else {
        let m = first_min(f.drop_last());
        if precedes(f.last(), f[m]) {
            f.len() - 1
        } else {
            m
        }
    }
}

/// Whether the search follows contact `c` out of candidate `at`: the hop must
/// fit in the window, the far node must not be finalized yet, and the path
/// must stay within `cap` hops. A node is finalized when its first candidate
/// leaves the frontier, which is at its earliest arrival: no later candidate
/// for it arrives sooner.
pub open spec fn admits(c: Contact, at: Candidate, best: Map<u32, u64>, cap: nat) -> bool {
    &&& c.usable_at(at.arrival as int)
    &&& !best.contains_key(c.destination)
    &&& at.path.len() <= cap
}

/// The candidate reached from `at` over contact `c`.
pub open spec fn successor(c: Contact, at: Candidate) -> Candidate {
    Candidate {
        node: c.destination,
        arrival: c.arrival_spec(at.arrival as int) as u64,
        path: at.path.push(c.destination),
    }
}

/// The candidates that the first `k` contacts of a node add to the frontier,
/// in contact order.
pub open spec fn expand(
    contacts: Seq<Contact>,
    k: int,
    at: Candidate,
    best: Map<u32, u64>,
    cap: nat,
) -> Seq<Candidate>
    decreases k,
{
    if k <= 0 {
        Seq::empty()
    } else {
        let earlier = expand(contacts, k - 1, at, best, cap);
        if admits(contacts[k - 1], at, best, cap) {
            earlier.push(successor(contacts[k - 1], at))
        } else {
            earlier
        }
    }
}

/// The contacts that leave `node`; none where the graph does not list it.
pub open spec fn contacts_of(g: Map<u32, Seq<Contact>>, node: u32) -> Seq<Contact> {
    if g.contains_key(node) {
        g[node]
    } else {
        Seq::empty()
    }
}

/// One step: take the least candidate off the frontier. A candidate for a
/// finalized node is dropped; one for the destination ends the search;
/// any other finalizes its node and adds what its contacts admit.
pub open spec fn step(g: Map<u32, Seq<Contact>>, dst: u32, cap: nat, s: SearchState) -> Step {
    if s.frontier.len() == 0 {
        Step::Done(None)
    } else {
        let i = first_min(s.frontier);
        let e = s.frontier[i];
        let rest = s.frontier.remove(i);
        if s.best.contains_key(e.node) {
            Step::Continue(SearchState { frontier: rest, best: s.best })
        } else if e.node == dst {
            Step::Done(Some(e))
        } else {
            let best = s.best.insert(e.node, e.arrival);
            let contacts = contacts_of(g, e.node);
            Step::Continue(
                SearchState {
                    frontier: rest + expand(contacts, contacts.len() as int, e, best, cap),
                    best,
                },
            )
        }
    }
}

/// Number of listed nodes that are not finalized yet.
pub open spec fn pending(g: Map<u32, Seq<Contact>>, s: SearchState) -> nat {
    g.dom().difference(s.best.dom()).len()
}

/// A step that continues either finalizes a listed node or shortens the
/// frontier.
pub proof fn lemma_step_decreases(g: Map<u32, Seq<Contact>>, dst: u32, cap: nat, s: SearchState)
    requires
        g.dom().finite(),
        step(g, dst, cap, s) is Continue,
    ensures
        ({
            let n = step(g, dst, cap, s)->Continue_0;
            pending(g, n) < pending(g, s) || (pending(g, n) == pending(g, s) && n.frontier.len()
                < s.frontier.len())
        }),
{
    let n = step(g, dst, cap, s)->Continue_0;
    let i = first_min(s.frontier);
    lemma_first_min_in_range(s.frontier);
    let e = s.frontier[i];
    if !s.best.contains_key(e.node) {
        let before = g.dom().difference(s.best.dom());
        let after = g.dom().difference(n.best.dom());
        if g.contains_key(e.node) {
            assert(after =~= before.remove(e.node));
        } else {
            assert(after =~= before);
        }
    }
}

/// `first_min` names a position of the frontier.
pub proof fn lemma_first_min_in_range(f: Seq<Candidate>)
    requires
        f.len() > 0,
    ensures
        0 <= first_min(f) < f.len(),
    decreases f.len(),
{
    if f.len() > 1 {
        lemma_first_min_in_range(f.drop_last());
    }
}

/// The search from state `s`: steps until one ends it.
pub open spec fn run(g: Map<u32, Seq<Contact>>, dst: u32, cap: nat, s: SearchState) -> Option<
    Candidate,
>
    decreases pending(g, s), s.frontier.len(),
    when g.dom().finite()
{
    match step(g, dst, cap, s) {
        Step::Done(r) => r,
        Step::Continue(n) => {
            proof {
                lemma_step_decreases(g, dst, cap, s);
            }
            run(g, dst, cap, n)
        },
    }
}

/// The state in which a search starts: the source alone on the frontier,
/// reached at the departure instant, and nothing finalized.
pub open spec fn initial(src: u32, depart: u64) -> SearchState {
    SearchState {
        frontier: seq![Candidate { node: src, arrival: depart, path: seq![src] }],
        best: Map::empty(),
    }
}

/// The result of the time-expanded least-arrival search from `src` to `dst`
/// for data ready at `depart`, over paths of at most `cap` hops.
pub open spec fn route_of(g: Map<u32, Seq<Contact>>, src: u32, dst: u32, depart: u64, cap: nat)
    -> Option<Candidate> {
    run(g, dst, cap, initial(src, depart))
}

} // verus!
