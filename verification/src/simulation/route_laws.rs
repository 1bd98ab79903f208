//! What the route search guarantees, proved of its model: a found route is
//! feasible, and under a slack hop cap it is an earliest one.

use vstd::prelude::*;
use crate::simulation::graph::Contact;
use crate::simulation::route_model::{
    admits, contacts_of, expand, first_min, initial, lemma_first_min_in_range,
    lemma_step_decreases, pending, route_of, run, step, successor, Candidate, SearchState,
};

verus! {

/// Data ready at `tu` crosses contact `c` to node `v` and is there at `tv`.
pub open spec fn via(c: Contact, tu: int, v: u32, tv: int) -> bool {
    &&& c.destination == v
    &&& c.usable_at(tu)
    &&& c.arrival_spec(tu) == tv
}

/// Some contact of `u` carries data ready at `tu` to `v` by `tv`.
pub open spec fn hop(g: Map<u32, Seq<Contact>>, u: u32, tu: int, v: u32, tv: int) -> bool {
    exists|k: int|
        0 <= k < contacts_of(g, u).len() && via(#[trigger] contacts_of(g, u)[k], tu, v, tv)
}

/// The hop from position `i` of a path to the next is feasible at the given
/// times.
pub open spec fn hop_at(g: Map<u32, Seq<Contact>>, path: Seq<u32>, times: Seq<int>, i: int)
    -> bool {
    hop(g, path[i], times[i], path[i + 1], times[i + 1])
}

/// `times` gives, for each node of `path`, an instant at which the data is
/// there, and every hop respects its contact window.
pub open spec fn is_schedule(g: Map<u32, Seq<Contact>>, path: Seq<u32>, times: Seq<int>) -> bool {
    &&& path.len() == times.len()
    &&& path.len() > 0
    &&& forall|i: int| 0 <= i < path.len() - 1 ==> #[trigger] hop_at(g, path, times, i)
}

/// A schedule that starts at `src` at instant `depart`.
pub open spec fn connects(
    g: Map<u32, Seq<Contact>>,
    src: u32,
    depart: int,
    path: Seq<u32>,
    times: Seq<int>,
) -> bool {
    &&& is_schedule(g, path, times)
    &&& path[0] == src
    &&& times[0] == depart
}

/// Candidate `c` stands for a feasible way from `src`: some schedule along
/// its path starts at `src` at `depart` and ends at its node at its arrival
/// instant.
pub open spec fn reaches(g: Map<u32, Seq<Contact>>, src: u32, depart: int, c: Candidate) -> bool {
    exists|times: Seq<int>|
        #[trigger] connects(g, src, depart, c.path, times) && times.last() == c.arrival
            && c.path.last() == c.node
}

/// The least candidate arrives no later than any other on the frontier.
proof fn lemma_first_min_least(f: Seq<Candidate>)
    requires
        f.len() > 0,
    ensures
        0 <= first_min(f) < f.len(),
        forall|j: int| 0 <= j < f.len() ==> f[first_min(f)].arrival <= (#[trigger] f[j]).arrival,
    decreases f.len(),
{
    lemma_first_min_in_range(f);
    if f.len() > 1 {
        let p = f.drop_last();
        lemma_first_min_least(p);
        let m = first_min(p);
        assert forall|j: int| 0 <= j < f.len() implies f[first_min(f)].arrival <= (
        #[trigger] f[j]).arrival by {
            if j < f.len() - 1 {
                assert(p[j] == f[j]);
                assert(p[m].arrival <= p[j].arrival);
            }
        }
    }
}

/// Crossing a contact never moves time backwards, and the arrival instant
/// fits the clock where the hop is feasible.
proof fn lemma_arrival_bounds(c: Contact, t: int)
    ensures
        c.arrival_spec(t) >= t,
        c.usable_at(t) && t >= 0 ==> 0 <= c.arrival_spec(t) <= u64::MAX,
{
}

/// Being ready earlier never hurts: the hop stays feasible and arrives no
/// later.
proof fn lemma_earlier_is_better(c: Contact, early: int, late: int)
    requires
        early <= late,
        c.usable_at(late),
    ensures
        c.usable_at(early),
        c.arrival_spec(early) <= c.arrival_spec(late),
{
}

/// Candidate `x` is the successor of `at` over an admitted contact among the
/// first `k`.
spec fn from_contact(
    x: Candidate,
    contacts: Seq<Contact>,
    k: int,
    at: Candidate,
    best: Map<u32, u64>,
    cap: nat,
) -> bool {
    exists|i: int|
        0 <= i < k && admits(#[trigger] contacts[i], at, best, cap) && x == successor(
            contacts[i],
            at,
        )
}

/// `expand` yields exactly the successors over the admitted contacts.
proof fn lemma_expand_members(
    contacts: Seq<Contact>,
    k: int,
    at: Candidate,
    best: Map<u32, u64>,
    cap: nat,
)
    requires
        0 <= k <= contacts.len(),
    ensures
        forall|j: int|
            0 <= j < expand(contacts, k, at, best, cap).len() ==> from_contact(
                #[trigger] expand(contacts, k, at, best, cap)[j],
                contacts,
                k,
                at,
                best,
                cap,
            ),
        forall|i: int|
            0 <= i < k && admits(#[trigger] contacts[i], at, best, cap) ==> expand(
                contacts,
                k,
                at,
                best,
                cap,
            ).contains(successor(contacts[i], at)),
    decreases k,
{
    if k > 0 {
        lemma_expand_members(contacts, k - 1, at, best, cap);
        let earlier = expand(contacts, k - 1, at, best, cap);
        let now = expand(contacts, k, at, best, cap);
        assert forall|j: int| 0 <= j < now.len() implies from_contact(
            #[trigger] now[j],
            contacts,
            k,
            at,
            best,
            cap,
        ) by {
            if j < earlier.len() {
                assert(now[j] == earlier[j]);
                assert(from_contact(earlier[j], contacts, k - 1, at, best, cap));
                let i = choose|i: int|
                    0 <= i < k - 1 && admits(#[trigger] contacts[i], at, best, cap) && earlier[j]
                        == successor(contacts[i], at);
                assert(admits(contacts[i], at, best, cap));
            } else {
                assert(admits(contacts[k - 1], at, best, cap));
            }
        }
        assert forall|i: int|
            0 <= i < k && admits(#[trigger] contacts[i], at, best, cap) implies now.contains(
            successor(contacts[i], at),
        ) by {
            if i < k - 1 {
                let x = successor(contacts[i], at);
                assert(earlier.contains(x));
                let j = choose|j: int| 0 <= j < earlier.len() && earlier[j] == x;
                assert(now[j] == x);
            } else {
                assert(now[now.len() - 1] == successor(contacts[i], at));
            }
        }
    }
}

/// A feasible way extends over a feasible contact of its last node.
proof fn lemma_reaches_successor(
    g: Map<u32, Seq<Contact>>,
    src: u32,
    depart: int,
    at: Candidate,
    k: int,
)
    requires
        reaches(g, src, depart, at),
        0 <= k < contacts_of(g, at.node).len(),
        contacts_of(g, at.node)[k].usable_at(at.arrival as int),
    ensures
        reaches(g, src, depart, successor(contacts_of(g, at.node)[k], at)),
{
    let c = contacts_of(g, at.node)[k];
    let next = successor(c, at);
    let times = choose|times: Seq<int>|
        #[trigger] connects(g, src, depart, at.path, times) && times.last() == at.arrival
            && at.path.last() == at.node;
    lemma_arrival_bounds(c, at.arrival as int);
    let times2 = times.push(next.arrival as int);
    assert forall|i: int| 0 <= i < next.path.len() - 1 implies #[trigger] hop_at(
        g,
        next.path,
        times2,
        i,
    ) by {
        if i < at.path.len() - 1 {
            assert(hop_at(g, at.path, times, i));
        } else {
            assert(via(contacts_of(g, at.node)[k], times2[i], next.path[i + 1], times2[i + 1]));
        }
    }
    assert(connects(g, src, depart, next.path, times2));
}

/// What the search keeps true of a frontier candidate: it stands for a
/// feasible way that is within the hop cap, and the nodes before its last
/// are distinct, finalized and listed in the graph.
spec fn entry_ok(
    g: Map<u32, Seq<Contact>>,
    src: u32,
    depart: u64,
    cap: nat,
    best: Map<u32, u64>,
    e: Candidate,
) -> bool {
    &&& reaches(g, src, depart as int, e)
    &&& e.path.len() >= 1
    &&& e.path.len() - 1 <= cap
    &&& e.path.drop_last().no_duplicates()
    &&& forall|j: int|
        0 <= j < e.path.len() - 1 ==> best.contains_key(#[trigger] e.path[j]) && g.contains_key(
            e.path[j],
        )
}

/// Node `v` is finalized by instant `t`, or a candidate for it that arrives
/// by `t` waits on the frontier.
spec fn covered(s: SearchState, v: u32, t: int) -> bool {
    ||| (s.best.contains_key(v) && s.best[v] <= t)
    ||| exists|j: int|
        0 <= j < s.frontier.len() && (#[trigger] s.frontier[j]).node == v && s.frontier[j].arrival
            <= t
}

/// Every feasible contact out of a finalized node has its far end covered.
spec fn relaxed(g: Map<u32, Seq<Contact>>, s: SearchState) -> bool {
    forall|u: u32, k: int|
        s.best.contains_key(u) && 0 <= k < contacts_of(g, u).len() && (#[trigger] contacts_of(
            g,
            u,
        )[k]).usable_at(s.best[u] as int) ==> covered(
            s,
            contacts_of(g, u)[k].destination,
            contacts_of(g, u)[k].arrival_spec(s.best[u] as int),
        )
}

/// No node was finalized later than a candidate that is still waiting.
spec fn ordered(s: SearchState) -> bool {
    forall|u: u32, j: int|
        #![trigger s.best[u], s.frontier[j]]
        s.best.contains_key(u) && 0 <= j < s.frontier.len() ==> s.best[u] <= s.frontier[j].arrival
}

/// The hop cap is at least the number of nodes that the graph lists, so it
/// cuts off no path without a repeated node.
pub open spec fn cap_is_slack(g: Map<u32, Seq<Contact>>, cap: nat) -> bool {
    cap >= g.dom().len()
}

spec fn inv(
    g: Map<u32, Seq<Contact>>,
    src: u32,
    depart: u64,
    dst: u32,
    cap: nat,
    s: SearchState,
) -> bool {
    &&& forall|j: int|
        0 <= j < s.frontier.len() ==> entry_ok(
            g,
            src,
            depart,
            cap,
            s.best,
            #[trigger] s.frontier[j],
        )
    &&& covered(s, src, depart as int)
    &&& (cap_is_slack(g, cap) ==> relaxed(g, s))
    &&& ordered(s)
    &&& !s.best.contains_key(dst)
}

/// Taking candidate `m` off the frontier keeps covered what was covered,
/// whether its node was finalized before or is finalized now.
proof fn lemma_covered_survives(s: SearchState, n: SearchState, m: int, v: u32, t: int)
    requires
        covered(s, v, t),
        ordered(s),
        0 <= m < s.frontier.len(),
        n.frontier.len() >= s.frontier.len() - 1,
        forall|j: int|
            0 <= j < s.frontier.len() - 1 ==> #[trigger] n.frontier[j] == s.frontier.remove(m)[j],
        (n.best == s.best && s.best.contains_key(s.frontier[m].node)) || (n.best == s.best.insert(
            s.frontier[m].node,
            s.frontier[m].arrival,
        ) && !s.best.contains_key(s.frontier[m].node)),
    ensures
        covered(n, v, t),
{
    if s.best.contains_key(v) && s.best[v] <= t {
    } else {
        let j = choose|j: int|
            0 <= j < s.frontier.len() && (#[trigger] s.frontier[j]).node == v
                && s.frontier[j].arrival <= t;
        if j < m {
            assert(n.frontier[j] == s.frontier.remove(m)[j]);
            assert(n.frontier[j].node == v);
        } else if j > m {
            assert(n.frontier[j - 1] == s.frontier.remove(m)[j - 1]);
            assert(n.frontier[j - 1].node == v);
        } else {
            assert(s.frontier[m].node == v);
            if s.best.contains_key(v) {
                assert(s.best[v] <= s.frontier[m].arrival);
            }
            assert(n.best.contains_key(v) && n.best[v] <= t);
        }
    }
}

proof fn lemma_inv_stale(
    g: Map<u32, Seq<Contact>>,
    src: u32,
    depart: u64,
    dst: u32,
    cap: nat,
    s: SearchState,
)
    requires
        inv(g, src, depart, dst, cap, s),
        s.frontier.len() > 0,
        s.best.contains_key(s.frontier[first_min(s.frontier)].node),
    ensures
        step(g, dst, cap, s) is Continue,
        inv(g, src, depart, dst, cap, step(g, dst, cap, s)->Continue_0),
{
    lemma_first_min_in_range(s.frontier);
    let m = first_min(s.frontier);
    let n = step(g, dst, cap, s)->Continue_0;
    assert(n.frontier == s.frontier.remove(m));
    assert forall|j: int| 0 <= j < n.frontier.len() implies entry_ok(
        g,
        src,
        depart,
        cap,
        n.best,
        #[trigger] n.frontier[j],
    ) by {
        if j < m {
            assert(n.frontier[j] == s.frontier[j]);
        } else {
            assert(n.frontier[j] == s.frontier[j + 1]);
        }
    }
    lemma_covered_survives(s, n, m, src, depart as int);
    if cap_is_slack(g, cap) {
        assert forall|u: u32, k: int|
            n.best.contains_key(u) && 0 <= k < contacts_of(g, u).len() && (#[trigger] contacts_of(
                g,
                u,
            )[k]).usable_at(n.best[u] as int) implies covered(
            n,
            contacts_of(g, u)[k].destination,
            contacts_of(g, u)[k].arrival_spec(n.best[u] as int),
        ) by {
            lemma_covered_survives(
                s,
                n,
                m,
                contacts_of(g, u)[k].destination,
                contacts_of(g, u)[k].arrival_spec(s.best[u] as int),
            );
        }
    }
    assert forall|u: u32, j: int|
        #![trigger n.best[u], n.frontier[j]]
        n.best.contains_key(u) && 0 <= j < n.frontier.len() implies n.best[u]
        <= n.frontier[j].arrival by {
        if j < m {
            assert(n.frontier[j] == s.frontier[j]);
        } else {
            assert(n.frontier[j] == s.frontier[j + 1]);
        }
    }
}

/// A path whose nodes before the last are distinct and finalized, and whose
/// last node is not finalized, repeats no node.
proof fn lemma_path_distinct(best: Map<u32, u64>, path: Seq<u32>)
    requires
        path.len() >= 1,
        path.drop_last().no_duplicates(),
        forall|j: int| 0 <= j < path.len() - 1 ==> best.contains_key(#[trigger] path[j]),
        !best.contains_key(path.last()),
    ensures
        path.no_duplicates(),
{
    let front = path.drop_last();
    assert forall|a: int, b: int|
        0 <= a < path.len() && 0 <= b < path.len() && a != b implies path[a] != path[b] by {
        if a < path.len() - 1 && b < path.len() - 1 {
            assert(front[a] == path[a] && front[b] == path[b]);
        } else if a < path.len() - 1 {
            assert(best.contains_key(path[a]));
        } else {
            assert(best.contains_key(path[b]));
        }
    }
}

/// A path that repeats no node and visits listed nodes only is no longer
/// than the list.
proof fn lemma_path_within_graph(g: Map<u32, Seq<Contact>>, path: Seq<u32>)
    requires
        g.dom().finite(),
        path.no_duplicates(),
        forall|j: int| 0 <= j < path.len() ==> g.contains_key(#[trigger] path[j]),
    ensures
        path.len() <= g.dom().len(),
{
    path.unique_seq_to_set();
    assert(path.to_set().subset_of(g.dom())) by {
        assert forall|v: u32| path.to_set().contains(v) implies g.dom().contains(v) by {
            let j = choose|j: int| 0 <= j < path.len() && path[j] == v;
            assert(g.contains_key(path[j]));
        }
    }
    vstd::set_lib::lemma_len_subset(path.to_set(), g.dom());
}

/// The successor over an admitted contact of a freshly finalized candidate
/// is again a sound frontier candidate.
proof fn lemma_pushed_ok(
    g: Map<u32, Seq<Contact>>,
    src: u32,
    depart: u64,
    cap: nat,
    best: Map<u32, u64>,
    e: Candidate,
    i: int,
)
    requires
        entry_ok(g, src, depart, cap, best, e),
        !best.contains_key(e.node),
        0 <= i < contacts_of(g, e.node).len(),
        admits(contacts_of(g, e.node)[i], e, best.insert(e.node, e.arrival), cap),
    ensures
        entry_ok(
            g,
            src,
            depart,
            cap,
            best.insert(e.node, e.arrival),
            successor(contacts_of(g, e.node)[i], e),
        ),
        successor(contacts_of(g, e.node)[i], e).arrival >= e.arrival,
{
    let c = contacts_of(g, e.node)[i];
    let x = successor(c, e);
    let best2 = best.insert(e.node, e.arrival);
    lemma_reaches_successor(g, src, depart as int, e, i);
    lemma_arrival_bounds(c, e.arrival as int);
    assert(x.path.drop_last() =~= e.path);
    lemma_path_distinct(best, e.path);
    assert forall|j: int| 0 <= j < x.path.len() - 1 implies best2.contains_key(
        #[trigger] x.path[j],
    ) && g.contains_key(x.path[j]) by {
        assert(x.path[j] == e.path[j]);
        if j < e.path.len() - 1 {
            assert(best.contains_key(e.path[j]));
        }
    }
}

proof fn lemma_inv_fresh(
    g: Map<u32, Seq<Contact>>,
    src: u32,
    depart: u64,
    dst: u32,
    cap: nat,
    s: SearchState,
)
    requires
        g.dom().finite(),
        inv(g, src, depart, dst, cap, s),
        s.frontier.len() > 0,
        !s.best.contains_key(s.frontier[first_min(s.frontier)].node),
        s.frontier[first_min(s.frontier)].node != dst,
    ensures
        step(g, dst, cap, s) is Continue,
        inv(g, src, depart, dst, cap, step(g, dst, cap, s)->Continue_0),
{
    lemma_first_min_least(s.frontier);
    let m = first_min(s.frontier);
    let e = s.frontier[m];
    let n = step(g, dst, cap, s)->Continue_0;
    let rest = s.frontier.remove(m);
    let contacts = contacts_of(g, e.node);
    let pushed = expand(contacts, contacts.len() as int, e, n.best, cap);
    assert(n.best == s.best.insert(e.node, e.arrival));
    assert(n.frontier == rest + pushed);
    lemma_expand_members(contacts, contacts.len() as int, e, n.best, cap);
    assert(entry_ok(g, src, depart, cap, s.best, e));

    // What holds of each candidate on the new frontier.
    assert forall|j: int| 0 <= j < n.frontier.len() implies entry_ok(
        g,
        src,
        depart,
        cap,
        n.best,
        #[trigger] n.frontier[j],
    ) && n.frontier[j].arrival >= e.arrival by {
        if j < rest.len() {
            let old = if j < m {
                j
            } else {
                j + 1
            };
            assert(n.frontier[j] == s.frontier[old]);
            assert(entry_ok(g, src, depart, cap, s.best, s.frontier[old]));
            let kept = s.frontier[old].path;
            assert forall|a: int| 0 <= a < kept.len() - 1 implies n.best.contains_key(
                #[trigger] kept[a],
            ) && g.contains_key(kept[a]) by {
                assert(s.best.contains_key(kept[a]));
            }
        } else {
            let x = pushed[j - rest.len()];
            assert(n.frontier[j] == x);
            assert(from_contact(x, contacts, contacts.len() as int, e, n.best, cap));
            let i = choose|i: int|
                0 <= i < contacts.len() && admits(#[trigger] contacts[i], e, n.best, cap) && x
                    == successor(contacts[i], e);
            lemma_pushed_ok(g, src, depart, cap, s.best, e, i);
        }
    }

    lemma_covered_survives(s, n, m, src, depart as int);

    if cap_is_slack(g, cap) {
        assert forall|u: u32, k: int|
            n.best.contains_key(u) && 0 <= k < contacts_of(g, u).len() && (#[trigger] contacts_of(
                g,
                u,
            )[k]).usable_at(n.best[u] as int) implies covered(
            n,
            contacts_of(g, u)[k].destination,
            contacts_of(g, u)[k].arrival_spec(n.best[u] as int),
        ) by {
            let c = contacts_of(g, u)[k];
            if u != e.node {
                assert(s.best.contains_key(u) && s.best[u] == n.best[u]);
                lemma_covered_survives(s, n, m, c.destination, c.arrival_spec(s.best[u] as int));
            } else {
                let t = c.arrival_spec(e.arrival as int);
                lemma_arrival_bounds(c, e.arrival as int);
                if n.best.contains_key(c.destination) {
                    if c.destination != e.node {
                        assert(s.best[c.destination] <= s.frontier[m].arrival);
                    }
                } else {
                    lemma_path_distinct(s.best, e.path);
                    assert forall|j: int| 0 <= j < e.path.len() implies g.contains_key(
                        #[trigger] e.path[j],
                    ) by {
                        if j == e.path.len() - 1 {
                            assert(e.path.last() == e.node);
                        }
                    }
                    lemma_path_within_graph(g, e.path);
                    assert(admits(contacts[k], e, n.best, cap));
                    let x = successor(contacts[k], e);
                    assert(pushed.contains(x));
                    let jj = choose|jj: int| 0 <= jj < pushed.len() && pushed[jj] == x;
                    assert(n.frontier[rest.len() + jj] == x);
                }
            }
        }
    }

    assert forall|u: u32, j: int|
        #![trigger n.best[u], n.frontier[j]]
        n.best.contains_key(u) && 0 <= j < n.frontier.len() implies n.best[u]
        <= n.frontier[j].arrival by {
        assert(entry_ok(g, src, depart, cap, n.best, n.frontier[j]) && n.frontier[j].arrival
            >= e.arrival);
        if u != e.node {
            assert(s.best[u] <= s.frontier[m].arrival);
        }
    }
}

/// Node `v` is finalized by `t`, or some candidate that arrives by `t` waits
/// on the frontier.
spec fn within_reach(s: SearchState, v: u32, t: int) -> bool {
    ||| (s.best.contains_key(v) && s.best[v] <= t)
    ||| exists|j: int| 0 <= j < s.frontier.len() && (#[trigger] s.frontier[j]).arrival <= t
}

/// Along any schedule from the source, every node is within reach of the
/// search at the instant at which the schedule is there.
proof fn lemma_schedule_within_reach(
    g: Map<u32, Seq<Contact>>,
    src: u32,
    depart: u64,
    s: SearchState,
    path: Seq<u32>,
    times: Seq<int>,
    i: int,
)
    requires
        covered(s, src, depart as int),
        relaxed(g, s),
        connects(g, src, depart as int, path, times),
        0 <= i < path.len(),
    ensures
        within_reach(s, path[i], times[i]),
    decreases i,
{
    if i == 0 {
        if !(s.best.contains_key(src) && s.best[src] <= depart) {
            let j = choose|j: int|
                0 <= j < s.frontier.len() && (#[trigger] s.frontier[j]).node == src
                    && s.frontier[j].arrival <= depart;
            assert(s.frontier[j].arrival <= times[0]);
        }
    } else {
        lemma_schedule_within_reach(g, src, depart, s, path, times, i - 1);
        assert(hop_at(g, path, times, i - 1));
        let u = path[i - 1];
        let k = choose|k: int|
            0 <= k < contacts_of(g, u).len() && via(
                #[trigger] contacts_of(g, u)[k],
                times[i - 1],
                path[i],
                times[i],
            );
        let c = contacts_of(g, u)[k];
        lemma_arrival_bounds(c, times[i - 1]);
        if s.best.contains_key(u) && s.best[u] <= times[i - 1] {
            lemma_earlier_is_better(c, s.best[u] as int, times[i - 1]);
            let t = c.arrival_spec(s.best[u] as int);
            assert(covered(s, c.destination, t));
            if !(s.best.contains_key(path[i]) && s.best[path[i]] <= t) {
                let j = choose|j: int|
                    0 <= j < s.frontier.len() && (#[trigger] s.frontier[j]).node == path[i]
                        && s.frontier[j].arrival <= t;
                assert(s.frontier[j].arrival <= times[i]);
            }
        } else {
            let j = choose|j: int|
                0 <= j < s.frontier.len() && (#[trigger] s.frontier[j]).arrival <= times[i - 1];
            assert(s.frontier[j].arrival <= times[i]);
        }
    }
}

/// No schedule from `src` at `depart` ends at `dst` before instant `a`.
pub open spec fn earliest(g: Map<u32, Seq<Contact>>, src: u32, depart: int, dst: u32, a: int)
    -> bool {
    forall|path: Seq<u32>, times: Seq<int>|
        #[trigger] connects(g, src, depart, path, times) && path.last() == dst ==> a
            <= times.last()
}

/// No schedule from `src` at `depart` ends at `dst`.
pub open spec fn unreachable(g: Map<u32, Seq<Contact>>, src: u32, depart: int, dst: u32) -> bool {
    forall|path: Seq<u32>, times: Seq<int>|
        !(#[trigger] connects(g, src, depart, path, times) && path.last() == dst)
}

/// What the search owes: a found route is a feasible way from `src` to `dst`
/// within the hop cap that visits no node twice; where the cap is slack it
/// is an earliest one, and where none is found there is none.
pub open spec fn route_is_correct(
    g: Map<u32, Seq<Contact>>,
    src: u32,
    dst: u32,
    depart: u64,
    cap: nat,
    r: Option<Candidate>,
) -> bool {
    match r {
        Some(c) => {
            &&& c.node == dst
            &&& reaches(g, src, depart as int, c)
            &&& c.path.len() - 1 <= cap
            &&& c.path.no_duplicates()
            &&& cap_is_slack(g, cap) ==> earliest(g, src, depart as int, dst, c.arrival as int)
        },
        None => cap_is_slack(g, cap) ==> unreachable(g, src, depart as int, dst),
    }
}

proof fn lemma_run_correct(
    g: Map<u32, Seq<Contact>>,
    src: u32,
    depart: u64,
    dst: u32,
    cap: nat,
    s: SearchState,
)
    requires
        g.dom().finite(),
        inv(g, src, depart, dst, cap, s),
    ensures
        route_is_correct(g, src, dst, depart, cap, run(g, dst, cap, s)),
    decreases pending(g, s), s.frontier.len(),
{
    if s.frontier.len() == 0 {
        if cap_is_slack(g, cap) {
            assert forall|path: Seq<u32>, times: Seq<int>|
                !(#[trigger] connects(g, src, depart as int, path, times) && path.last()
                    == dst) by {
                if connects(g, src, depart as int, path, times) && path.last() == dst {
                    lemma_schedule_within_reach(g, src, depart, s, path, times, path.len() - 1);
                }
            }
        }
    } else {
        lemma_first_min_least(s.frontier);
        let m = first_min(s.frontier);
        let e = s.frontier[m];
        if s.best.contains_key(e.node) {
            lemma_inv_stale(g, src, depart, dst, cap, s);
            lemma_step_decreases(g, dst, cap, s);
            lemma_run_correct(g, src, depart, dst, cap, step(g, dst, cap, s)->Continue_0);
        } else if e.node == dst {
            assert(entry_ok(g, src, depart, cap, s.best, e));
            assert(e.path.last() == e.node);
            lemma_path_distinct(s.best, e.path);
            if cap_is_slack(g, cap) {
                assert forall|path: Seq<u32>, times: Seq<int>|
                    #[trigger] connects(g, src, depart as int, path, times) && path.last()
                        == dst implies e.arrival <= times.last() by {
                    lemma_schedule_within_reach(g, src, depart, s, path, times, path.len() - 1);
                    let j = choose|j: int|
                        0 <= j < s.frontier.len() && (#[trigger] s.frontier[j]).arrival
                            <= times[path.len() - 1];
                    assert(e.arrival <= s.frontier[j].arrival);
                }
            }
        } else {
            lemma_inv_fresh(g, src, depart, dst, cap, s);
            lemma_step_decreases(g, dst, cap, s);
            lemma_run_correct(g, src, depart, dst, cap, step(g, dst, cap, s)->Continue_0);
        }
    }
}

/// The route search is correct: what it finds is a feasible way within the
/// hop cap, each hop inside its contact window; with a hop cap no smaller
/// than the number of listed nodes it finds an earliest arrival, and finds
/// nothing only where the destination cannot be reached.
pub proof fn lemma_route_correct(
    g: Map<u32, Seq<Contact>>,
    src: u32,
    dst: u32,
    depart: u64,
    cap: nat,
)
    requires
        g.dom().finite(),
    ensures
        route_is_correct(g, src, dst, depart, cap, route_of(g, src, dst, depart, cap)),
{
    let s = initial(src, depart);
    let e = s.frontier[0];
    let times = seq![depart as int];
    assert(connects(g, src, depart as int, e.path, times));
    assert(e.path.drop_last() =~= Seq::<u32>::empty());
    assert(s.frontier[0].node == src);
    lemma_run_correct(g, src, depart, dst, cap, s);
}

/// Every hop of a found route arrives inside the window of a contact that
/// joins its two nodes.
pub proof fn lemma_route_respects_windows(
    g: Map<u32, Seq<Contact>>,
    src: u32,
    dst: u32,
    depart: u64,
    cap: nat,
)
    requires
        g.dom().finite(),
        route_of(g, src, dst, depart, cap) is Some,
    ensures
        ({
            let c = route_of(g, src, dst, depart, cap)->Some_0;
            exists|times: Seq<int>|
                {
                    &&& #[trigger] is_schedule(g, c.path, times)
                    &&& c.path[0] == src
                    &&& c.path.last() == dst
                    &&& times[0] == depart
                    &&& times.last() == c.arrival
                }
        }),
{
    lemma_route_correct(g, src, dst, depart, cap);
    let c = route_of(g, src, dst, depart, cap)->Some_0;
    let times = choose|times: Seq<int>|
        #[trigger] connects(g, src, depart as int, c.path, times) && times.last() == c.arrival
            && c.path.last() == c.node;
    assert(is_schedule(g, c.path, times));
}

} // verus!
