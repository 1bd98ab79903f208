//! The relay fallback: choose the neighbour with the least relay score,
//! provided that it is closer to the ground than the source.

use vstd::prelude::*;
use crate::simulation::satellite::{distance_to_ground, relay_score, Satellite};

verus! {

/// Position, among the first `k` satellites, of the first one with the least
/// relay score, the source left out; `None` where there is no other
/// satellite among them.
pub open spec fn best_candidate(
    sats: Seq<Satellite>,
    source_id: u32,
    ground_position: (i64, i64),
    k: int,
) -> Option<int>
    decreases k,
{
    if k <= 0 {
        None
    } else {
        let earlier = best_candidate(sats, source_id, ground_position, k - 1);
        if sats[k - 1].id == source_id {
            earlier
        } else {
            match earlier {
                None => Some(k - 1),
                Some(b) => if relay_score(sats[k - 1], ground_position) < relay_score(
                    sats[b],
                    ground_position,
                ) {
                    Some(k - 1)
                } else {
                    Some(b)
                },
            }
        }
    }
}

/// The relay that the fallback chooses for `source`: the satellite with the
/// least relay score among the others, if it is strictly closer to the
/// ground than the source is; else none, and the source is its own relay.
pub open spec fn chosen_relay(
    source: Satellite,
    sats: Seq<Satellite>,
    ground_position: (i64, i64),
) -> Option<u32> {
    match best_candidate(sats, source.id, ground_position, sats.len() as int) {
        Some(b) => if distance_to_ground(sats[b], ground_position) < distance_to_ground(
            source,
            ground_position,
        ) {
            Some(sats[b].id)
        } else {
            None
        },
        None => None,
    }
}

/// The best candidate is another satellite than the source and no other
/// satellite among the first `k` has a smaller score; there is none only
/// where all of them are the source.
pub proof fn lemma_best_candidate_is_least(
    sats: Seq<Satellite>,
    source_id: u32,
    ground_position: (i64, i64),
    k: int,
)
    requires
        0 <= k <= sats.len(),
    ensures
        match best_candidate(sats, source_id, ground_position, k) {
            Some(b) => {
                &&& 0 <= b < k
                &&& sats[b].id != source_id
                &&& forall|j: int|
                    0 <= j < k && (#[trigger] sats[j]).id != source_id ==> relay_score(
                        sats[b],
                        ground_position,
                    ) <= relay_score(sats[j], ground_position)
            },
            None => forall|j: int| 0 <= j < k ==> (#[trigger] sats[j]).id == source_id,
        },
    decreases k,
{
    if k > 0 {
        lemma_best_candidate_is_least(sats, source_id, ground_position, k - 1);
    }
}

/// The fallback relay for `source` among `satellites`: the one with the
/// least relay score, the source left out and the first taken among equals,
/// if it is strictly closer to the ground than the source; `None` where the
/// source is its own relay.
pub fn find_best_relay(
    source: &Satellite,
    satellites: &Vec<Satellite>,
    ground_position: (i64, i64),
) -> (r: Option<u32>)
    ensures
        r == chosen_relay(*source, satellites@, ground_position),
{
    let mut best: Option<usize> = None;
    let mut best_score: u128 = 0;
    let mut i: usize = 0;
    while i < satellites.len()
        invariant
            i <= satellites.len(),
            match best {
                Some(b) => {
                    &&& b < i
                    &&& best_candidate(satellites@, source.id, ground_position, i as int) == Some(
                        b as int,
                    )
                    &&& best_score == relay_score(satellites@[b as int], ground_position)
                },
                None => best_candidate(satellites@, source.id, ground_position, i as int) is None,
            },
        decreases satellites.len() - i,
    {
        if satellites[i].id != source.id {
            let score = satellites[i].calculate_relay_score(ground_position);
            match best {
                None => {
                    best = Some(i);
                    best_score = score;
                },
                Some(_) => {
                    if score < best_score {
                        best = Some(i);
                        best_score = score;
                    }
                },
            }
        }
        i += 1;
    }
    match best {
        Some(b) => {
            if satellites[b].get_distance_from_ground(ground_position)
                < source.get_distance_from_ground(ground_position) {
                Some(satellites[b].id)
            } else {
                None
            }
        },
        None => None,
    }
}

} // verus!
