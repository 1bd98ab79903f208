//! The sample of a node and its relay score.

use vstd::prelude::*;
use rand::Rng;
use crate::common::{calculate_euclid_distance, clamped, euclid_distance, TICKS_PER_SECOND};

verus! {

/// Upper bound of the storage a satellite is created with.
pub const MAX_ONBOARD_STORAGE: u64 = 10000;

/// Upper bound of the energy score a satellite is created with.
pub const MAX_ENERGY_CAPACITY: u64 = 100;

/// One sample of a node of the mesh, as the position source supplies it.
/// Positions are in metres in the plane, times in ticks of the simulation
/// clock.
#[derive(Clone, Copy, Debug, PartialEq, Eq)]
pub struct Satellite {
    pub id: u32,
    pub position: (i64, i64),
    /// Where the node will be after the lookahead horizon.
    pub predicted_position: (i64, i64),
    pub velocity: u64,
    pub storage_on_board: u64,
    pub energy_efficiency: u64,
    /// Time until the node is closest to the ground station.
    pub time_to_downlink: u64,
    /// How long the node stays in communication range.
    pub communication_window: u64,
}

/// The distance of a node from the ground station.
pub open spec fn distance_to_ground(sat: Satellite, ground_position: (i64, i64)) -> u64 {
    clamped(euclid_distance(sat.position, ground_position))
}

/// The relay score of a node, in thousandths; lower is better:
/// `1.5 d + 0.5/(storage + 1) + 0.3/(energy + 1) + 1.0 t + 0.2/(window + 1)`
/// with `d` the distance to ground in metres, and `t` the time to downlink
/// and `window` the communication window, both in seconds. The sample holds
/// the two times in ticks, so the time term is `1000 t` over the ticks of a
/// second and the window term is `200` seconds' ticks over the window plus a
/// second, in ticks. Each quotient is rounded down to a thousandth.
pub open spec fn relay_score(sat: Satellite, ground_position: (i64, i64)) -> nat {
    (1500 * distance_to_ground(sat, ground_position) + 500int / (sat.storage_on_board + 1) + 300int
        / (sat.energy_efficiency + 1) + 1000 * sat.time_to_downlink / (TICKS_PER_SECOND as int)
        + 200 * TICKS_PER_SECOND / (sat.communication_window + TICKS_PER_SECOND)) as nat
}

/// `Rng::gen_range` of rand on the thread's generator, for a half-open range
/// of `i64`: some value of the range. The range must not be empty, else the
/// call panics.
#[verifier::external_body]
pub(crate) fn random_between(low: i64, high: i64) -> (r: i64)
    requires
        low < high,
    ensures
        low <= r < high,
{
    rand::thread_rng().gen_range(low..high)
}

impl Satellite {
    /// A satellite at `position`, not yet moved by the position source: its
    /// predicted position is its position and its downlink times are zero.
    /// Storage and energy score are drawn at random within their bounds.
    pub fn new(id: u32, position: (i64, i64), velocity: u64) -> (r: Satellite)
        ensures
            r.id == id,
            r.position == position,
            r.predicted_position == position,
            r.velocity == velocity,
            500 <= r.storage_on_board < MAX_ONBOARD_STORAGE,
            50 <= r.energy_efficiency < MAX_ENERGY_CAPACITY,
            r.time_to_downlink == 0,
            r.communication_window == 0,
    {
        Satellite {
            id,
            position,
            predicted_position: position,
            velocity,
            storage_on_board: random_between(500, MAX_ONBOARD_STORAGE as i64) as u64,
            energy_efficiency: random_between(50, MAX_ENERGY_CAPACITY as i64) as u64,
            time_to_downlink: 0,
            communication_window: 0,
        }
    }

    /// The distance of the satellite from the ground station.
    pub fn get_distance_from_ground(&self, ground_position: (i64, i64)) -> (r: u64)
        ensures
            r == distance_to_ground(*self, ground_position),
    {
        calculate_euclid_distance(&self.position, &ground_position)
    }

    /// The relay score of the satellite, in thousandths.
    pub fn calculate_relay_score(&self, ground_position: (i64, i64)) -> (r: u128)
        ensures
            r == relay_score(*self, ground_position),
    {
        let distance = self.get_distance_from_ground(ground_position) as u128;
        let storage_score: u128 = 500 / (self.storage_on_board as u128 + 1);
        let energy_score: u128 = 300 / (self.energy_efficiency as u128 + 1);
        let second = TICKS_PER_SECOND as u128;
        let time_score: u128 = 1000 * (self.time_to_downlink as u128) / second;
        let window_score: u128 = 200 * second / (self.communication_window as u128 + second);
        1500 * distance + storage_score + energy_score + time_score + window_score
    }
}

/// What a satellite knows of one of its neighbours; each entry is `None`
/// until it has been reported.
#[derive(Clone, Copy, Debug, PartialEq, Eq)]
pub struct NeighboringSatelliteInformation {
    pub id: u32,
    pub distance_from_source: Option<u64>,
    pub speed: Option<u64>,
    pub distance_from_ground: Option<u64>,
    pub available_storage: Option<u64>,
}

impl NeighboringSatelliteInformation {
    /// The record of neighbour `id`, with nothing reported yet.
    pub fn new(id: &u32) -> (r: NeighboringSatelliteInformation)
        ensures
            r == (NeighboringSatelliteInformation {
                id: *id,
                distance_from_source: None,
                speed: None,
                distance_from_ground: None,
                available_storage: None,
            }),
    {
        NeighboringSatelliteInformation {
            id: *id,
            distance_from_source: None,
            speed: None,
            distance_from_ground: None,
            available_storage: None,
        }
    }

    /// Records the neighbour's distance from the ground station.
    pub fn get_distance_from_ground(&mut self, distance: u64)
        ensures
            *final(self) == (NeighboringSatelliteInformation {
                distance_from_ground: Some(distance),
                ..*old(self)
            }),
    {
        self.distance_from_ground = Some(distance);
    }

    /// Records the neighbour's distance from the source.
    pub fn get_distance_from_source(&mut self, distance: u64)
        ensures
            *final(self) == (NeighboringSatelliteInformation {
                distance_from_source: Some(distance),
                ..*old(self)
            }),
    {
        self.distance_from_source = Some(distance);
    }

    /// Records the storage that the neighbour has available.
    pub fn get_available_storage(&mut self, available_storage: u64)
        ensures
            *final(self) == (NeighboringSatelliteInformation {
                available_storage: Some(available_storage),
                ..*old(self)
            }),
    {
        self.available_storage = Some(available_storage);
    }

    /// Records the neighbour's speed.
    pub fn get_speed(&mut self, speed: u64)
        ensures
            *final(self) == (NeighboringSatelliteInformation { speed: Some(speed), ..*old(self) }),
    {
        self.speed = Some(speed);
    }
}

} // verus!
