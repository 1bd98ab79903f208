use satellite_simulation::routing::heuristics::find_best_relay;
use satellite_simulation::simulation::graph::SatelliteNetwork;
use satellite_simulation::simulation::satellite::Satellite;

const GROUND: (i64, i64) = (0, 0);

const SECOND: u64 = 1_000_000;

/// A sample with the given time to downlink in seconds and a window of three seconds.
fn sat(id: u32, position: (i64, i64), seconds_to_downlink: u64) -> Satellite {
    Satellite {
        id,
        position,
        predicted_position: position,
        velocity: 7_800,
        storage_on_board: 9,
        energy_efficiency: 2,
        time_to_downlink: seconds_to_downlink * SECOND,
        communication_window: 3 * SECOND,
    }
}

#[test]
fn relay_score_in_thousandths() {
    let s = sat(1, (3, 4), 7);
    assert_eq!(s.get_distance_from_ground(GROUND), 5);
    // 1.5 * 5 + 0.5 / 10 + 0.3 / 3 + 1.0 * 7 + 0.2 / 4 = 14.7
    assert_eq!(s.calculate_relay_score(GROUND), 14_700);
    // Each quotient is rounded down to a thousandth: 0.5 / 7 = 0.0714..., 0.3 / 7 = 0.0428...,
    // 0.2 / 7 = 0.0285...
    let mut odd = sat(2, (0, 0), 0);
    odd.storage_on_board = 6;
    odd.energy_efficiency = 6;
    odd.communication_window = 6 * SECOND;
    assert_eq!(odd.calculate_relay_score(GROUND), 71 + 42 + 28);
    // Nothing on board, nothing left, no window: the quotients are at their largest.
    let mut bare = sat(3, (0, 0), 0);
    bare.storage_on_board = 0;
    bare.energy_efficiency = 0;
    bare.communication_window = 0;
    assert_eq!(bare.calculate_relay_score(GROUND), 500 + 300 + 200);
}

#[test]
fn relay_score_counts_its_times_in_seconds() {
    let mut s = sat(1, (0, 0), 0);
    s.storage_on_board = u64::MAX;
    s.energy_efficiency = u64::MAX;
    s.communication_window = u64::MAX;
    assert_eq!(s.calculate_relay_score(GROUND), 0);
    // Two and a half seconds to downlink are 2.5, a millisecond is a thousandth.
    s.time_to_downlink = 2_500_000;
    assert_eq!(s.calculate_relay_score(GROUND), 2_500);
    s.time_to_downlink = 1_999;
    assert_eq!(s.calculate_relay_score(GROUND), 1);
    s.time_to_downlink = 999;
    assert_eq!(s.calculate_relay_score(GROUND), 0);
    // A window of half a second: 0.2 / 1.5 = 0.1333...
    s.time_to_downlink = 0;
    s.communication_window = 500_000;
    assert_eq!(s.calculate_relay_score(GROUND), 133);
    s.communication_window = 1;
    assert_eq!(s.calculate_relay_score(GROUND), 199);
}

#[test]
fn a_metre_weighs_more_than_a_second() {
    let source = sat(1, (100, 0), 0);
    // One metre closer and one second later: 15.0 + 1.0 against 16.5.
    let later_but_closer = sat(2, (10, 0), 1);
    let sooner_but_farther = sat(3, (11, 0), 0);
    assert_eq!(later_but_closer.calculate_relay_score(GROUND), 15_000 + 1_000 + 200);
    assert_eq!(sooner_but_farther.calculate_relay_score(GROUND), 16_500 + 200);
    assert_eq!(
        find_best_relay(&source, &vec![sooner_but_farther, later_but_closer], GROUND),
        Some(2)
    );
    // One metre closer and two seconds later: 15.0 + 2.0 against 16.5.
    let much_later = sat(2, (10, 0), 2);
    assert_eq!(find_best_relay(&source, &vec![sooner_but_farther, much_later], GROUND), Some(3));
}

#[test]
fn relay_score_does_not_overflow() {
    let mut far = sat(1, (i64::MAX, i64::MAX), 0);
    far.time_to_downlink = u64::MAX;
    far.storage_on_board = u64::MAX;
    far.energy_efficiency = u64::MAX;
    far.communication_window = u64::MAX;
    assert_eq!(far.get_distance_from_ground((i64::MIN, i64::MIN)), u64::MAX);
    assert_eq!(
        far.calculate_relay_score((i64::MIN, i64::MIN)),
        1500 * (u64::MAX as u128) + 18_446_744_073_709_551
    );
}

#[test]
fn relay_with_the_least_score_is_chosen() {
    let source = sat(1, (100, 0), 0);
    let others = vec![
        sat(2, (50, 0), 10), // 75 000 + 10 000 + 200
        sat(3, (60, 0), 0),  // 90 000 + 200
        sat(1, (0, 0), 0),   // the source itself is left out
        sat(4, (40, 0), 0),  // 60 000 + 200
        sat(5, (40, 0), 0),  // the same score: the first is kept
    ];
    assert_eq!(find_best_relay(&source, &others, GROUND), Some(4));
}

#[test]
fn relay_must_be_closer_to_the_ground_than_the_source() {
    let source = sat(1, (100, 0), 0);
    // The best score belongs to a satellite that is as far from the ground as the source.
    let level = vec![sat(2, (0, 100), 0), sat(3, (10, 0), 1_000)];
    assert_eq!(find_best_relay(&source, &level, GROUND), None);
    let farther = vec![sat(2, (0, 101), 0)];
    assert_eq!(find_best_relay(&source, &farther, GROUND), None);
    let closer = vec![sat(2, (0, 99), 0)];
    assert_eq!(find_best_relay(&source, &closer, GROUND), Some(2));
}

#[test]
fn no_other_satellite_means_no_relay() {
    let source = sat(1, (100, 0), 0);
    assert_eq!(find_best_relay(&source, &vec![], GROUND), None);
    assert_eq!(find_best_relay(&source, &vec![sat(1, (0, 0), 0)], GROUND), None);
}

#[test]
fn network_falls_back_to_the_source_itself() {
    let mut network = SatelliteNetwork::new();
    assert_eq!(network.find_best_relay(1, GROUND), None);
    network.add_satellite(&sat(1, (100, 0), 0));
    // Alone in the network: direct downlink.
    assert_eq!(network.find_best_relay(1, GROUND), Some(1));
    network.add_satellite(&sat(2, (500, 0), 0));
    assert_eq!(network.find_best_relay(1, GROUND), Some(1));
    assert_eq!(network.find_best_relay(2, GROUND), Some(1));
    network.add_satellite(&sat(3, (20, 0), 0));
    network.add_satellite(&sat(4, (30, 0), 0));
    assert_eq!(network.find_best_relay(1, GROUND), Some(3));
    assert_eq!(network.find_best_relay(4, GROUND), Some(3));
    assert_eq!(network.find_best_relay(2, GROUND), Some(3));
    assert_eq!(network.find_best_relay(3, GROUND), Some(3));
    assert_eq!(network.find_best_relay(9, GROUND), None);
}
