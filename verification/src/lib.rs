//! A delay-tolerant satellite mesh: contact discovery between nodes in
//! range of each other, a contact graph that is rebuilt on every tick and
//! tells what changed, a route engine that finds the earliest arrival over
//! time-windowed contacts and drives each delivery through its states, and
//! an envelope protocol under which only the sender and the ground station
//! can read a payload that relays forward.
//!
//! Positions are integers in metres, times are integers in ticks of the
//! simulation clock.

pub mod common;
pub mod routing;
pub mod security;
pub mod simulation;
