//! The mesh and its routing: node samples, contact discovery, the contact
//! graph with its diff, the route search with its model and laws, and the
//! delivery state machine.

pub mod cgr;
pub mod delivery;
pub mod diff;
pub mod graph;
pub mod route_laws;
pub mod route_model;
pub mod satellite;
pub mod tracking;
