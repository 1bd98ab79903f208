//! Heuristics that stand in where a full route search is not warranted.

pub mod heuristics;
