//! The order in which services start and stop.

pub mod cycle;
pub mod frontier;
pub mod graph;
