//! Services under the names and states of units.

pub mod client;
pub mod manager;
pub mod mapping;
pub mod outcomes;
pub mod unit;
