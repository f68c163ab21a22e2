//! Resource control by cgroups.

pub mod hierarchy;
pub mod limits;
pub mod monitor;
