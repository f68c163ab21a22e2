//! Service processes.

pub mod monitor;
pub mod readiness;
pub mod spawn;
