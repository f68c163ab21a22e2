//! What all components share.

pub mod paths;
pub mod protocol;
pub mod types;
