//! Service and supervisor definitions.

pub mod service;
pub mod supervisor;
pub mod validate;
