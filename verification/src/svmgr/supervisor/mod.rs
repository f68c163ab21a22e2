//! The supervision of running services.

pub mod escalation;
pub mod groups;
pub mod intensity;
pub mod lifecycle;
pub mod outcomes;
pub mod strategy;
pub mod tree;
