//! The log daemon.

pub mod collector;
pub mod storage;
