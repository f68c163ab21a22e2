//! The service manager.

pub mod cgroup;
pub mod config;
pub mod dependency;
pub mod ipc;
pub mod manager;
pub mod namespace;
pub mod process;
pub mod shutdown;
pub mod supervisor;
