//! The login manager.

pub mod acpi;
pub mod auth;
pub mod cgroup;
pub mod config;
pub mod consistency;
pub mod device;
pub mod handover;
pub mod inhibitor;
pub mod manager;
pub mod outcomes;
pub mod power;
pub mod properties;
pub mod runtime_dir;
pub mod seat;
pub mod session;
pub mod state;
pub mod svmgr_client;
pub mod teardown;
pub mod user;
