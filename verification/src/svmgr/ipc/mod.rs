//! What the service manager says to others.

pub mod control;
pub mod init_channel;
