//! Logic of the dynamod init system.

pub mod bus;
pub mod common;
pub mod ctl;
pub mod fspath;
pub mod hostnamed;
pub mod ids;
pub mod logd;
pub mod logind;
pub mod names;
pub mod pam;
pub mod sd1bridge;
pub mod sdnotify;
pub mod svmgr;
pub mod text;
pub mod time;
