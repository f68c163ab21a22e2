//! The name of the machine, its language and its time.

pub mod hostname;
pub mod keyval;
pub mod locale;
pub mod timedate;
