//! The definition of a supervisor.

use crate::text::owned;
use vstd::prelude::*;

verus! {

/// A supervisor definition.
#[derive(Debug, Clone)]
pub struct SupervisorDef {
    pub supervisor: SupervisorSection,
    pub restart: SupervisorRestartSection,
}

/// The supervisor's name and place.
#[derive(Debug, Clone)]
pub struct SupervisorSection {
    pub name: String,
    pub parent: Option<String>,
    pub strategy: RestartStrategy,
}

/// Which children a supervisor restarts when one of them exits.
#[derive(Debug, Clone, Copy, PartialEq, Eq, Structural)]
pub enum RestartStrategy {
    OneForOne,
    OneForAll,
    RestForOne,
}

/// How many restarts a supervisor bears.
#[derive(Debug, Clone)]
pub struct SupervisorRestartSection {
    pub max_restarts: u32,
    pub max_restart_window: String,
}

/// The strategy of a supervisor that names none.
pub fn default_strategy() -> (r: RestartStrategy)
    ensures
        r == RestartStrategy::OneForOne,
{
    RestartStrategy::OneForOne
}

/// The restarts that a supervisor that names no limit bears.
pub fn default_max_restarts() -> (r: u32)
    ensures
        r == 10,
{
    10
}

/// The window in which restarts count, where a supervisor names none.
pub fn default_max_restart_window() -> (r: String)
    ensures
        r@ == "300s"@,
{
    owned("300s")
}

impl Default for SupervisorRestartSection {
    fn default() -> (r: Self)
        ensures
            r.max_restarts == 10,
            r.max_restart_window@ == "300s"@,
    {
        SupervisorRestartSection {
            max_restarts: default_max_restarts(),
            max_restart_window: default_max_restart_window(),
        }
    }
}

} // verus!
