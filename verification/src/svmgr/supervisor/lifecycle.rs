//! The states of a service.

use crate::time::Instant;
use vstd::prelude::*;

verus! {

/// The state of a service.
#[derive(Debug, Clone, Copy, PartialEq, Eq, Structural)]
pub enum ServiceState {
    /// Not running: never started, or stopped as asked.
    Stopped,
    /// Started, but not ready yet.
    Starting,
    /// Running and ready.
    Running,
    /// Told to stop, but not gone yet.
    Stopping { deadline: Option<Instant> },
    /// Gone with a failure.
    Failed { exit_code: Option<i32>, signal: Option<i32> },
    /// Given up by its supervisor.
    Abandoned,
}

impl ServiceState {
    /// Whether there is a process that is meant to run.
    pub open spec fn is_up(self) -> bool {
        self is Running || self is Starting
    }

    /// Whether there is no process.
    pub open spec fn is_down(self) -> bool {
        self is Stopped || self is Failed || self is Abandoned
    }

    /// Whether there is a process that is meant to run.
    pub fn is_running(&self) -> (r: bool)
        ensures
            r == self.is_up(),
    {
        match self {
            ServiceState::Running => true,
            ServiceState::Starting => true,
            _ => false,
        }
    }

    /// Whether there is no process.
    pub fn is_stopped(&self) -> (r: bool)
        ensures
            r == self.is_down(),
    {
        match self {
            ServiceState::Stopped => true,
            ServiceState::Failed { .. } => true,
            ServiceState::Abandoned => true,
            _ => false,
        }
    }

    /// The name of the state.
    pub open spec fn name(self) -> Seq<char> {
        match self {
            ServiceState::Stopped => "stopped"@,
            ServiceState::Starting => "starting"@,
            ServiceState::Running => "running"@,
            ServiceState::Stopping { .. } => "stopping"@,
            ServiceState::Failed { .. } => "failed"@,
            ServiceState::Abandoned => "abandoned"@,
        }
    }

    /// The name of the state.
    pub fn display_name(&self) -> (r: &'static str)
        ensures
            r@ == self.name(),
    {
        match self {
            ServiceState::Stopped => "stopped",
            ServiceState::Starting => "starting",
            ServiceState::Running => "running",
            ServiceState::Stopping { .. } => "stopping",
            ServiceState::Failed { .. } => "failed",
            ServiceState::Abandoned => "abandoned",
        }
    }
}

/// No service is running and stopped at once. It is neither just while it is
/// stopping, and it is up from the moment that it starts.
pub proof fn running_is_not_stopped(s: ServiceState)
    ensures
        !(s.is_up() && s.is_down()),
        !s.is_up() && !s.is_down() <==> s is Stopping,
        s is Starting ==> s.is_up(),
        s is Running ==> s.is_up(),
{
}

/// Each state has its own name: two states have one name only where they are of
/// one kind.
pub proof fn states_have_their_own_names(a: ServiceState, b: ServiceState)
    ensures
        a.name() == b.name() ==> {
            &&& a is Stopped <==> b is Stopped
            &&& a is Starting <==> b is Starting
            &&& a is Running <==> b is Running
            &&& a is Stopping <==> b is Stopping
            &&& a is Failed <==> b is Failed
            &&& a is Abandoned <==> b is Abandoned
        },
        a is Stopped ==> a.name() == "stopped"@,
        a is Starting ==> a.name() == "starting"@,
        a is Running ==> a.name() == "running"@,
        a is Stopping ==> a.name() == "stopping"@,
        a is Failed ==> a.name() == "failed"@,
        a is Abandoned ==> a.name() == "abandoned"@,
{
    reveal_strlit("stopped");
    reveal_strlit("starting");
    reveal_strlit("running");
    reveal_strlit("stopping");
    reveal_strlit("failed");
    reveal_strlit("abandoned");
    assert("stopped"@.len() == 7 && "starting"@.len() == 8 && "running"@.len() == 7
        && "stopping"@.len() == 8 && "failed"@.len() == 6 && "abandoned"@.len() == 9);
    assert("stopped"@[0] == 's' && "running"@[0] == 'r' && "starting"@[2] == 'a'
        && "stopping"@[2] == 'o');
}

/// How a process ended.
#[derive(Debug, Clone, Copy)]
pub struct ExitInfo {
    pub exit_code: Option<i32>,
    pub signal: Option<i32>,
}

impl ExitInfo {
    /// Whether the process ended with the exit code zero.
    pub open spec fn normal(self) -> bool {
        self.exit_code == Some(0i32)
    }

    /// Whether the process ended with the exit code zero.
    pub fn is_normal(&self) -> (r: bool)
        ensures
            r == self.normal(),
    {
        match self.exit_code {
            Some(c) => c == 0,
            None => false,
        }
    }
}

/// Only the exit code zero is a good end: not another code, and no end without
/// one, whatever the signal.
pub proof fn only_zero_is_normal(e: ExitInfo, code: i32)
    ensures
        e.exit_code is None ==> !e.normal(),
        e.exit_code == Some(code) ==> (e.normal() <==> code == 0),
{
}

} // verus!
