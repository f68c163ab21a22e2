//! Who may do what. Everybody may do everything.

use vstd::prelude::*;

verus! {

/// Whether a caller may turn the machine off or put it to sleep: "yes".
pub fn check_power_action(_uid: u32, _action: &str) -> (r: &'static str)
    ensures
        r@ == "yes"@,
{
    "yes"
}

/// Whether a caller may change a session or a seat: always.
pub fn check_session_action(_uid: u32, _session_uid: u32) -> (r: bool)
    ensures
        r,
{
    true
}

} // verus!
