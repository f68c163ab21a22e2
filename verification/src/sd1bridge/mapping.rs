//! Names and states of units.

use crate::bus::{
    escape_lightly, lightly_escaped, object_paths_are_valid, valid_object_path, UNIT_BASE,
};
use crate::text::scan::{ends_with, has_suffix};
use crate::text::{cat, chars_of, owned, str_eq, string_of};
use vstd::prelude::*;
use vstd::slice::slice_subrange;

verus! {

/// The service behind a unit: its name without the ending.
pub open spec fn service_of(unit: Seq<char>) -> Seq<char> {
    if has_suffix(unit, ".service"@) {
        unit.take(unit.len() - 8)
    } else {
        unit
    }
}

/// The unit of a service: its name with the ending.
pub open spec fn unit_of(service: Seq<char>) -> Seq<char> {
    if has_suffix(service, ".service"@) {
        service
    } else {
        service + ".service"@
    }
}

/// The service behind a unit.
pub fn unit_to_service(unit_name: &str) -> (r: String)
    ensures
        r@ == service_of(unit_name@),
{
    let c = chars_of(unit_name);
    let ending = chars_of(".service");
    proof {
        reveal_strlit(".service");
    }
    if ends_with(&c, &ending) {
        string_of(slice_subrange(c.as_slice(), 0, c.len() - 8))
    } else {
        owned(unit_name)
    }
}

/// The unit of a service.
pub fn service_to_unit(service_name: &str) -> (r: String)
    ensures
        r@ == unit_of(service_name@),
{
    let c = chars_of(service_name);
    let ending = chars_of(".service");
    if ends_with(&c, &ending) {
        owned(service_name)
    } else {
        cat(service_name, ".service")
    }
}

/// The active state and the sub state of a unit, by the status of its
/// service.
pub open spec fn states_of(status: Seq<char>) -> (Seq<char>, Seq<char>) {
    if status == "running"@ {
        ("active"@, "running"@)
    } else if status == "starting"@ || status == "waiting-ready"@ {
        ("activating"@, "start"@)
    } else if status == "stopping"@ {
        ("deactivating"@, "stop"@)
    } else if status == "failed"@ {
        ("failed"@, "failed"@)
    } else if status == "abandoned"@ {
        ("failed"@, "abandoned"@)
    } else {
        ("inactive"@, "dead"@)
    }
}

proof fn lemma_statuses_differ()
    ensures
        "stopped"@ != "running"@,
        "stopped"@ != "starting"@,
        "stopped"@ != "waiting-ready"@,
        "stopped"@ != "stopping"@,
        "stopped"@ != "failed"@,
        "stopped"@ != "abandoned"@,
{
    reveal_strlit("stopped");
    reveal_strlit("running");
    reveal_strlit("starting");
    reveal_strlit("waiting-ready");
    reveal_strlit("stopping");
    reveal_strlit("failed");
    reveal_strlit("abandoned");
    assert("stopped"@[0] != "running"@[0]);
    assert("stopped"@.len() == 7 && "starting"@.len() == 8 && "waiting-ready"@.len() == 13
        && "stopping"@.len() == 8 && "failed"@.len() == 6 && "abandoned"@.len() == 9);
}

/// The active state and the sub state of a unit, by the status of its
/// service.
pub fn map_status(dynamod_status: &str) -> (r: (&'static str, &'static str))
    ensures
        (r.0@, r.1@) == states_of(dynamod_status@),
{
    proof {
        lemma_statuses_differ();
    }
    if str_eq(dynamod_status, "running") {
        ("active", "running")
    } else if str_eq(dynamod_status, "stopped") {
        ("inactive", "dead")
    } else if str_eq(dynamod_status, "starting") {
        ("activating", "start")
    } else if str_eq(dynamod_status, "waiting-ready") {
        ("activating", "start")
    } else if str_eq(dynamod_status, "stopping") {
        ("deactivating", "stop")
    } else if str_eq(dynamod_status, "failed") {
        ("failed", "failed")
    } else if str_eq(dynamod_status, "abandoned") {
        ("failed", "abandoned")
    } else {
        ("inactive", "dead")
    }
}

/// Every unit is loaded.
pub fn load_state(_dynamod_status: &str) -> (r: &'static str)
    ensures
        r@ == "loaded"@,
{
    "loaded"
}

/// The name of a unit on an object path.
pub fn escape_unit_path(unit_name: &str) -> (r: String)
    ensures
        r@ == lightly_escaped(unit_name@),
{
    escape_lightly(unit_name)
}

/// The object of a unit.
pub open spec fn unit_at(unit: Seq<char>) -> Seq<char> {
    UNIT_BASE@ + lightly_escaped(unit)
}

/// The path of the object of a unit.
pub fn unit_object_path(unit_name: &str) -> (r: String)
    ensures
        r@ == unit_at(unit_name@),
        valid_object_path(r@),
{
    proof {
        object_paths_are_valid(unit_name@);
    }
    let e = escape_lightly(unit_name);
    cat(UNIT_BASE, e.as_str())
}

/// A service is found behind its unit, unless its own name has the ending.
pub proof fn service_behind_its_unit(service: Seq<char>)
    requires
        !has_suffix(service, ".service"@),
    ensures
        service_of(unit_of(service)) == service,
{
    reveal_strlit(".service");
    let u = service + ".service"@;
    assert(u.skip(u.len() - 8) =~= ".service"@);
    assert(has_suffix(u, ".service"@));
    assert(u.take(u.len() - 8) =~= service);
}

/// A unit is found again from its service, unless the service's name has the
/// ending too.
pub proof fn unit_of_its_service(unit: Seq<char>)
    requires
        has_suffix(unit, ".service"@),
        !has_suffix(service_of(unit), ".service"@),
    ensures
        unit_of(service_of(unit)) == unit,
{
    reveal_strlit(".service");
    assert(unit.take(unit.len() - 8) + ".service"@ =~= unit);
}

/// The name of a unit stays as it is.
pub proof fn unit_of_a_unit(service: Seq<char>)
    ensures
        unit_of(unit_of(service)) == unit_of(service),
{
    reveal_strlit(".service");
    let u = service + ".service"@;
    assert(u.skip(u.len() - 8) =~= ".service"@);
    assert(has_suffix(u, ".service"@));
}

} // verus!
