//! What a unit tells of itself.

use crate::bus::{object_path, BusError};
use crate::sd1bridge::client::ServiceInfo;
use crate::sd1bridge::mapping::{
    map_status, service_of, states_of, unit_at, unit_object_path, unit_to_service,
};
use crate::text::{cat, cat3, owned};
use vstd::prelude::*;

verus! {

/// What a request to start, stop or restart a unit is answered.
pub open spec fn unit_acted_on(
    unit: Seq<char>,
    done: Result<(), String>,
    r: Result<String, BusError>,
) -> bool {
    match (done, r) {
        (Ok(_), Ok(p)) => p@ == unit_at(unit),
        (Err(e), Err(f)) => f.failed_with(e@),
        _ => false,
    }
}

/// The answer to a request to start, stop or restart a unit: its object, once
/// the service manager did it.
pub fn unit_result(unit_name: &str, done: Result<(), String>) -> (r: Result<String, BusError>)
    ensures
        unit_acted_on(unit_name@, done, r),
{
    match done {
        Ok(_) => object_path(unit_object_path(unit_name)),
        Err(e) => Err(BusError::Failed(e)),
    }
}

/// What a service is called to the user.
pub open spec fn described(service: Seq<char>) -> Seq<char> {
    "dynamod service: "@ + service
}

/// What the unit is called to the user.
pub fn description(unit_name: &str) -> (r: String)
    ensures
        r@ == described(service_of(unit_name@)),
{
    let s = unit_to_service(unit_name);
    cat("dynamod service: ", s.as_str())
}

/// What a question for the active state of a unit is answered.
pub open spec fn active_told(
    status: Result<ServiceInfo, String>,
    r: Result<String, BusError>,
) -> bool {
    match (status, r) {
        (Ok(i), Ok(t)) => t@ == states_of(i.status@).0,
        (Err(e), Err(f)) => f.failed_with(e@),
        _ => false,
    }
}

/// The active state of a unit.
pub fn active_state(status: Result<ServiceInfo, String>) -> (r: Result<String, BusError>)
    ensures
        active_told(status, r),
{
    match status {
        Ok(i) => {
            let (active, _sub) = map_status(i.status.as_str());
            Ok(owned(active))
        },
        Err(e) => Err(BusError::Failed(e)),
    }
}

/// What a question for the sub state of a unit is answered.
pub open spec fn sub_told(
    status: Result<ServiceInfo, String>,
    r: Result<String, BusError>,
) -> bool {
    match (status, r) {
        (Ok(i), Ok(t)) => t@ == states_of(i.status@).1,
        (Err(e), Err(f)) => f.failed_with(e@),
        _ => false,
    }
}

/// The sub state of a unit.
pub fn sub_state(status: Result<ServiceInfo, String>) -> (r: Result<String, BusError>)
    ensures
        sub_told(status, r),
{
    match status {
        Ok(i) => {
            let (_active, sub) = map_status(i.status.as_str());
            Ok(owned(sub))
        },
        Err(e) => Err(BusError::Failed(e)),
    }
}

/// What a question for the main process of a unit is answered.
pub open spec fn main_pid_told(
    status: Result<ServiceInfo, String>,
    r: Result<u32, BusError>,
) -> bool {
    match (status, r) {
        (Ok(i), Ok(p)) => {
            let n = match i.pid {
                Some(n) => n,
                None => 0,
            };
            p == if n < 0 {
                n + 0x1_0000_0000
            } else {
                n as int
            }
        },
        (Err(e), Err(f)) => f.failed_with(e@),
        _ => false,
    }
}

/// The main process of a unit; zero where it has none. A negative number
/// counts from the end of the range.
pub fn main_pid(status: Result<ServiceInfo, String>) -> (r: Result<u32, BusError>)
    ensures
        main_pid_told(status, r),
{
    match status {
        Ok(i) => {
            let n: i32 = match i.pid {
                Some(n) => n,
                None => 0,
            };
            if n < 0 {
                Ok((n as i64 + 0x1_0000_0000) as u32)
            } else {
                Ok(n as u32)
            }
        },
        Err(e) => Err(BusError::Failed(e)),
    }
}

/// The file that a unit is defined in.
pub fn fragment_path(unit_name: &str) -> (r: String)
    ensures
        r@ == "/etc/dynamod/services/"@ + service_of(unit_name@) + ".toml"@,
{
    let s = unit_to_service(unit_name);
    cat3("/etc/dynamod/services/", s.as_str(), ".toml")
}

} // verus!
