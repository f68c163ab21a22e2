//! What the manager of units answers.

use crate::bus::{object_path, BusError};
use crate::common::protocol::ServiceEntry;
use crate::logind::session::lemma_root_is_path;
use crate::sd1bridge::client::ServiceInfo;
use crate::sd1bridge::mapping::{
    map_status, service_of, service_to_unit, states_of, unit_at, unit_object_path, unit_of,
    unit_to_service,
};
use crate::sd1bridge::unit::described;
use crate::text::num::{dec, u64_text};
use crate::text::scan::{contains, has_part, stripped, trim};
use crate::text::{cat, chars_of, owned, str_eq, string_of};
use vstd::prelude::*;

verus! {

/// What a question for a unit is answered.
pub open spec fn unit_found(
    name: Seq<char>,
    status: Result<ServiceInfo, String>,
    r: Result<(String, String), BusError>,
) -> bool {
    match (status, r) {
        (Ok(_), Ok(u)) => u.0@ == unit_of(service_of(name)) && u.1@ == unit_at(u.0@),
        (Err(e), Err(f)) => f.failed_with(e@),
        _ => false,
    }
}

/// The unit of a service that is known, and its object.
pub fn get_unit(name: &str, status: Result<ServiceInfo, String>) -> (r: Result<
    (String, String),
    BusError,
>)
    ensures
        unit_found(name@, status, r),
{
    match status {
        Ok(_) => {
            let service = unit_to_service(name);
            let unit = service_to_unit(service.as_str());
            match object_path(unit_object_path(unit.as_str())) {
                Ok(p) => Ok((unit, p)),
                Err(e) => Err(e),
            }
        },
        Err(e) => Err(BusError::Failed(e)),
    }
}

/// What the number of a process is taken as.
pub open spec fn pid_taken_as(
    pid: u32,
    r: i32,
) -> bool {
    r == if pid > i32::MAX {
        pid - 0x1_0000_0000
    } else {
        pid as int
    }
}

/// The number of a process as the service manager takes it. One beyond its
/// range counts from the other end.
pub fn pid_argument(pid: u32) -> (r: i32)
    ensures
        pid_taken_as(pid, r),
{
    if pid > 0x7fff_ffff {
        (pid as i64 - 0x1_0000_0000) as i32
    } else {
        pid as i32
    }
}

/// What a question for the unit of a process is answered.
pub open spec fn unit_of_pid_found(
    pid: u32,
    name: Result<Option<String>, String>,
    r: Result<String, BusError>,
) -> bool {
    match (name, r) {
        (Ok(Some(n)), Ok(p)) => p@ == unit_at(unit_of(n@)),
        (Ok(None), Err(f)) => f.failed_with("no unit for PID "@ + dec(pid as nat)),
        (Err(e), Err(f)) => f.failed_with(e@),
        _ => false,
    }
}

/// The object of the unit that a process belongs to.
pub fn get_unit_by_pid(pid: u32, name: Result<Option<String>, String>) -> (r: Result<
    String,
    BusError,
>)
    ensures
        unit_of_pid_found(pid, name, r),
{
    match name {
        Ok(Some(n)) => {
            let unit = service_to_unit(n.as_str());
            object_path(unit_object_path(unit.as_str()))
        },
        Ok(None) => {
            let n = u64_text(pid as u64);
            Err(BusError::Failed(cat("no unit for PID ", n.as_str())))
        },
        Err(e) => Err(BusError::Failed(e)),
    }
}

/// A unit in a list.
#[derive(Debug)]
pub struct UnitEntry {
    pub name: String,
    pub description: String,
    pub load_state: String,
    pub active_state: String,
    pub sub_state: String,
    pub following: String,
    pub unit_path: String,
    pub job_id: u32,
    pub job_type: String,
    pub job_path: String,
}

/// Whether `u` shows the service `s`.
pub open spec fn shows(u: UnitEntry, s: ServiceEntry) -> bool {
    &&& u.name@ == unit_of(s.name@)
    &&& u.description@ == described(s.name@)
    &&& u.load_state@ == "loaded"@
    &&& (u.active_state@, u.sub_state@) == states_of(s.status@)
    &&& u.following@.len() == 0
    &&& u.unit_path@ == unit_at(u.name@)
    &&& u.job_id == 0
    &&& u.job_type@.len() == 0
    &&& u.job_path@ == "/"@
}

/// What a question for all units is answered.
pub open spec fn units_listed(
    services: Result<Vec<ServiceEntry>, String>,
    r: Result<Vec<UnitEntry>, BusError>,
) -> bool {
    match (services, r) {
        (Ok(s), Ok(v)) => {
            &&& v@.len() == s@.len()
            &&& forall|i: int| 0 <= i < v@.len() ==> shows(#[trigger] v@[i], s@[i])
        },
        (Err(e), Err(f)) => f.failed_with(e@),
        _ => false,
    }
}

/// All units: one for each service.
pub fn list_units(services: Result<Vec<ServiceEntry>, String>) -> (r: Result<
    Vec<UnitEntry>,
    BusError,
>)
    ensures
        units_listed(services, r),
{
    let services = match services {
        Ok(s) => s,
        Err(e) => {
            return Err(BusError::Failed(e));
        },
    };
    proof {
        lemma_root_is_path();
    }
    let job_path = object_path(owned("/"))?;
    let mut v: Vec<UnitEntry> = Vec::new();
    let mut i: usize = 0;
    while i < services.len()
        invariant
            i <= services.len(),
            job_path@ == "/"@,
            v@.len() == i,
            forall|k: int| 0 <= k < i ==> shows(#[trigger] v@[k], services@[k]),
        decreases services.len() - i,
    {
        let s = &services[i];
        let unit = service_to_unit(s.name.as_str());
        let (active, sub) = map_status(s.status.as_str());
        match object_path(unit_object_path(unit.as_str())) {
            Ok(p) => {
                let u = UnitEntry {
                    name: unit,
                    description: cat("dynamod service: ", s.name.as_str()),
                    load_state: owned("loaded"),
                    active_state: owned(active),
                    sub_state: owned(sub),
                    following: String::new(),
                    unit_path: p,
                    job_id: 0,
                    job_type: String::new(),
                    job_path: job_path.clone(),
                };
                assert(shows(u, services@[i as int]));
                v.push(u);
            },
            Err(e) => {
                return Err(e);
            },
        }
        i += 1;
    }
    Ok(v)
}

/// What a question for the number of units is answered.
pub open spec fn names_counted(
    services: Result<Vec<ServiceEntry>, String>,
    r: Result<u32, BusError>,
) -> bool {
    match (services, r) {
        (Ok(s), Ok(n)) => n == s@.len() % 0x1_0000_0000,
        (Err(e), Err(f)) => f.failed_with(e@),
        _ => false,
    }
}

/// The number of services. Beyond 32 bits they are counted from zero again.
pub fn n_names(services: Result<Vec<ServiceEntry>, String>) -> (r: Result<u32, BusError>)
    ensures
        names_counted(services, r),
{
    match services {
        Ok(s) => {
            let n = s.len() as u64;
            Ok((n % 0x1_0000_0000) as u32)
        },
        Err(e) => Err(BusError::Failed(e)),
    }
}

/// How many services have that status.
pub open spec fn count_status(s: Seq<ServiceEntry>, status: Seq<char>) -> nat
    decreases s.len(),
{
    if s.len() == 0 {
        0
    } else {
        count_status(s.drop_last(), status) + if s.last().status@ == status {
            1nat
        } else {
            0
        }
    }
}

/// What a question for the number of failed units is answered.
pub open spec fn failures_counted(
    services: Result<Vec<ServiceEntry>, String>,
    r: Result<u32, BusError>,
) -> bool {
    match (services, r) {
        (Ok(s), Ok(n)) => n == count_status(s@, "failed"@) % 0x1_0000_0000,
        (Err(e), Err(f)) => f.failed_with(e@),
        _ => false,
    }
}

/// The number of services that failed without leaving a status. Beyond 32
/// bits they are counted from zero again.
pub fn n_failed_units(services: Result<Vec<ServiceEntry>, String>) -> (r: Result<u32, BusError>)
    ensures
        failures_counted(services, r),
{
    let s = match services {
        Ok(s) => s,
        Err(e) => {
            return Err(BusError::Failed(e));
        },
    };
    let ghost o = s@;
    let mut n: u64 = 0;
    let mut i: usize = 0;
    assert(count_status(o.take(0), "failed"@) == 0);
    while i < s.len()
        invariant
            i <= s.len(),
            o == s@,
            n == count_status(o.take(i as int), "failed"@),
            n <= i,
        decreases s.len() - i,
    {
        proof {
            assert(o.take(i + 1).drop_last() =~= o.take(i as int));
            assert(o.take(i + 1).last() == s@[i as int]);
        }
        if str_eq(s[i].status.as_str(), "failed") {
            n += 1;
        }
        i += 1;
    }
    assert(o.take(o.len() as int) =~= o);
    Ok((n % 0x1_0000_0000) as u32)
}

/// A text in lower case, by the tables of Unicode.
pub uninterp spec fn unicode_lower(s: Seq<char>) -> Seq<char>;

/// `str::to_lowercase` of the standard library. Nothing is stated of which
/// characters it gives: that is left to the tables of Unicode.
#[verifier::external_body]
fn to_lowercase(s: &str) -> (r: String)
    ensures
        r@ == unicode_lower(s@),
{
    s.to_lowercase()
}

/// What a machine runs in, by the name of the product in lower case; nothing
/// where the name tells nothing.
pub open spec fn hypervisor_named(name: Seq<char>) -> Seq<char> {
    if has_part(name, "virtualbox"@) {
        "oracle"@
    } else if has_part(name, "vmware"@) {
        "vmware"@
    } else if has_part(name, "qemu"@) || has_part(name, "kvm"@) {
        "kvm"@
    } else if has_part(name, "hyper-v"@) {
        "microsoft"@
    } else {
        ""@
    }
}

/// What a machine runs in, by the name of the product in lower case.
pub fn hypervisor(lowered: &str) -> (r: &'static str)
    ensures
        r@ == hypervisor_named(lowered@),
{
    let c = chars_of(lowered);
    let virtualbox = chars_of("virtualbox");
    let vmware = chars_of("vmware");
    let qemu = chars_of("qemu");
    let kvm = chars_of("kvm");
    let hyperv = chars_of("hyper-v");
    if contains(&c, &virtualbox) {
        "oracle"
    } else if contains(&c, &vmware) {
        "vmware"
    } else if contains(&c, &qemu) || contains(&c, &kvm) {
        "kvm"
    } else if contains(&c, &hyperv) {
        "microsoft"
    } else {
        ""
    }
}

/// What the machine runs in, by the name of the product.
pub fn virtualization(product_name: Option<&str>) -> (r: String)
    ensures
        r@ == match product_name {
            Some(n) => hypervisor_named(unicode_lower(stripped(n@))),
            None => ""@,
        },
{
    match product_name {
        Some(n) => {
            let c = chars_of(n);
            let t = string_of(trim(&c));
            let lowered = to_lowercase(t.as_str());
            owned(hypervisor(lowered.as_str()))
        },
        None => owned(""),
    }
}

} // verus!
