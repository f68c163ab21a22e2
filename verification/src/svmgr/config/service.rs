//! The definition of a service.

use crate::names::NameMap;
use crate::text::num::{
    dec, number_is_made_of_digits, parse_nat, parsed_nat, written_number_is_read_back,
};
use crate::text::scan::{
    ends_with, has_suffix, is_digit, is_white, stripped, trim, white_space_around_is_taken_off,
};
use crate::text::{chars_of, owned};
use vstd::prelude::*;
use vstd::slice::slice_subrange;

verus! {

/// A service definition.
#[derive(Debug, Clone)]
pub struct ServiceDef {
    pub service: ServiceSection,
    pub restart: RestartSection,
    pub readiness: ReadinessSection,
    pub dependencies: DependencySection,
    pub cgroup: Option<CgroupSection>,
    pub namespace: Option<NamespaceSection>,
    pub shutdown: ShutdownSection,
}

/// What to run, and how.
#[derive(Debug, Clone)]
pub struct ServiceSection {
    pub name: String,
    pub supervisor: String,
    pub command: Vec<String>,
    pub workdir: Option<String>,
    pub service_type: ServiceType,
    pub environment: NameMap<String>,
    pub environment_file: Option<String>,
    pub user: Option<UserSection>,
}

/// The identity that a service runs under.
#[derive(Debug, Clone)]
pub struct UserSection {
    pub user: Option<String>,
    pub group: Option<String>,
    pub supplementary_groups: Vec<String>,
}

/// How a service's process behaves.
#[derive(Debug, Clone, Copy, PartialEq, Eq, Structural)]
pub enum ServiceType {
    Simple,
    Oneshot,
    Forking,
    Notify,
}

/// When a service is restarted.
#[derive(Debug, Clone)]
pub struct RestartSection {
    pub policy: RestartPolicy,
    pub delay: String,
    pub max_restarts: u32,
    pub max_restart_window: String,
}

/// Which exits lead to a restart.
#[derive(Debug, Clone, Copy, PartialEq, Eq, Structural)]
pub enum RestartPolicy {
    Permanent,
    Transient,
    Temporary,
}

/// How a service shows that it is ready.
#[derive(Debug, Clone)]
pub struct ReadinessSection {
    pub readiness_type: ReadinessType,
    pub port: Option<u16>,
    pub check_exec: Option<Vec<String>>,
    pub timeout: String,
}

/// The kinds of readiness check.
#[derive(Debug, Clone, Copy, PartialEq, Eq, Structural)]
pub enum ReadinessType {
    NoCheck,
    Notify,
    TcpPort,
    Exec,
    Fd,
}

/// The services that a service stands in relation to.
#[derive(Debug, Clone)]
pub struct DependencySection {
    pub required: Vec<String>,
    pub wants: Vec<String>,
    pub after: Vec<String>,
    pub before: Vec<String>,
}

/// Resource limits.
#[derive(Debug, Clone)]
pub struct CgroupSection {
    pub memory_max: Option<String>,
    pub memory_high: Option<String>,
    pub cpu_weight: Option<u32>,
    pub cpu_max: Option<String>,
    pub pids_max: Option<u32>,
    pub io_weight: Option<u32>,
}

/// The namespaces that a service runs in.
#[derive(Debug, Clone)]
pub struct NamespaceSection {
    pub enable: Vec<String>,
    pub bind_mounts: Vec<BindMount>,
    pub private_tmp: bool,
    pub protect_system: Option<String>,
}

/// A directory made visible at another place.
#[derive(Debug, Clone)]
pub struct BindMount {
    pub source: String,
    pub target: String,
    pub writable: bool,
}

/// How a service is stopped.
#[derive(Debug, Clone)]
pub struct ShutdownSection {
    pub stop_signal: String,
    pub stop_timeout: String,
    pub stop_exec: Option<Vec<String>>,
}

/// The supervisor of a service that names none.
pub fn default_supervisor() -> (r: String)
    ensures
        r@ == "root"@,
{
    owned("root")
}

/// The type of a service that names none.
pub fn default_service_type() -> (r: ServiceType)
    ensures
        r == ServiceType::Simple,
{
    ServiceType::Simple
}

/// The restart policy of a service that names none.
pub open spec fn usual_policy() -> RestartPolicy {
    RestartPolicy::Permanent
}

/// The restart policy of a service that names none.
pub fn default_restart_policy() -> (r: RestartPolicy)
    ensures
        r == usual_policy(),
{
    RestartPolicy::Permanent
}

/// The restart delay of a service that names none.
pub open spec fn usual_delay() -> Seq<char> {
    "1s"@
}

/// The restart delay of a service that names none.
pub fn default_delay() -> (r: String)
    ensures
        r@ == usual_delay(),
{
    owned("1s")
}

/// The restarts that a service that names no limit may have.
pub fn default_max_restarts() -> (r: u32)
    ensures
        r == 5,
{
    5
}

/// The window in which restarts count, where a service names none.
pub open spec fn usual_window() -> Seq<char> {
    "60s"@
}

/// The window in which restarts count, where a service names none.
pub fn default_max_restart_window() -> (r: String)
    ensures
        r@ == usual_window(),
{
    owned("60s")
}

/// The readiness check of a service that names none.
pub fn default_readiness_type() -> (r: ReadinessType)
    ensures
        r == ReadinessType::NoCheck,
{
    ReadinessType::NoCheck
}

/// The time to become ready, where a service names none.
pub open spec fn usual_readiness_timeout() -> Seq<char> {
    "30s"@
}

/// The time to become ready, where a service names none.
pub fn default_readiness_timeout() -> (r: String)
    ensures
        r@ == usual_readiness_timeout(),
{
    owned("30s")
}

/// The stop signal of a service that names none.
pub open spec fn usual_stop_signal() -> Seq<char> {
    "SIGTERM"@
}

/// The stop signal of a service that names none.
pub fn default_stop_signal() -> (r: String)
    ensures
        r@ == usual_stop_signal(),
{
    owned("SIGTERM")
}

/// The time to stop, where a service names none.
pub open spec fn usual_stop_timeout() -> Seq<char> {
    "10s"@
}

/// The time to stop, where a service names none.
pub fn default_stop_timeout() -> (r: String)
    ensures
        r@ == usual_stop_timeout(),
{
    owned("10s")
}

impl Default for RestartSection {
    fn default() -> (r: Self)
        ensures
            r.policy == RestartPolicy::Permanent,
            r.delay@ == "1s"@,
            r.max_restarts == 5,
            r.max_restart_window@ == "60s"@,
    {
        RestartSection {
            policy: default_restart_policy(),
            delay: default_delay(),
            max_restarts: default_max_restarts(),
            max_restart_window: default_max_restart_window(),
        }
    }
}

impl Default for ReadinessSection {
    fn default() -> (r: Self)
        ensures
            r.readiness_type == ReadinessType::NoCheck,
            r.port is None,
            r.check_exec is None,
            r.timeout@ == "30s"@,
    {
        ReadinessSection {
            readiness_type: default_readiness_type(),
            port: None,
            check_exec: None,
            timeout: default_readiness_timeout(),
        }
    }
}

impl Default for DependencySection {
    fn default() -> (r: Self)
        ensures
            r.required@.len() == 0,
            r.wants@.len() == 0,
            r.after@.len() == 0,
            r.before@.len() == 0,
    {
        DependencySection {
            required: Vec::new(),
            wants: Vec::new(),
            after: Vec::new(),
            before: Vec::new(),
        }
    }
}

impl Default for ShutdownSection {
    fn default() -> (r: Self)
        ensures
            r.stop_signal@ == "SIGTERM"@,
            r.stop_timeout@ == "10s"@,
            r.stop_exec is None,
    {
        ShutdownSection {
            stop_signal: default_stop_signal(),
            stop_timeout: default_stop_timeout(),
            stop_exec: None,
        }
    }
}

/// The seconds that a duration text stands for: a number, alone or followed
/// by `s`, `m` or `h`.
pub open spec fn duration_secs(text: Seq<char>) -> Option<nat> {
    let s = stripped(text);
    let head = parsed_nat(s.drop_last(), u64::MAX as nat);
    if s.len() > 0 && s.last() == 's' {
        head
    } else if s.len() > 0 && s.last() == 'm' {
        match head {
            Some(n) => Some(n * 60),
            None => None,
        }
    } else if s.len() > 0 && s.last() == 'h' {
        match head {
            Some(n) => Some(n * 3600),
            None => None,
        }
    } else {
        parsed_nat(s, u64::MAX as nat)
    }
}

/// Whether the seconds of a duration text can be counted in 64 bits.
pub open spec fn duration_fits(text: Seq<char>) -> bool {
    duration_secs(text) matches Some(n) ==> n <= u64::MAX
}

/// Reads a number and multiplies it, where the product can be held.
fn scaled(s: &[char], unit: u64) -> (r: Option<Option<u64>>)
    requires
        0 < unit <= 3600,
    ensures
        match r {
            Some(Some(n)) => parsed_nat(s@, u64::MAX as nat) matches Some(m) && n == m * unit,
            Some(None) => parsed_nat(s@, u64::MAX as nat) is None,
            None => parsed_nat(s@, u64::MAX as nat) matches Some(m) && m * unit > u64::MAX,
        },
{
    match parse_nat(s, u64::MAX) {
        Some(m) => {
            assert(m * unit < 0x1_0000_0000_0000_0000 * 3600) by (nonlinear_arith)
                requires
                    m <= 0xffff_ffff_ffff_ffff,
                    0 < unit <= 3600,
            ;
            let wide: u128 = m as u128 * unit as u128;
            if wide > u64::MAX as u128 {
                None
            } else {
                Some(Some(wide as u64))
            }
        },
        None => Some(None),
    }
}

/// The outer `None` says that the seconds cannot be counted in 64 bits.
fn duration_checked(s: &str) -> (r: Option<Option<u64>>)
    ensures
        match r {
            Some(Some(n)) => duration_secs(s@) == Some(n as nat),
            Some(None) => duration_secs(s@) is None,
            None => !duration_fits(s@),
        },
        r is Some ==> duration_fits(s@),
{
    let c = chars_of(s);
    let t = trim(&c);
    if t.len() == 0 {
        return Some(parse_nat(t, u64::MAX));
    }
    let last = t[t.len() - 1];
    let head = slice_subrange(t, 0, t.len() - 1);
    assert(head@ == t@.drop_last());
    if last == 's' {
        Some(parse_nat(head, u64::MAX))
    } else if last == 'm' {
        scaled(head, 60)
    } else if last == 'h' {
        scaled(head, 3600)
    } else {
        Some(parse_nat(t, u64::MAX))
    }
}

/// Whether `parse_duration_secs` can hold the result for `s`.
pub fn duration_in_range(s: &str) -> (r: bool)
    ensures
        r == duration_fits(s@),
{
    duration_checked(s).is_some()
}

/// Reads a duration such as "30s", "5m" or "1h", in seconds.
pub fn parse_duration_secs(s: &str) -> (r: Option<u64>)
    requires
        duration_fits(s@),
    ensures
        match r {
            Some(n) => duration_secs(s@) == Some(n as nat),
            None => duration_secs(s@) is None,
        },
{
    match duration_checked(s) {
        Some(r) => r,
        None => None,
    }
}

/// Whether a file of that name holds a definition: it has the ending, and
/// something before it.
pub fn is_definition_file(name: &str) -> (r: bool)
    ensures
        r == (name@.len() > 5 && has_suffix(name@, ".toml"@)),
{
    let c = chars_of(name);
    let ending = chars_of(".toml");
    c.len() > 5 && ends_with(&c, &ending)
}

/// A number of seconds, minutes or hours stands for that many seconds, sixty
/// times or 3600 times as many; a number alone stands for seconds. White space
/// around it does not matter.
pub proof fn duration_goes_by_its_unit(a: Seq<char>, n: nat, b: Seq<char>)
    requires
        n <= u64::MAX,
        forall|i: int| 0 <= i < a.len() ==> is_white(#[trigger] a[i]),
        forall|i: int| 0 <= i < b.len() ==> is_white(#[trigger] b[i]),
    ensures
        duration_secs(a + dec(n) + b) == Some(n),
        duration_secs(a + dec(n).push('s') + b) == Some(n),
        duration_secs(a + dec(n).push('m') + b) == Some(60 * n),
        duration_secs(a + dec(n).push('h') + b) == Some(3600 * n),
{
    written_number_is_read_back(n, u64::MAX as nat);
    white_space_around_is_taken_off(a, dec(n), b);
    white_space_around_is_taken_off(a, dec(n).push('s'), b);
    white_space_around_is_taken_off(a, dec(n).push('m'), b);
    white_space_around_is_taken_off(a, dec(n).push('h'), b);
    assert(dec(n).push('s').drop_last() =~= dec(n));
    assert(dec(n).push('m').drop_last() =~= dec(n));
    assert(dec(n).push('h').drop_last() =~= dec(n));
}

/// A text that is read as a duration holds digits, but for a plus sign before
/// them and a unit behind them; there is none in an empty text.
pub proof fn duration_is_made_of_digits(text: Seq<char>, i: int)
    requires
        duration_secs(text) is Some,
    ensures
        stripped(text).len() > 0,
        0 <= i < stripped(text).len() ==> is_digit(stripped(text)[i]) || (i == 0 && stripped(
            text,
        )[i] == '+') || (i == stripped(text).len() - 1 && (stripped(text)[i] == 's' || stripped(
            text,
        )[i] == 'm' || stripped(text)[i] == 'h')),
{
    let s = stripped(text);
    if s.len() > 0 && 0 <= i < s.len() {
        if s.last() == 's' || s.last() == 'm' || s.last() == 'h' {
            if i < s.len() - 1 {
                number_is_made_of_digits(s.drop_last(), u64::MAX as nat, i);
                assert(s.drop_last()[i] == s[i]);
            }
        } else {
            number_is_made_of_digits(s, u64::MAX as nat, i);
        }
    }
}

/// What holds of a service that names nothing: it is started again after a
/// second, its restarts count for a minute, it has half a minute to become ready
/// and ten seconds to stop.
pub proof fn usual_times_are_read()
    ensures
        duration_secs(usual_delay()) == Some(1nat),
        duration_secs(usual_window()) == Some(60nat),
        duration_secs(usual_readiness_timeout()) == Some(30nat),
        duration_secs(usual_stop_timeout()) == Some(10nat),
{
    reveal_with_fuel(dec, 3);
    reveal_strlit("1s");
    reveal_strlit("60s");
    reveal_strlit("30s");
    reveal_strlit("10s");
    let e = Seq::<char>::empty();
    duration_goes_by_its_unit(e, 1, e);
    duration_goes_by_its_unit(e, 60, e);
    duration_goes_by_its_unit(e, 30, e);
    duration_goes_by_its_unit(e, 10, e);
    assert(dec(1) =~= seq!['1']);
    assert(dec(60) =~= seq!['6', '0']);
    assert(dec(30) =~= seq!['3', '0']);
    assert(dec(10) =~= seq!['1', '0']);
    assert(e + dec(1).push('s') + e =~= "1s"@);
    assert(e + dec(60).push('s') + e =~= "60s"@);
    assert(e + dec(30).push('s') + e =~= "30s"@);
    assert(e + dec(10).push('s') + e =~= "10s"@);
}

} // verus!
