//! The configuration of the login manager: lines of keys and values, with
//! comments and section headers in between.

use crate::text::case::{ascii_lower, lowered_text};
use crate::text::num::{
    dec, number_is_made_of_digits, parse_nat, parsed_nat, written_number_is_read_back,
};
use crate::text::scan::{
    deep, ends_with, has_suffix, is_digit, is_white, lemma_find_is, lines, lines_of, split_once,
    split_pair, stripped, trim, white_space_around_is_taken_off,
};
use crate::text::{chars_of, owned, str_eq, string_of};
use crate::time::Duration;
use vstd::prelude::*;
use vstd::slice::slice_subrange;

verus! {

/// Where the configuration is read from.
pub const DEFAULT_PATH: &'static str = "/etc/dynamod/logind.conf";

/// What is done when a key is pressed, a lid is closed or nothing happens.
#[derive(Debug, Clone, Copy, PartialEq, Eq, Structural)]
pub enum HandleAction {
    Ignore,
    Poweroff,
    Reboot,
    Halt,
    Suspend,
    Hibernate,
    HybridSleep,
    Lock,
}

/// The action of that name.
pub open spec fn action_named(s: Seq<char>) -> Option<HandleAction> {
    if s == "ignore"@ {
        Some(HandleAction::Ignore)
    } else if s == "poweroff"@ {
        Some(HandleAction::Poweroff)
    } else if s == "reboot"@ {
        Some(HandleAction::Reboot)
    } else if s == "halt"@ {
        Some(HandleAction::Halt)
    } else if s == "suspend"@ {
        Some(HandleAction::Suspend)
    } else if s == "hibernate"@ {
        Some(HandleAction::Hibernate)
    } else if s == "hybrid-sleep"@ {
        Some(HandleAction::HybridSleep)
    } else if s == "lock"@ {
        Some(HandleAction::Lock)
    } else {
        None
    }
}

impl HandleAction {
    /// The action of that name, with white space around it.
    pub fn parse(s: &str) -> (r: Option<Self>)
        ensures
            r == action_named(stripped(s@)),
    {
        let c = chars_of(s);
        let t = string_of(trim(&c));
        let t = t.as_str();
        if str_eq(t, "ignore") {
            Some(HandleAction::Ignore)
        } else if str_eq(t, "poweroff") {
            Some(HandleAction::Poweroff)
        } else if str_eq(t, "reboot") {
            Some(HandleAction::Reboot)
        } else if str_eq(t, "halt") {
            Some(HandleAction::Halt)
        } else if str_eq(t, "suspend") {
            Some(HandleAction::Suspend)
        } else if str_eq(t, "hibernate") {
            Some(HandleAction::Hibernate)
        } else if str_eq(t, "hybrid-sleep") {
            Some(HandleAction::HybridSleep)
        } else if str_eq(t, "lock") {
            Some(HandleAction::Lock)
        } else {
            None
        }
    }

    /// What an inhibitor has to name to hold the action back.
    pub open spec fn inhibited_by(self) -> Seq<char> {
        match self {
            HandleAction::Poweroff | HandleAction::Reboot | HandleAction::Halt => "shutdown"@,
            HandleAction::Suspend | HandleAction::HybridSleep | HandleAction::Hibernate => {
                "sleep"@
            },
            HandleAction::Lock | HandleAction::Ignore => ""@,
        }
    }

    /// What an inhibitor has to name to hold the action back.
    pub fn inhibit_what(self) -> (r: &'static str)
        ensures
            r@ == self.inhibited_by(),
    {
        match self {
            HandleAction::Poweroff | HandleAction::Reboot | HandleAction::Halt => "shutdown",
            HandleAction::Suspend | HandleAction::HybridSleep | HandleAction::Hibernate => "sleep",
            HandleAction::Lock | HandleAction::Ignore => "",
        }
    }
}

/// The configuration.
#[derive(Debug, Clone)]
pub struct Config {
    pub handle_power_key: HandleAction,
    pub handle_suspend_key: HandleAction,
    pub handle_hibernate_key: HandleAction,
    pub handle_lid_switch: HandleAction,
    pub handle_lid_switch_external_power: HandleAction,
    pub handle_lid_switch_docked: HandleAction,
    pub n_auto_vts: u32,
    pub kill_user_processes: bool,
    pub inhibit_delay_max: Duration,
    pub user_stop_delay: Duration,
    pub holdoff_timeout: Duration,
    pub runtime_directory_size: String,
    pub idle_action: HandleAction,
    pub idle_action_sec: Duration,
}

/// The configuration over texts.
pub struct Settings {
    pub handle_power_key: HandleAction,
    pub handle_suspend_key: HandleAction,
    pub handle_hibernate_key: HandleAction,
    pub handle_lid_switch: HandleAction,
    pub handle_lid_switch_external_power: HandleAction,
    pub handle_lid_switch_docked: HandleAction,
    pub n_auto_vts: u32,
    pub kill_user_processes: bool,
    pub inhibit_delay_max: Duration,
    pub user_stop_delay: Duration,
    pub holdoff_timeout: Duration,
    pub runtime_directory_size: Seq<char>,
    pub idle_action: HandleAction,
    pub idle_action_sec: Duration,
}

impl View for Config {
    type V = Settings;

    open spec fn view(&self) -> Settings {
        Settings {
            handle_power_key: self.handle_power_key,
            handle_suspend_key: self.handle_suspend_key,
            handle_hibernate_key: self.handle_hibernate_key,
            handle_lid_switch: self.handle_lid_switch,
            handle_lid_switch_external_power: self.handle_lid_switch_external_power,
            handle_lid_switch_docked: self.handle_lid_switch_docked,
            n_auto_vts: self.n_auto_vts,
            kill_user_processes: self.kill_user_processes,
            inhibit_delay_max: self.inhibit_delay_max,
            user_stop_delay: self.user_stop_delay,
            holdoff_timeout: self.holdoff_timeout,
            runtime_directory_size: self.runtime_directory_size@,
            idle_action: self.idle_action,
            idle_action_sec: self.idle_action_sec,
        }
    }
}

/// A span of whole seconds.
pub open spec fn secs(n: nat) -> Duration {
    Duration { secs: n as u64, nanos: 0 }
}

/// What holds where nothing is configured.
pub open spec fn default_settings() -> Settings {
    Settings {
        handle_power_key: HandleAction::Poweroff,
        handle_suspend_key: HandleAction::Suspend,
        handle_hibernate_key: HandleAction::Hibernate,
        handle_lid_switch: HandleAction::Suspend,
        handle_lid_switch_external_power: HandleAction::Suspend,
        handle_lid_switch_docked: HandleAction::Ignore,
        n_auto_vts: 6,
        kill_user_processes: false,
        inhibit_delay_max: secs(5),
        user_stop_delay: secs(10),
        holdoff_timeout: secs(30),
        runtime_directory_size: "10%"@,
        idle_action: HandleAction::Ignore,
        idle_action_sec: secs(1800),
    }
}

impl Default for Config {
    fn default() -> (r: Self)
        ensures
            r@ == default_settings(),
    {
        Config {
            handle_power_key: HandleAction::Poweroff,
            handle_suspend_key: HandleAction::Suspend,
            handle_hibernate_key: HandleAction::Hibernate,
            handle_lid_switch: HandleAction::Suspend,
            handle_lid_switch_external_power: HandleAction::Suspend,
            handle_lid_switch_docked: HandleAction::Ignore,
            n_auto_vts: 6,
            kill_user_processes: false,
            inhibit_delay_max: Duration::from_secs(5),
            user_stop_delay: Duration::from_secs(10),
            holdoff_timeout: Duration::from_secs(30),
            runtime_directory_size: owned("10%"),
            idle_action: HandleAction::Ignore,
            idle_action_sec: Duration::from_secs(1800),
        }
    }
}

/// The truth value that a text stands for.
pub open spec fn bool_named(text: Seq<char>) -> Option<bool> {
    let s = lowered_text(stripped(text));
    if s == "yes"@ || s == "true"@ || s == "on"@ || s == "1"@ {
        Some(true)
    } else if s == "no"@ || s == "false"@ || s == "off"@ || s == "0"@ {
        Some(false)
    } else {
        None
    }
}

/// Reads a truth value.
pub fn parse_bool(s: &str) -> (r: Option<bool>)
    ensures
        r == bool_named(s@),
{
    let c = chars_of(s);
    let t = string_of(&ascii_lower(trim(&c)));
    let t = t.as_str();
    if str_eq(t, "yes") || str_eq(t, "true") || str_eq(t, "on") || str_eq(t, "1") {
        Some(true)
    } else if str_eq(t, "no") || str_eq(t, "false") || str_eq(t, "off") || str_eq(t, "0") {
        Some(false)
    } else {
        None
    }
}

/// The number before the last `n` characters of a text.
pub open spec fn number_before(s: Seq<char>, n: nat) -> Option<nat> {
    parsed_nat(stripped(s.take(s.len() - n)), u64::MAX as nat)
}

/// The seconds that a time text stands for: a number, alone or followed by
/// `min`, `h` or `s`.
pub open spec fn time_secs(text: Seq<char>) -> Option<nat> {
    let s = stripped(text);
    match parsed_nat(s, u64::MAX as nat) {
        Some(n) => Some(n),
        None => if has_suffix(s, "min"@) {
            match number_before(s, "min"@.len()) {
                Some(n) => Some(n * 60),
                None => None,
            }
        } else if has_suffix(s, "h"@) {
            match number_before(s, "h"@.len()) {
                Some(n) => Some(n * 3600),
                None => None,
            }
        } else if has_suffix(s, "s"@) {
            number_before(s, "s"@.len())
        } else {
            None
        },
    }
}

/// Whether the seconds of a time text can be counted in 64 bits.
pub open spec fn time_fits(text: Seq<char>) -> bool {
    time_secs(text) matches Some(n) ==> n <= u64::MAX
}

fn scaled(n: u64, unit: u64) -> (r: Option<u64>)
    requires
        unit <= 3600,
    ensures
        match r {
            Some(m) => m == n * unit,
            None => n * unit > u64::MAX,
        },
{
    assert(n * unit <= 0xffff_ffff_ffff_ffff * 3600) by (nonlinear_arith)
        requires
            n <= 0xffff_ffff_ffff_ffff,
            0 <= unit <= 3600,
    ;
    let wide: u128 = n as u128 * unit as u128;
    if wide > u64::MAX as u128 {
        None
    } else {
        Some(wide as u64)
    }
}

/// The outer `None` says that the seconds cannot be counted in 64 bits.
fn time_checked(text: &str) -> (r: Option<Option<u64>>)
    ensures
        match r {
            Some(Some(n)) => time_secs(text@) == Some(n as nat),
            Some(None) => time_secs(text@) is None,
            None => !time_fits(text@),
        },
        r is Some ==> time_fits(text@),
{
    let c = chars_of(text);
    let s = trim(&c);
    if let Some(n) = parse_nat(s, u64::MAX) {
        return Some(Some(n));
    }
    let min = chars_of("min");
    if ends_with(s, &min) {
        let head = slice_subrange(s, 0, s.len() - min.len());
        return match parse_nat(trim(head), u64::MAX) {
            Some(n) => match scaled(n, 60) {
                Some(m) => Some(Some(m)),
                None => None,
            },
            None => Some(None),
        };
    }
    let h = chars_of("h");
    if ends_with(s, &h) {
        let head = slice_subrange(s, 0, s.len() - h.len());
        return match parse_nat(trim(head), u64::MAX) {
            Some(n) => match scaled(n, 3600) {
                Some(m) => Some(Some(m)),
                None => None,
            },
            None => Some(None),
        };
    }
    let sec = chars_of("s");
    if ends_with(s, &sec) {
        let head = slice_subrange(s, 0, s.len() - sec.len());
        return Some(parse_nat(trim(head), u64::MAX));
    }
    Some(None)
}

/// Whether `parse_duration_sec` can hold the result for `s`.
pub fn time_in_range(s: &str) -> (r: bool)
    ensures
        r == time_fits(s@),
{
    time_checked(s).is_some()
}

/// Reads a time such as "5", "30s", "2min" or "1h".
pub fn parse_duration_sec(s: &str) -> (r: Option<Duration>)
    requires
        time_fits(s@),
    ensures
        r == match time_secs(s@) {
            Some(n) => Some(secs(n)),
            None => None,
        },
{
    match time_checked(s) {
        Some(Some(n)) => Some(Duration::from_secs(n)),
        _ => None,
    }
}

/// `a` where there is one, else `b`.
pub open spec fn or_keep<A>(a: Option<A>, b: A) -> A {
    match a {
        Some(x) => x,
        None => b,
    }
}

/// The time that a text stands for.
pub open spec fn time_of(text: Seq<char>) -> Option<Duration> {
    match time_secs(text) {
        Some(n) => Some(secs(n)),
        None => None,
    }
}

/// The settings after one key was given a value. Keys that are not known, and
/// values that make no sense, change nothing.
pub open spec fn applied(c: Settings, key: Seq<char>, value: Seq<char>) -> Settings {
    let action = action_named(stripped(value));
    if key == "HandlePowerKey"@ {
        Settings { handle_power_key: or_keep(action, c.handle_power_key), ..c }
    } else if key == "HandleSuspendKey"@ {
        Settings { handle_suspend_key: or_keep(action, c.handle_suspend_key), ..c }
    } else if key == "HandleHibernateKey"@ {
        Settings { handle_hibernate_key: or_keep(action, c.handle_hibernate_key), ..c }
    } else if key == "HandleLidSwitch"@ {
        Settings { handle_lid_switch: or_keep(action, c.handle_lid_switch), ..c }
    } else if key == "HandleLidSwitchExternalPower"@ {
        Settings {
            handle_lid_switch_external_power: or_keep(action, c.handle_lid_switch_external_power),
            ..c
        }
    } else if key == "HandleLidSwitchDocked"@ {
        Settings { handle_lid_switch_docked: or_keep(action, c.handle_lid_switch_docked), ..c }
    } else if key == "IdleAction"@ {
        Settings { idle_action: or_keep(action, c.idle_action), ..c }
    } else if key == "NAutoVTs"@ {
        match parsed_nat(value, u32::MAX as nat) {
            Some(n) => Settings { n_auto_vts: n as u32, ..c },
            None => c,
        }
    } else if key == "KillUserProcesses"@ {
        Settings { kill_user_processes: or_keep(bool_named(value), c.kill_user_processes), ..c }
    } else if key == "InhibitDelayMaxSec"@ {
        Settings { inhibit_delay_max: or_keep(time_of(value), c.inhibit_delay_max), ..c }
    } else if key == "UserStopDelaySec"@ {
        Settings { user_stop_delay: or_keep(time_of(value), c.user_stop_delay), ..c }
    } else if key == "HoldoffTimeoutSec"@ {
        Settings { holdoff_timeout: or_keep(time_of(value), c.holdoff_timeout), ..c }
    } else if key == "IdleActionSec"@ {
        Settings { idle_action_sec: or_keep(time_of(value), c.idle_action_sec), ..c }
    } else if key == "RuntimeDirectorySize"@ {
        Settings { runtime_directory_size: value, ..c }
    } else {
        c
    }
}

/// Whether a key takes a time.
pub open spec fn is_time_key(key: Seq<char>) -> bool {
    key == "InhibitDelayMaxSec"@ || key == "UserStopDelaySec"@ || key == "HoldoffTimeoutSec"@
        || key == "IdleActionSec"@
}

/// The key and the value on a line; nothing on an empty line, a comment, a
/// section header or a line without an equals sign.
pub open spec fn setting_on(line: Seq<char>) -> Option<(Seq<char>, Seq<char>)> {
    let t = stripped(line);
    if t.len() == 0 || t[0] == '#' || t[0] == ';' || (t[0] == '[' && t.last() == ']') {
        None
    } else {
        match split_pair(t, '=') {
            Some((k, v)) => Some((stripped(k), stripped(v))),
            None => None,
        }
    }
}

/// The settings after a line.
pub open spec fn with_line(c: Settings, line: Seq<char>) -> Settings {
    match setting_on(line) {
        Some((k, v)) => applied(c, k, v),
        None => c,
    }
}

/// The settings after several lines.
pub open spec fn with_lines(c: Settings, ls: Seq<Seq<char>>) -> Settings
    decreases ls.len(),
{
    if ls.len() == 0 {
        c
    } else {
        with_line(with_lines(c, ls.drop_last()), ls.last())
    }
}

/// Whether the time on a line can be counted.
pub open spec fn line_fits(line: Seq<char>) -> bool {
    setting_on(line) matches Some((k, v)) ==> is_time_key(k) ==> time_fits(v)
}

/// Whether all times in a text can be counted.
pub open spec fn text_fits(text: Seq<char>) -> bool {
    forall|i: int| 0 <= i < lines_of(text).len() ==> line_fits(#[trigger] lines_of(text)[i])
}

/// Reads the key and the value on a line.
fn read_setting(line: &[char]) -> (r: Option<(String, String)>)
    ensures
        match r {
            Some((k, v)) => setting_on(line@) == Some((k@, v@)),
            None => setting_on(line@) is None,
        },
{
    let t = trim(line);
    if t.len() == 0 || t[0] == '#' || t[0] == ';' || (t[0] == '[' && t[t.len() - 1] == ']') {
        return None;
    }
    match split_once(t, '=') {
        Some((k, v)) => Some((string_of(trim(k)), string_of(trim(v)))),
        None => None,
    }
}

/// Whether all times in a text can be counted.
pub fn text_in_range(text: &str) -> (r: bool)
    ensures
        r == text_fits(text@),
{
    let c = chars_of(text);
    let ls = lines(&c);
    let ghost all = deep(ls@);
    let mut i: usize = 0;
    while i < ls.len()
        invariant
            i <= ls.len(),
            all == deep(ls@),
            all == lines_of(text@),
            forall|k: int| 0 <= k < i ==> line_fits(#[trigger] all[k]),
        decreases ls.len() - i,
    {
        assert(all[i as int] == ls@[i as int]@);
        if let Some((k, v)) = read_setting(&ls[i]) {
            let k = k.as_str();
            let is_time = str_eq(k, "InhibitDelayMaxSec") || str_eq(k, "UserStopDelaySec")
                || str_eq(k, "HoldoffTimeoutSec") || str_eq(k, "IdleActionSec");
            if is_time && !time_in_range(v.as_str()) {
                assert(!line_fits(all[i as int]));
                return false;
            }
        }
        assert(line_fits(all[i as int]));
        i += 1;
    }
    true
}

impl Config {
    /// The configuration in a text, or the defaults where the text could not
    /// be read.
    pub fn load(content: Option<&str>) -> (r: Self)
        requires
            content matches Some(c) ==> text_fits(c@),
        ensures
            r@ == match content {
                Some(c) => with_lines(default_settings(), lines_of(c@)),
                None => default_settings(),
            },
    {
        let mut cfg = Config::default();
        if let Some(c) = content {
            cfg.merge(c);
        }
        cfg
    }

    /// Takes over the settings in a text.
    pub fn merge(&mut self, text: &str)
        requires
            text_fits(text@),
        ensures
            final(self)@ == with_lines(old(self)@, lines_of(text@)),
    {
        let c = chars_of(text);
        let ls = lines(&c);
        let ghost all = deep(ls@);
        let ghost start = self@;
        let mut i: usize = 0;
        while i < ls.len()
            invariant
                i <= ls.len(),
                all == deep(ls@),
                all == lines_of(text@),
                text_fits(text@),
                self@ == with_lines(start, all.take(i as int)),
            decreases ls.len() - i,
        {
            proof {
                assert(all.take(i + 1).drop_last() =~= all.take(i as int));
                assert(all.take(i + 1).last() == all[i as int]);
                assert(all[i as int] == ls@[i as int]@);
                assert(line_fits(lines_of(text@)[i as int]));
            }
            if let Some((k, v)) = read_setting(&ls[i]) {
                self.apply(k.as_str(), v.as_str());
            }
            i += 1;
        }
        assert(all.take(all.len() as int) =~= all);
    }

    /// Gives a key a value.
    pub fn apply(&mut self, key: &str, value: &str)
        requires
            is_time_key(key@) ==> time_fits(value@),
        ensures
            final(self)@ == applied(old(self)@, key@, value@),
    {
        if str_eq(key, "HandlePowerKey") {
            if let Some(a) = HandleAction::parse(value) {
                self.handle_power_key = a;
            }
        } else if str_eq(key, "HandleSuspendKey") {
            if let Some(a) = HandleAction::parse(value) {
                self.handle_suspend_key = a;
            }
        } else if str_eq(key, "HandleHibernateKey") {
            if let Some(a) = HandleAction::parse(value) {
                self.handle_hibernate_key = a;
            }
        } else if str_eq(key, "HandleLidSwitch") {
            if let Some(a) = HandleAction::parse(value) {
                self.handle_lid_switch = a;
            }
        } else if str_eq(key, "HandleLidSwitchExternalPower") {
            if let Some(a) = HandleAction::parse(value) {
                self.handle_lid_switch_external_power = a;
            }
        } else if str_eq(key, "HandleLidSwitchDocked") {
            if let Some(a) = HandleAction::parse(value) {
                self.handle_lid_switch_docked = a;
            }
        } else if str_eq(key, "IdleAction") {
            if let Some(a) = HandleAction::parse(value) {
                self.idle_action = a;
            }
        } else if str_eq(key, "NAutoVTs") {
            let c = chars_of(value);
            if let Some(n) = parse_nat(&c, u32::MAX as u64) {
                self.n_auto_vts = n as u32;
            }
        } else if str_eq(key, "KillUserProcesses") {
            if let Some(b) = parse_bool(value) {
                self.kill_user_processes = b;
            }
        } else if str_eq(key, "InhibitDelayMaxSec") {
            if let Some(d) = parse_duration_sec(value) {
                self.inhibit_delay_max = d;
            }
        } else if str_eq(key, "UserStopDelaySec") {
            if let Some(d) = parse_duration_sec(value) {
                self.user_stop_delay = d;
            }
        } else if str_eq(key, "HoldoffTimeoutSec") {
            if let Some(d) = parse_duration_sec(value) {
                self.holdoff_timeout = d;
            }
        } else if str_eq(key, "IdleActionSec") {
            if let Some(d) = parse_duration_sec(value) {
                self.idle_action_sec = d;
            }
        } else if str_eq(key, "RuntimeDirectorySize") {
            self.runtime_directory_size = owned(value);
        }
    }
}

/// Lines that set nothing change nothing.
pub proof fn silent_lines_change_nothing(c: Settings, ls: Seq<Seq<char>>)
    requires
        forall|i: int| 0 <= i < ls.len() ==> setting_on(#[trigger] ls[i]) is None,
    ensures
        with_lines(c, ls) == c,
    decreases ls.len(),
{
    if ls.len() > 0 {
        assert(setting_on(ls[ls.len() - 1]) is None);
        assert forall|i: int| 0 <= i < ls.drop_last().len() implies setting_on(
            #[trigger] ls.drop_last()[i],
        ) is None by {
            assert(ls.drop_last()[i] == ls[i]);
        }
        silent_lines_change_nothing(c, ls.drop_last());
    }
}

/// What a value that makes no sense was to change stays as it was.
pub proof fn unknown_action_keeps_setting(c: Settings, key: Seq<char>, value: Seq<char>)
    requires
        action_named(stripped(value)) is None,
        bool_named(value) is None,
        parsed_nat(value, u32::MAX as nat) is None,
        time_secs(value) is None,
        key != "RuntimeDirectorySize"@,
    ensures
        applied(c, key, value) == c,
{
}

/// A later line wins over an earlier one: giving a key one value after another
/// that makes sense is giving it the latter.
pub proof fn last_action_wins(c: Settings, key: Seq<char>, first: Seq<char>, second: Seq<char>)
    requires
        action_named(stripped(second)) is Some,
        key == "HandlePowerKey"@ || key == "HandleSuspendKey"@ || key == "HandleHibernateKey"@
            || key == "HandleLidSwitch"@ || key == "HandleLidSwitchExternalPower"@ || key
            == "HandleLidSwitchDocked"@ || key == "IdleAction"@,
    ensures
        applied(applied(c, key, first), key, second) == applied(c, key, second),
{
}

/// Each action has its own name, and nothing else names it.
pub proof fn actions_have_their_names(s: Seq<char>)
    ensures
        action_named(s) == Some(HandleAction::Ignore) <==> s == "ignore"@,
        action_named(s) == Some(HandleAction::Poweroff) <==> s == "poweroff"@,
        action_named(s) == Some(HandleAction::Reboot) <==> s == "reboot"@,
        action_named(s) == Some(HandleAction::Halt) <==> s == "halt"@,
        action_named(s) == Some(HandleAction::Suspend) <==> s == "suspend"@,
        action_named(s) == Some(HandleAction::Hibernate) <==> s == "hibernate"@,
        action_named(s) == Some(HandleAction::HybridSleep) <==> s == "hybrid-sleep"@,
        action_named(s) == Some(HandleAction::Lock) <==> s == "lock"@,
{
    reveal_strlit("ignore");
    reveal_strlit("poweroff");
    reveal_strlit("reboot");
    reveal_strlit("halt");
    reveal_strlit("suspend");
    reveal_strlit("hibernate");
    reveal_strlit("hybrid-sleep");
    reveal_strlit("lock");
    assert("ignore"@.len() == 6 && "poweroff"@.len() == 8 && "reboot"@.len() == 6 && "halt"@.len()
        == 4 && "suspend"@.len() == 7 && "hibernate"@.len() == 9 && "hybrid-sleep"@.len() == 12
        && "lock"@.len() == 4);
    assert("ignore"@[0] == 'i' && "reboot"@[0] == 'r' && "halt"@[0] == 'h' && "lock"@[0] == 'l');
}

/// What holds where nothing is configured: the power key turns the machine off,
/// the suspend key and the lid suspend it unless it is docked, locks delay an
/// action by no more than five seconds, a user is kept for ten seconds, and the
/// lid is held off for thirty.
pub proof fn usual_settings()
    ensures
        ({
            let d = default_settings();
            &&& d.handle_power_key is Poweroff
            &&& d.handle_suspend_key is Suspend
            &&& d.handle_hibernate_key is Hibernate
            &&& d.handle_lid_switch is Suspend
            &&& d.handle_lid_switch_external_power is Suspend
            &&& d.handle_lid_switch_docked is Ignore
            &&& d.n_auto_vts == 6
            &&& !d.kill_user_processes
            &&& d.inhibit_delay_max.total() == 5_000_000_000
            &&& d.user_stop_delay.total() == 10_000_000_000
            &&& d.holdoff_timeout.total() == 30_000_000_000
            &&& d.idle_action is Ignore
            &&& d.idle_action_sec.total() == 1_800_000_000_000
        }),
{
}

/// A time is a number of seconds, or of minutes or hours where that stands
/// behind it.
pub proof fn time_goes_by_its_unit(n: nat)
    requires
        n <= u64::MAX,
    ensures
        time_secs(dec(n)) == Some(n),
        time_secs(dec(n).push('s')) == Some(n),
        time_secs(dec(n).push('h')) == Some(3600 * n),
        time_secs(dec(n) + "min"@) == Some(60 * n),
{
    let e = Seq::<char>::empty();
    written_number_is_read_back(n, u64::MAX as nat);
    white_space_around_is_taken_off(e, dec(n), e);
    reveal_strlit("min");
    reveal_strlit("h");
    reveal_strlit("s");
    let a = dec(n).push('s');
    let b = dec(n).push('h');
    let c = dec(n) + "min"@;
    white_space_around_is_taken_off(e, a, e);
    white_space_around_is_taken_off(e, b, e);
    white_space_around_is_taken_off(e, c, e);
    lemma_no_number(a);
    lemma_no_number(b);
    lemma_no_number(c);
    assert(a.take(a.len() - 1) =~= dec(n));
    assert(b.take(b.len() - 1) =~= dec(n));
    assert(c.take(c.len() - 3) =~= dec(n));
    assert(a.skip(a.len() - 1) =~= "s"@);
    assert(b.skip(b.len() - 1) =~= "h"@);
    assert(c.skip(c.len() - 3) =~= "min"@);
    assert(a.last() == 's' && b.last() == 'h');
    lemma_not_min(a);
    lemma_not_min(b);
    assert(!has_suffix(a, "h"@)) by {
        assert(a.skip(a.len() - 1)[0] == 's');
    }
}

proof fn lemma_not_min(s: Seq<char>)
    requires
        s.len() > 0,
        s.last() != 'n',
    ensures
        !has_suffix(s, "min"@),
{
    reveal_strlit("min");
    if has_suffix(s, "min"@) {
        assert(s.skip(s.len() - 3)[2] == 'n');
    }
}

proof fn lemma_no_number(s: Seq<char>)
    requires
        s.len() > 1,
        !is_digit(s.last()),
    ensures
        parsed_nat(s, u64::MAX as nat) is None,
{
    if parsed_nat(s, u64::MAX as nat) is Some {
        number_is_made_of_digits(s, u64::MAX as nat, s.len() - 1);
    }
}

/// A key for an action sets that action, where the value names one, and no
/// other setting.
pub proof fn key_sets_its_own_action(c: Settings, key: Seq<char>, value: Seq<char>, a: HandleAction)
    requires
        action_named(stripped(value)) == Some(a),
    ensures
        key == "HandlePowerKey"@ ==> applied(c, key, value) == (Settings {
            handle_power_key: a,
            ..c
        }),
        key == "HandleSuspendKey"@ ==> applied(c, key, value) == (Settings {
            handle_suspend_key: a,
            ..c
        }),
        key == "HandleHibernateKey"@ ==> applied(c, key, value) == (Settings {
            handle_hibernate_key: a,
            ..c
        }),
        key == "HandleLidSwitch"@ ==> applied(c, key, value) == (Settings {
            handle_lid_switch: a,
            ..c
        }),
        key == "HandleLidSwitchExternalPower"@ ==> applied(c, key, value) == (Settings {
            handle_lid_switch_external_power: a,
            ..c
        }),
        key == "HandleLidSwitchDocked"@ ==> applied(c, key, value) == (Settings {
            handle_lid_switch_docked: a,
            ..c
        }),
        key == "IdleAction"@ ==> applied(c, key, value) == (Settings { idle_action: a, ..c }),
{
    lemma_action_keys_differ();
}

proof fn lemma_action_keys_differ()
    ensures
        "HandlePowerKey"@.len() == 14,
        "HandleSuspendKey"@.len() == 16,
        "HandleHibernateKey"@.len() == 18,
        "HandleLidSwitch"@.len() == 15,
        "HandleLidSwitchExternalPower"@.len() == 28,
        "HandleLidSwitchDocked"@.len() == 21,
        "IdleAction"@.len() == 10,
{
    reveal_strlit("HandlePowerKey");
    reveal_strlit("HandleSuspendKey");
    reveal_strlit("HandleHibernateKey");
    reveal_strlit("HandleLidSwitch");
    reveal_strlit("HandleLidSwitchExternalPower");
    reveal_strlit("HandleLidSwitchDocked");
    reveal_strlit("IdleAction");
}

proof fn lemma_time_keys_differ()
    ensures
        "NAutoVTs"@.len() == 8,
        "KillUserProcesses"@.len() == 17,
        "InhibitDelayMaxSec"@.len() == 18,
        "InhibitDelayMaxSec"@[0] == 'I',
        "HandleHibernateKey"@[0] == 'H',
        "UserStopDelaySec"@.len() == 16,
        "UserStopDelaySec"@[0] == 'U',
        "HandleSuspendKey"@[0] == 'H',
        "HoldoffTimeoutSec"@.len() == 17,
        "HoldoffTimeoutSec"@[0] == 'H',
        "KillUserProcesses"@[0] == 'K',
        "IdleActionSec"@.len() == 13,
{
    reveal_strlit("NAutoVTs");
    reveal_strlit("KillUserProcesses");
    reveal_strlit("InhibitDelayMaxSec");
    reveal_strlit("UserStopDelaySec");
    reveal_strlit("HoldoffTimeoutSec");
    reveal_strlit("IdleActionSec");
    reveal_strlit("HandleHibernateKey");
    reveal_strlit("HandleSuspendKey");
}

/// A key for a time, a number or a choice sets that, where the value makes
/// sense, and no other setting.
pub proof fn key_sets_its_own_value(c: Settings, key: Seq<char>, value: Seq<char>, n: nat, b: bool)
    requires
        n <= u32::MAX,
    ensures
        time_secs(value) == Some(n) ==> {
            &&& key == "InhibitDelayMaxSec"@ ==> applied(c, key, value) == (Settings {
                inhibit_delay_max: Duration { secs: n as u64, nanos: 0 },
                ..c
            })
            &&& key == "UserStopDelaySec"@ ==> applied(c, key, value) == (Settings {
                user_stop_delay: Duration { secs: n as u64, nanos: 0 },
                ..c
            })
            &&& key == "HoldoffTimeoutSec"@ ==> applied(c, key, value) == (Settings {
                holdoff_timeout: Duration { secs: n as u64, nanos: 0 },
                ..c
            })
            &&& key == "IdleActionSec"@ ==> applied(c, key, value) == (Settings {
                idle_action_sec: Duration { secs: n as u64, nanos: 0 },
                ..c
            })
        },
        key == "NAutoVTs"@ && value == dec(n) ==> applied(c, key, value) == (Settings {
            n_auto_vts: n as u32,
            ..c
        }),
        key == "KillUserProcesses"@ && bool_named(value) == Some(b) ==> applied(c, key, value) == (
        Settings { kill_user_processes: b, ..c }),
{
    lemma_action_keys_differ();
    lemma_time_keys_differ();
    written_number_is_read_back(n, u32::MAX as nat);
}

/// A line with a key and a value gives the key the value, after all lines before
/// it; remarks, headers and empty lines do nothing.
pub proof fn line_gives_its_key_a_value(
    c: Settings,
    ls: Seq<Seq<char>>,
    k: Seq<char>,
    v: Seq<char>,
)
    requires
        k.len() > 0,
        !k.contains('='),
        k[0] != '#' && k[0] != ';' && k[0] != '[',
        !is_white(k[0]),
        !is_white(k.last()),
        v.len() > 0,
        !is_white(v[0]),
        !is_white(v.last()),
    ensures
        with_lines(c, ls.push(k.push('=') + v)) == applied(with_lines(c, ls), k, v),
        with_lines(c, ls.push(seq!['#'] + v)) == with_lines(c, ls),
        with_lines(c, ls.push(seq![';'] + v)) == with_lines(c, ls),
        with_lines(c, ls.push(Seq::empty())) == with_lines(c, ls),
{
    let e = Seq::<char>::empty();
    let line = k.push('=') + v;
    white_space_around_is_taken_off(e, line, e);
    white_space_around_is_taken_off(e, k, e);
    white_space_around_is_taken_off(e, v, e);
    assert forall|j: int| 0 <= j < k.len() implies line[j] != '=' by {
        assert(k.contains(k[j]));
    }
    lemma_find_is(line, '=', k.len() as int);
    assert(line.take(k.len() as int) =~= k);
    assert(line.skip(k.len() as int + 1) =~= v);
    assert(ls.push(line).drop_last() =~= ls);
    white_space_around_is_taken_off(e, seq!['#'] + v, e);
    white_space_around_is_taken_off(e, seq![';'] + v, e);
    assert(ls.push(seq!['#'] + v).drop_last() =~= ls);
    assert(ls.push(seq![';'] + v).drop_last() =~= ls);
    assert(ls.push(e).drop_last() =~= ls);
    assert(stripped(e) =~= e);
}

/// What has to be named to hold an action back: going down by `shutdown`, and
/// sleeping by `sleep`.
pub proof fn actions_are_held_back_by_kind(a: HandleAction)
    ensures
        a is Poweroff || a is Reboot || a is Halt ==> a.inhibited_by() == "shutdown"@,
        a is Suspend || a is Hibernate || a is HybridSleep ==> a.inhibited_by() == "sleep"@,
{
}

} // verus!
