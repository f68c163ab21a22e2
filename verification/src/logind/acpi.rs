//! Buttons and lids: which input devices have them, what their events mean
//! and what is done about them.

use crate::logind::config::{Config, HandleAction};
use crate::logind::inhibitor::Inhibitor;
use crate::logind::power::{
    execute_shutdown, execute_sleep, has_block_inhibitor, held_back, shuts_down, sleeps,
    still_held, PowerStep, ShutdownKind, SleepKind,
};
use crate::text::num::{parse_hex, parsed_hex};
use crate::text::scan::{
    deep, has_prefix, starts_with, stripped, trim, words, words_of, Class,
};
use crate::text::{cat, chars_of, same};
use crate::time::{Duration, Instant};
use vstd::prelude::*;

verus! {

/// The type of events from keys.
pub const EV_KEY: u16 = 0x01;

/// The type of events from switches.
pub const EV_SW: u16 = 0x05;

/// The power button.
pub const KEY_POWER: u16 = 116;

/// The sleep button.
pub const KEY_SLEEP: u16 = 142;

/// The switch of the lid.
pub const SW_LID: u16 = 0x00;

/// What happened to a button or a lid.
#[derive(Debug, Clone, Copy, PartialEq, Eq, Structural)]
pub enum AcpiEvent {
    PowerButton,
    SleepButton,
    LidClosed,
    LidOpened,
}

/// An event as the kernel reports it.
#[derive(Debug, Clone, Copy, PartialEq, Eq, Structural)]
pub struct InputEvent {
    pub tv_sec: i64,
    pub tv_usec: i64,
    pub type_: u16,
    pub code: u16,
    pub value: i32,
}

/// What an event of an input device means.
pub open spec fn classified(
    ev: InputEvent,
    r: Option<AcpiEvent>,
) -> bool {
    r == if ev.type_ == EV_KEY && ev.code == KEY_POWER && ev.value == 1 {
        Some(AcpiEvent::PowerButton)
    } else if ev.type_ == EV_KEY && ev.code == KEY_SLEEP && ev.value == 1 {
        Some(AcpiEvent::SleepButton)
    } else if ev.type_ == EV_SW && ev.code == SW_LID && ev.value == 1 {
        Some(AcpiEvent::LidClosed)
    } else if ev.type_ == EV_SW && ev.code == SW_LID && ev.value == 0 {
        Some(AcpiEvent::LidOpened)
    } else {
        None
    }
}

/// What an event means; most mean nothing here.
pub fn classify(ev: &InputEvent) -> (r: Option<AcpiEvent>)
    ensures
        classified(*ev, r),
{
    if ev.type_ == EV_KEY && ev.code == KEY_POWER && ev.value == 1 {
        Some(AcpiEvent::PowerButton)
    } else if ev.type_ == EV_KEY && ev.code == KEY_SLEEP && ev.value == 1 {
        Some(AcpiEvent::SleepButton)
    } else if ev.type_ == EV_SW && ev.code == SW_LID && ev.value == 1 {
        Some(AcpiEvent::LidClosed)
    } else if ev.type_ == EV_SW && ev.code == SW_LID && ev.value == 0 {
        Some(AcpiEvent::LidOpened)
    } else {
        None
    }
}

/// The words of a bit set, the lowest first. In the text the highest stands
/// first; what is no hexadecimal number of 64 bits is left out.
pub open spec fn bit_words(texts: Seq<Seq<char>>) -> Seq<nat>
    decreases texts.len(),
{
    if texts.len() == 0 {
        Seq::empty()
    } else {
        let rest = bit_words(texts.drop_first());
        match parsed_hex(texts[0], u64::MAX as nat) {
            Some(n) => rest.push(n),
            None => rest,
        }
    }
}

/// `n` without its `k` lowest bits.
pub open spec fn halved(n: nat, k: nat) -> nat
    decreases k,
{
    if k == 0 {
        n
    } else {
        halved(n / 2, (k - 1) as nat)
    }
}

/// Whether a bit is in the set that a text writes down.
pub open spec fn has_bit(text: Seq<char>, bit: nat) -> bool {
    let ws = bit_words(words_of(text, Class::AsciiWhite));
    bit / 64 < ws.len() && halved(ws[(bit / 64) as int], bit % 64) % 2 == 1
}

/// Whether a bit is in the set of a device's capabilities. A set that cannot
/// be read has none.
pub fn capability_has_bit(content: Option<&str>, bit: u16) -> (r: bool)
    ensures
        r == (content matches Some(c) && has_bit(c@, bit as nat)),
{
    let c = match content {
        Some(c) => chars_of(c),
        None => {
            return false;
        },
    };
    let ws = words(&c, Class::AsciiWhite);
    let ghost all = words_of(c@, Class::AsciiWhite);
    let mut values: Vec<u64> = Vec::new();
    let mut i: usize = ws.len();
    assert(bit_words(all.skip(all.len() as int)) =~= Seq::<nat>::empty());
    while i > 0
        invariant
            i <= ws.len(),
            all == deep(ws@),
            values@.len() == bit_words(all.skip(i as int)).len(),
            forall|k: int|
                0 <= k < values@.len() ==> bit_words(all.skip(i as int))[k] == #[trigger] values@[k],
        decreases i,
    {
        let ghost before = values@;
        i -= 1;
        proof {
            assert(all.skip(i as int).drop_first() =~= all.skip(i + 1));
            assert(all.skip(i as int)[0] == ws@[i as int]@);
        }
        if let Some(n) = parse_hex(&ws[i], u64::MAX) {
            values.push(n);
            assert(bit_words(all.skip(i as int)) == bit_words(all.skip(i + 1)).push(n as nat));
        }
    }
    assert(all.skip(0) =~= all);
    let word: usize = (bit / 64) as usize;
    let off: u16 = bit % 64;
    if word >= values.len() {
        return false;
    }
    let mut n: u64 = values[word];
    let mut left: u16 = off;
    while left > 0
        invariant
            halved(n as nat, left as nat) == halved(values@[word as int] as nat, off as nat),
        decreases left,
    {
        n = n / 2;
        left -= 1;
    }
    n % 2 == 1
}

/// Whether an input device has a power or sleep button, or a lid.
pub open spec fn is_wanted(
    name: Seq<char>,
    key: Option<&str>,
    sw: Option<&str>,
    r: bool,
) -> bool {
    r == (has_prefix(name, "event"@) && ((key matches Some(k) && (has_bit(k@, 116) || has_bit(
                k@,
                142,
            ))) || (sw matches Some(s) && has_bit(s@, 0))))
}

/// Whether an input device is listened to: it has a power or sleep button, or
/// a lid.
pub fn is_wanted_device(name: &str, key: Option<&str>, sw: Option<&str>) -> (r: bool)
    ensures
        is_wanted(name@, key, sw, r),
{
    let n = chars_of(name);
    let event = chars_of("event");
    if !starts_with(&n, &event) {
        return false;
    }
    capability_has_bit(key, KEY_POWER) || capability_has_bit(key, KEY_SLEEP) || capability_has_bit(
        sw,
        SW_LID,
    )
}

/// The file of an input device.
pub fn device_node(name: &str) -> (r: String)
    ensures
        r@ == "/dev/input/"@ + name@,
{
    cat("/dev/input/", name)
}

/// Whether the machine stands in a dock, which is not detected.
pub fn is_docked() -> (r: bool)
    ensures
        !r,
{
    false
}

/// What the file on external power tells.
pub open spec fn power_told(
    online: Option<&str>,
    r: bool,
) -> bool {
    r == match online {
        Some(s) => stripped(s@) == "1"@,
        None => true,
    }
}

/// Whether the machine is on external power, by the file that tells it; it is
/// where there is none.
pub fn on_external_power(online: Option<&str>) -> (r: bool)
    ensures
        power_told(online, r),
{
    match online {
        Some(s) => {
            let c = chars_of(s);
            let one = chars_of("1");
            same(trim(&c), &one)
        },
        None => true,
    }
}

/// The action that is set for an event.
pub open spec fn set_for(
    cfg: Config,
    event: AcpiEvent,
    docked: bool,
    external: bool,
) -> Option<HandleAction> {
    match event {
        AcpiEvent::PowerButton => Some(cfg.handle_power_key),
        AcpiEvent::SleepButton => Some(cfg.handle_suspend_key),
        AcpiEvent::LidClosed => Some(
            if cfg.handle_lid_switch_docked != HandleAction::Ignore && docked {
                cfg.handle_lid_switch_docked
            } else if external {
                cfg.handle_lid_switch_external_power
            } else {
                cfg.handle_lid_switch
            },
        ),
        AcpiEvent::LidOpened => None,
    }
}

/// Whether an event comes too soon after the last closing of the lid.
pub open spec fn too_soon(cfg: Config, event: AcpiEvent, last_lid: Instant, now: Instant) -> bool {
    let since = if now.nanos < last_lid.nanos {
        0
    } else {
        now.nanos - last_lid.nanos
    };
    event == AcpiEvent::LidClosed && since < cfg.holdoff_timeout.total()
}

/// What an event leads to, and what becomes of the time of the last closing of
/// the lid.
pub open spec fn dispatched(
    cfg: Config,
    event: AcpiEvent,
    docked: bool,
    external: bool,
    pre: Instant,
    post: Instant,
    now: Instant,
    r: Option<HandleAction>,
) -> bool {
    &&& r == if too_soon(cfg, event, pre, now) {
            None
        } else {
            set_for(cfg, event, docked, external)
        }
    &&& post == if event == AcpiEvent::LidClosed && !too_soon(
            cfg,
            event,
            pre,
            now,
        ) {
            now
        } else {
            pre
        }
}

/// What is done about an event. The time of a closing of the lid is kept,
/// unless it came too soon after the last one.
pub fn dispatch(
    cfg: &Config,
    event: AcpiEvent,
    docked: bool,
    external: bool,
    last_lid: &mut Instant,
    now: Instant,
) -> (r: Option<HandleAction>)
    ensures
        dispatched(*cfg, event, docked, external, *old(last_lid), *final(last_lid), now, r),
{
    match event {
        AcpiEvent::PowerButton => Some(cfg.handle_power_key),
        AcpiEvent::SleepButton => Some(cfg.handle_suspend_key),
        AcpiEvent::LidOpened => None,
        AcpiEvent::LidClosed => {
            let hold = cfg.holdoff_timeout.as_nanos();
            let soon = if now.before(*last_lid) {
                0 < hold
            } else {
                match now.checked_sub(cfg.holdoff_timeout) {
                    Some(t) => t.before(*last_lid),
                    None => true,
                }
            };
            if soon {
                return None;
            }
            *last_lid = now;
            if cfg.handle_lid_switch_docked != HandleAction::Ignore && docked {
                Some(cfg.handle_lid_switch_docked)
            } else if external {
                Some(cfg.handle_lid_switch_external_power)
            } else {
                Some(cfg.handle_lid_switch)
            }
        },
    }
}

/// Where the time of the last closing of the lid starts: an hour ago. The
/// clock must reach back so far.
pub fn initial_lid_time(now: Instant) -> (r: Instant)
    requires
        now.nanos >= i128::MIN + 3_600_000_000_000,
    ensures
        r.nanos == now.nanos - 3_600_000_000_000,
{
    Instant { nanos: now.nanos - 3_600_000_000_000 }
}

/// The steps of an action.
pub open spec fn carries_out(v: Seq<PowerStep>, action: HandleAction, max: Duration) -> bool {
    match action {
        HandleAction::Ignore | HandleAction::Lock => v.len() == 0,
        HandleAction::Suspend => sleeps(v, SleepKind::Suspend, max),
        HandleAction::Hibernate => sleeps(v, SleepKind::Hibernate, max),
        HandleAction::HybridSleep => sleeps(v, SleepKind::HybridSleep, max),
        HandleAction::Poweroff => shuts_down(v, ShutdownKind::Poweroff, max),
        HandleAction::Reboot => shuts_down(v, ShutdownKind::Reboot, max),
        HandleAction::Halt => shuts_down(v, ShutdownKind::Halt, max),
    }
}

/// What carrying out an action does and leads to.
pub open spec fn action_run(
    pre: Seq<Inhibitor>,
    post: Seq<Inhibitor>,
    released: Seq<u64>,
    action: HandleAction,
    max: Duration,
    r: Seq<PowerStep>,
) -> bool {
    let idle = action == HandleAction::Ignore || action == HandleAction::Lock;
    &&& post == if idle {
        pre
    } else {
        still_held(pre, released)
    }
    &&& if !idle && held_back(post, "block"@, action.inhibited_by()) {
        r.len() == 0
    } else {
        carries_out(r, action, max)
    }
}

/// The steps of an action; none where a lock of mode "block" refuses it.
pub fn run_action(
    locks: &mut Vec<Inhibitor>,
    released: &Vec<u64>,
    action: HandleAction,
    max: Duration,
) -> (r: Vec<PowerStep>)
    ensures
        action_run(old(locks)@, final(locks)@, released@, action, max, r@),
{
    match action {
        HandleAction::Ignore | HandleAction::Lock => {
            return Vec::new();
        },
        _ => {},
    }
    if has_block_inhibitor(locks, released, action.inhibit_what()) {
        return Vec::new();
    }
    match action {
        HandleAction::Ignore | HandleAction::Lock => Vec::new(),
        HandleAction::Suspend => execute_sleep(SleepKind::Suspend, max),
        HandleAction::Hibernate => execute_sleep(SleepKind::Hibernate, max),
        HandleAction::HybridSleep => execute_sleep(SleepKind::HybridSleep, max),
        HandleAction::Poweroff => execute_shutdown(ShutdownKind::Poweroff, max),
        HandleAction::Reboot => execute_shutdown(ShutdownKind::Reboot, max),
        HandleAction::Halt => execute_shutdown(ShutdownKind::Halt, max),
    }
}

/// A lid that is closed again before the hold-off is over is not acted upon a
/// second time, and the hold-off runs from the first closing.
pub proof fn lid_is_held_off(cfg: Config, first: Instant, again: Instant)
    requires
        first.nanos <= again.nanos,
    ensures
        too_soon(cfg, AcpiEvent::LidClosed, first, again) <==> again.nanos - first.nanos
            < cfg.holdoff_timeout.total(),
        !too_soon(cfg, AcpiEvent::PowerButton, first, again),
        !too_soon(cfg, AcpiEvent::SleepButton, first, again),
{
}

/// A button counts when it is pressed, and the lid when it closes or opens;
/// nothing else means anything here. A key is pressed with the value one, and
/// the lid is closed with the value one and open with the value zero.
pub proof fn events_mean_what_happened(ev: InputEvent, r: Option<AcpiEvent>)
    requires
        classified(ev, r),
    ensures
        r == Some(AcpiEvent::PowerButton) <==> ev.type_ == 1 && ev.code == 116 && ev.value == 1,
        r == Some(AcpiEvent::SleepButton) <==> ev.type_ == 1 && ev.code == 142 && ev.value == 1,
        r == Some(AcpiEvent::LidClosed) <==> ev.type_ == 5 && ev.code == 0 && ev.value == 1,
        r == Some(AcpiEvent::LidOpened) <==> ev.type_ == 5 && ev.code == 0 && ev.value == 0,
{
}

/// A button leads to the action that is set for it. A closed lid leads to the
/// action for a docked machine where it is docked and one is set, else to the
/// one for external power or for none; unless it closes too soon after the last
/// time. An open lid leads to nothing.
pub proof fn event_leads_to_the_set_action(
    cfg: Config,
    event: AcpiEvent,
    docked: bool,
    external: bool,
    pre: Instant,
    post: Instant,
    now: Instant,
    r: Option<HandleAction>,
)
    requires
        dispatched(cfg, event, docked, external, pre, post, now, r),
        pre.nanos <= now.nanos,
    ensures
        event is PowerButton ==> r == Some(cfg.handle_power_key) && post == pre,
        event is SleepButton ==> r == Some(cfg.handle_suspend_key) && post == pre,
        event is LidOpened ==> r is None && post == pre,
        event is LidClosed && now.nanos - pre.nanos < cfg.holdoff_timeout.total() ==> r is None
            && post == pre,
        event is LidClosed && now.nanos - pre.nanos >= cfg.holdoff_timeout.total() ==> {
            &&& post == now
            &&& docked && cfg.handle_lid_switch_docked != HandleAction::Ignore ==> r == Some(
                cfg.handle_lid_switch_docked,
            )
            &&& (!docked || cfg.handle_lid_switch_docked == HandleAction::Ignore) && external
                ==> r == Some(cfg.handle_lid_switch_external_power)
            &&& (!docked || cfg.handle_lid_switch_docked == HandleAction::Ignore) && !external
                ==> r == Some(cfg.handle_lid_switch)
        },
{
}

/// An action that is blocked does nothing. Else to suspend or to hibernate asks
/// the kernel last but one, and to go down asks the service manager last for
/// just that. To ignore and to lock ask for nothing.
pub proof fn action_does_what_it_says(
    pre: Seq<Inhibitor>,
    post: Seq<Inhibitor>,
    released: Seq<u64>,
    action: HandleAction,
    max: Duration,
    r: Seq<PowerStep>,
)
    requires
        action_run(pre, post, released, action, max, r),
    ensures
        action is Ignore || action is Lock ==> r.len() == 0,
        action is Suspend || action is Hibernate || action is HybridSleep ==> {
            &&& r.len() == 0 <==> held_back(post, "block"@, "sleep"@)
            &&& r.len() > 0 ==> r.len() == 4 && r[2] is WriteState
            &&& r.len() > 0 && action is Suspend ==> r[2]->WriteState_0@ == "mem"@
            &&& r.len() > 0 && !(action is Suspend) ==> r[2]->WriteState_0@ == "disk"@
        },
        action is Poweroff || action is Reboot || action is Halt ==> {
            &&& r.len() == 0 <==> held_back(post, "block"@, "shutdown"@)
            &&& r.len() > 0 ==> r.len() == 3 && r[2] is AskManager
            &&& r.len() > 0 ==> (action is Poweroff <==> r[2]->AskManager_0 is Poweroff)
            &&& r.len() > 0 ==> (action is Reboot <==> r[2]->AskManager_0 is Reboot)
            &&& r.len() > 0 ==> (action is Halt <==> r[2]->AskManager_0 is Halt)
        },
{
}

/// The file on external power tells of it by a one, and where there is no such
/// file the machine has external power.
pub proof fn external_power_is_told_by_a_one(online: Option<&str>, r: bool)
    requires
        power_told(online, r),
    ensures
        online is None ==> r,
        online matches Some(s) ==> (r <==> stripped(s@) == seq!['1']),
{
    reveal_strlit("1");
    assert("1"@ =~= seq!['1']);
}

} // verus!
