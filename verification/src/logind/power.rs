//! Turning the machine off and putting it to sleep.
//!
//! Clients are told before; locks of mode "block" refuse the action, locks of
//! mode "delay" hold it back for a while.

use crate::bus::BusError;
use crate::common::protocol;
use crate::logind::inhibitor::Inhibitor;
use crate::text::cat3;
use crate::text::scan::{first_piece_ends_at_the_mark, pieces};
use crate::time::{Duration, Instant};
use vstd::prelude::*;

verus! {

/// How the machine sleeps.
#[derive(Debug, Clone, Copy, PartialEq, Eq, Structural)]
pub enum SleepKind {
    Suspend,
    Hibernate,
    HybridSleep,
}

impl SleepKind {
    /// What the kernel calls it.
    pub open spec fn kernel_name(self) -> Seq<char> {
        match self {
            SleepKind::Suspend => "mem"@,
            SleepKind::Hibernate => "disk"@,
            SleepKind::HybridSleep => "disk"@,
        }
    }

    /// What the kernel calls it.
    pub fn sysfs_state(self) -> (r: &'static str)
        ensures
            r@ == self.kernel_name(),
    {
        match self {
            SleepKind::Suspend => "mem",
            SleepKind::Hibernate => "disk",
            SleepKind::HybridSleep => "disk",
        }
    }
}

/// How the machine goes down.
#[derive(Debug, Clone, Copy, PartialEq, Eq, Structural)]
pub enum ShutdownKind {
    Poweroff,
    Reboot,
    Halt,
}

/// The same in a message to the service manager.
pub open spec fn in_message(k: ShutdownKind) -> protocol::ShutdownKind {
    match k {
        ShutdownKind::Poweroff => protocol::ShutdownKind::Poweroff,
        ShutdownKind::Reboot => protocol::ShutdownKind::Reboot,
        ShutdownKind::Halt => protocol::ShutdownKind::Halt,
    }
}

impl vstd::std_specs::convert::FromSpecImpl<ShutdownKind> for protocol::ShutdownKind {
    open spec fn obeys_from_spec() -> bool {
        true
    }

    open spec fn from_spec(k: ShutdownKind) -> protocol::ShutdownKind {
        in_message(k)
    }
}

impl From<ShutdownKind> for protocol::ShutdownKind {
    fn from(k: ShutdownKind) -> (r: Self) {
        match k {
            ShutdownKind::Poweroff => protocol::ShutdownKind::Poweroff,
            ShutdownKind::Reboot => protocol::ShutdownKind::Reboot,
            ShutdownKind::Halt => protocol::ShutdownKind::Halt,
        }
    }
}

/// The locks whose number is not in `released`.
pub open spec fn still_held(locks: Seq<Inhibitor>, released: Seq<u64>) -> Seq<Inhibitor>
    decreases locks.len(),
{
    if locks.len() == 0 {
        Seq::empty()
    } else if released.contains(locks.last().cookie) {
        still_held(locks.drop_last(), released)
    } else {
        still_held(locks.drop_last(), released).push(locks.last())
    }
}

fn has_cookie(released: &Vec<u64>, cookie: u64) -> (r: bool)
    ensures
        r == released@.contains(cookie),
{
    let mut i: usize = 0;
    while i < released.len()
        invariant
            i <= released.len(),
            forall|k: int| 0 <= k < i ==> released@[k] != cookie,
        decreases released.len() - i,
    {
        if released[i] == cookie {
            return true;
        }
        i += 1;
    }
    false
}

/// Forgets the locks that their holders gave up, and keeps the order of the
/// others.
pub fn drop_released(locks: &mut Vec<Inhibitor>, released: &Vec<u64>)
    ensures
        final(locks)@ == still_held(old(locks)@, released@),
{
    let ghost o = locks@;
    let ghost mut n: int = 0;
    let mut i: usize = 0;
    assert(still_held(o.take(0), released@) + o.skip(0) =~= o);
    while i < locks.len()
        invariant
            0 <= n <= o.len(),
            i <= locks.len(),
            o.len() - n == locks.len() - i,
            still_held(o.take(n), released@).len() == i,
            locks@ == still_held(o.take(n), released@) + o.skip(n),
        decreases locks.len() - i,
    {
        let ghost kept = still_held(o.take(n), released@);
        proof {
            assert(locks@[i as int] == o[n]);
            assert(o.take(n + 1).drop_last() =~= o.take(n));
            assert(o.take(n + 1).last() == o[n]);
        }
        if has_cookie(released, locks[i].cookie) {
            let ghost before = locks@;
            locks.remove(i);
            assert(locks@ =~= kept + o.skip(n + 1));
        } else {
            i += 1;
            assert(locks@ =~= kept.push(o[n]) + o.skip(n + 1));
        }
        proof {
            n = n + 1;
        }
    }
    assert(n == o.len());
    assert(o.take(n) =~= o);
    assert(locks@ =~= still_held(o, released@));
}

/// What is still held was held before, and was not given up.
pub proof fn held_locks_were_held(locks: Seq<Inhibitor>, released: Seq<u64>, x: Inhibitor)
    ensures
        still_held(locks, released).contains(x) <==> locks.contains(x) && !released.contains(
            x.cookie,
        ),
    decreases locks.len(),
{
    if locks.len() > 0 {
        let t = locks.drop_last();
        held_locks_were_held(t, released, x);
        assert(locks =~= t.push(locks.last()));
        vstd::seq_lib::lemma_seq_contains_after_push(t, locks.last(), x);
        vstd::seq_lib::lemma_seq_contains_after_push(still_held(t, released), locks.last(), x);
    }
}

/// Whether one of the locks, of the mode `mode`, names `what`.
pub open spec fn held_back(locks: Seq<Inhibitor>, mode: Seq<char>, what: Seq<char>) -> bool {
    exists|i: int|
        0 <= i < locks.len() && (#[trigger] locks[i]).mode@ == mode && locks[i].names(what)
}

fn holds_back(locks: &Vec<Inhibitor>, mode: &str, what: &str) -> (r: bool)
    ensures
        r == held_back(locks@, mode@, what@),
{
    let mut i: usize = 0;
    while i < locks.len()
        invariant
            i <= locks.len(),
            forall|k: int|
                0 <= k < i ==> !((#[trigger] locks@[k]).mode@ == mode@ && locks@[k].names(what@)),
        decreases locks.len() - i,
    {
        if locks[i].has_mode(mode) && locks[i].is_for(what) {
            return true;
        }
        i += 1;
    }
    false
}

/// What looking for a lock that refuses an action does and tells.
pub open spec fn block_looked_for(
    pre: Seq<Inhibitor>,
    post: Seq<Inhibitor>,
    released: Seq<u64>,
    what: Seq<char>,
    r: bool,
) -> bool {
    &&& post == still_held(pre, released)
    &&& r == held_back(post, "block"@, what)
}

/// Whether a lock refuses the action, once those that were given up are
/// forgotten.
pub fn has_block_inhibitor(locks: &mut Vec<Inhibitor>, released: &Vec<u64>, what: &str) -> (r: bool)
    ensures
        block_looked_for(old(locks)@, final(locks)@, released@, what@, r),
{
    drop_released(locks, released);
    holds_back(locks, "block", what)
}

/// What becomes of an action that locks may hold back for a while.
#[derive(Debug, Clone, Copy, PartialEq, Eq, Structural)]
pub enum Delay {
    /// Nothing holds it back.
    Go,
    /// Something does, but for too long.
    GoAnyway,
    /// Something does: look again after a while.
    Wait,
}

/// How long to wait before the locks are looked at again.
pub const DELAY_POLL_MILLIS: u64 = 100;

/// What looking for locks that hold an action back does and tells.
pub open spec fn delay_looked_for(
    pre: Seq<Inhibitor>,
    post: Seq<Inhibitor>,
    released: Seq<u64>,
    what: Seq<char>,
    now: Instant,
    deadline: Instant,
    r: Delay,
) -> bool {
    &&& post == still_held(pre, released)
    &&& r == if !held_back(post, "delay"@, what) {
            Delay::Go
        } else if now.nanos >= deadline.nanos {
            Delay::GoAnyway
        } else {
            Delay::Wait
        }
}

/// Looks at the locks that hold an action back, once those that were given up
/// are forgotten.
pub fn wait_for_delay_inhibitors(
    locks: &mut Vec<Inhibitor>,
    released: &Vec<u64>,
    what: &str,
    now: Instant,
    deadline: Instant,
) -> (r: Delay)
    ensures
        delay_looked_for(old(locks)@, final(locks)@, released@, what@, now, deadline, r),
{
    drop_released(locks, released);
    if !holds_back(locks, "delay", what) {
        Delay::Go
    } else if !now.before(deadline) {
        Delay::GoAnyway
    } else {
        Delay::Wait
    }
}

/// A step of a power action.
#[derive(Debug, Clone, Copy)]
pub enum PowerStep {
    /// Tell the clients that the machine is about to sleep, or woke up.
    SleepSignal(bool),
    /// Tell the clients that the machine is about to go down.
    ShutdownSignal(bool),
    /// Wait until no lock of mode "delay" names the action, but no longer
    /// than this.
    AwaitDelays(&'static str, Duration),
    /// Write to the file of the kernel. The result is that of the action.
    WriteState(&'static str),
    /// Ask the service manager. The result is that of the action.
    AskManager(protocol::ShutdownKind),
}

/// The file that puts the machine to sleep.
pub const POWER_STATE: &'static str = "/sys/power/state";

/// Whether `v` puts the machine to sleep: the clients are told, the locks are
/// waited for, the kernel is asked, and, whatever came of it, the clients are
/// told again.
pub open spec fn sleeps(v: Seq<PowerStep>, kind: SleepKind, max: Duration) -> bool {
    &&& v.len() == 4
    &&& v[0] == PowerStep::SleepSignal(true)
    &&& v[1] matches PowerStep::AwaitDelays(w, d) && w@ == "sleep"@ && d == max
    &&& v[2] matches PowerStep::WriteState(s) && s@ == kind.kernel_name()
    &&& v[3] == PowerStep::SleepSignal(false)
}

/// Whether `v` turns the machine off: the clients are told, the locks are
/// waited for, and the service manager is asked.
pub open spec fn shuts_down(v: Seq<PowerStep>, kind: ShutdownKind, max: Duration) -> bool {
    &&& v.len() == 3
    &&& v[0] == PowerStep::ShutdownSignal(true)
    &&& v[1] matches PowerStep::AwaitDelays(w, d) && w@ == "shutdown"@ && d == max
    &&& v[2] == PowerStep::AskManager(in_message(kind))
}

/// The steps that put the machine to sleep.
pub fn execute_sleep(kind: SleepKind, max: Duration) -> (r: Vec<PowerStep>)
    ensures
        sleeps(r@, kind, max),
{
    let mut r: Vec<PowerStep> = Vec::new();
    r.push(PowerStep::SleepSignal(true));
    r.push(PowerStep::AwaitDelays("sleep", max));
    r.push(PowerStep::WriteState(kind.sysfs_state()));
    r.push(PowerStep::SleepSignal(false));
    r
}

/// The steps that turn the machine off.
pub fn execute_shutdown(kind: ShutdownKind, max: Duration) -> (r: Vec<PowerStep>)
    ensures
        shuts_down(r@, kind, max),
{
    let kind: protocol::ShutdownKind = protocol::ShutdownKind::from(kind);
    let mut r: Vec<PowerStep> = Vec::new();
    r.push(PowerStep::ShutdownSignal(true));
    r.push(PowerStep::AwaitDelays("shutdown", max));
    r.push(PowerStep::AskManager(kind));
    r
}

/// The answer to a request that a lock refuses.
fn refusal(what: &str) -> (r: BusError)
    ensures
        r.failed_with("blocked by inhibitor for '"@ + what@ + "'"@),
{
    BusError::Failed(cat3("blocked by inhibitor for '", what, "'"))
}

/// What a request to put the machine to sleep does and is answered.
pub open spec fn sleep_requested(
    pre: Seq<Inhibitor>,
    post: Seq<Inhibitor>,
    released: Seq<u64>,
    kind: SleepKind,
    max: Duration,
    r: Result<Vec<PowerStep>, BusError>,
) -> bool {
    &&& post == still_held(pre, released)
    &&& match r {
            Ok(v) => !held_back(post, "block"@, "sleep"@) && sleeps(v@, kind, max),
            Err(e) => held_back(post, "block"@, "sleep"@) && e.failed_with(
                "blocked by inhibitor for '"@ + "sleep"@ + "'"@,
            ),
        }
}

/// A client's request to put the machine to sleep: refused where a lock of
/// mode "block" names it.
pub fn request_sleep(
    locks: &mut Vec<Inhibitor>,
    released: &Vec<u64>,
    kind: SleepKind,
    max: Duration,
) -> (r: Result<Vec<PowerStep>, BusError>)
    ensures
        sleep_requested(old(locks)@, final(locks)@, released@, kind, max, r),
{
    if has_block_inhibitor(locks, released, "sleep") {
        Err(refusal("sleep"))
    } else {
        Ok(execute_sleep(kind, max))
    }
}

/// What a request to turn the machine off does and is answered.
pub open spec fn shutdown_requested(
    pre: Seq<Inhibitor>,
    post: Seq<Inhibitor>,
    released: Seq<u64>,
    kind: ShutdownKind,
    max: Duration,
    r: Result<Vec<PowerStep>, BusError>,
) -> bool {
    &&& post == still_held(pre, released)
    &&& match r {
            Ok(v) => !held_back(post, "block"@, "shutdown"@) && shuts_down(
                v@,
                kind,
                max,
            ),
            Err(e) => held_back(post, "block"@, "shutdown"@) && e.failed_with(
                "blocked by inhibitor for '"@ + "shutdown"@ + "'"@,
            ),
        }
}

/// A client's request to turn the machine off: refused where a lock of mode
/// "block" names it.
pub fn request_shutdown(
    locks: &mut Vec<Inhibitor>,
    released: &Vec<u64>,
    kind: ShutdownKind,
    max: Duration,
) -> (r: Result<Vec<PowerStep>, BusError>)
    ensures
        shutdown_requested(old(locks)@, final(locks)@, released@, kind, max, r),
{
    if has_block_inhibitor(locks, released, "shutdown") {
        Err(refusal("shutdown"))
    } else {
        Ok(execute_shutdown(kind, max))
    }
}

/// Whether one of the locks that were not given up, of that mode, names an
/// action.
pub open spec fn stands_against(
    locks: Seq<Inhibitor>,
    released: Seq<u64>,
    mode: Seq<char>,
    what: Seq<char>,
) -> bool {
    exists|i: int|
        0 <= i < locks.len() && !released.contains((#[trigger] locks[i]).cookie) && locks[i].mode@
            == mode && locks[i].names(what)
}

proof fn lemma_stands_against(
    locks: Seq<Inhibitor>,
    released: Seq<u64>,
    mode: Seq<char>,
    what: Seq<char>,
)
    ensures
        held_back(still_held(locks, released), mode, what) == stands_against(
            locks,
            released,
            mode,
            what,
        ),
{
    let held = still_held(locks, released);
    if held_back(held, mode, what) {
        let i = choose|i: int|
            0 <= i < held.len() && (#[trigger] held[i]).mode@ == mode && held[i].names(what);
        held_locks_were_held(locks, released, held[i]);
        assert(held.contains(held[i]));
        let j = choose|j: int| 0 <= j < locks.len() && locks[j] == held[i];
        assert(!released.contains(locks[j].cookie));
    }
    if stands_against(locks, released, mode, what) {
        let j = choose|j: int|
            0 <= j < locks.len() && !released.contains((#[trigger] locks[j]).cookie)
                && locks[j].mode@ == mode && locks[j].names(what);
        held_locks_were_held(locks, released, locks[j]);
        assert(locks.contains(locks[j]));
        let i = choose|i: int| 0 <= i < held.len() && held[i] == locks[j];
        assert(held[i].mode@ == mode);
    }
}

/// A lock names each of the actions between the colons of its text.
pub proof fn lock_names_each_of_its_actions(i: Inhibitor, a: Seq<char>, b: Seq<char>)
    requires
        !a.contains(':'),
    ensures
        i.what@ == a ==> i.names(a),
        i.what@ == a ==> forall|w: Seq<char>| #[trigger] i.names(w) ==> w == a,
        i.what@ == a.push(':') + b ==> forall|w: Seq<char>| #[trigger]
            i.names(w) <==> w == a || pieces(b, ':').contains(w),
{
    first_piece_ends_at_the_mark(a, ':', b);
    if i.what@ == a {
        let p = pieces(a, ':');
        assert(p[0] == a);
        assert forall|w: Seq<char>| #[trigger] i.names(w) implies w == a by {
            let k = choose|k: int| 0 <= k < p.len() && p[k] == w;
        }
    }
    if i.what@ == a.push(':') + b {
        let p = pieces(i.what@, ':');
        let q = pieces(b, ':');
        assert(p == seq![a] + q);
        assert forall|w: Seq<char>| #[trigger] i.names(w) <==> w == a || q.contains(w) by {
            if p.contains(w) {
                let k = choose|k: int| 0 <= k < p.len() && p[k] == w;
                if k > 0 {
                    assert(q[k - 1] == w);
                }
            }
            if w == a {
                assert(p[0] == w);
            }
            if q.contains(w) {
                let k = choose|k: int| 0 <= k < q.len() && q[k] == w;
                assert(p[k + 1] == w);
            }
        }
    }
}

/// An action is refused just where a lock that was not given up blocks it.
pub proof fn only_a_block_refuses(
    pre: Seq<Inhibitor>,
    post: Seq<Inhibitor>,
    released: Seq<u64>,
    what: Seq<char>,
    r: bool,
)
    requires
        block_looked_for(pre, post, released, what, r),
    ensures
        r <==> stands_against(pre, released, "block"@, what),
{
    lemma_stands_against(pre, released, "block"@, what);
}

/// An action waits as long as a lock that was not given up delays it, but not
/// beyond the deadline.
pub proof fn delay_ends_with_the_locks_or_the_deadline(
    pre: Seq<Inhibitor>,
    post: Seq<Inhibitor>,
    released: Seq<u64>,
    what: Seq<char>,
    now: Instant,
    deadline: Instant,
    r: Delay,
)
    requires
        delay_looked_for(pre, post, released, what, now, deadline, r),
    ensures
        r is Go <==> !stands_against(pre, released, "delay"@, what),
        r is Wait <==> stands_against(pre, released, "delay"@, what) && now.nanos < deadline.nanos,
        r is GoAnyway <==> stands_against(pre, released, "delay"@, what) && now.nanos
            >= deadline.nanos,
{
    lemma_stands_against(pre, released, "delay"@, what);
}

/// A request to sleep is refused just where a lock blocks sleep. Else the
/// clients hear of it first, what delays sleep is awaited, no longer than is
/// set, and only then the kernel is asked; the clients hear of it once more
/// afterwards. The kernel suspends to memory, or to disk where the machine is to
/// hibernate, with or without memory.
pub proof fn sleep_goes_by_the_locks(
    pre: Seq<Inhibitor>,
    post: Seq<Inhibitor>,
    released: Seq<u64>,
    kind: SleepKind,
    max: Duration,
    r: Result<Vec<PowerStep>, BusError>,
)
    requires
        sleep_requested(pre, post, released, kind, max, r),
    ensures
        r is Err <==> stands_against(pre, released, "block"@, "sleep"@),
        r matches Ok(v) ==> {
            &&& v@.len() == 4
            &&& v@[0] == PowerStep::SleepSignal(true)
            &&& v@[1] is AwaitDelays && v@[1]->AwaitDelays_0@ == "sleep"@
                && v@[1]->AwaitDelays_1 == max
            &&& v@[2] is WriteState
            &&& kind is Suspend ==> v@[2]->WriteState_0@ == "mem"@
            &&& !(kind is Suspend) ==> v@[2]->WriteState_0@ == "disk"@
            &&& v@[3] == PowerStep::SleepSignal(false)
        },
{
    lemma_stands_against(pre, released, "block"@, "sleep"@);
}

/// A request to turn the machine off is refused just where a lock blocks it.
/// Else the clients hear of it first, what delays it is awaited, no longer than
/// is set, and then the service manager is asked for just that: to power off,
/// to reboot or to halt.
pub proof fn shutdown_goes_by_the_locks(
    pre: Seq<Inhibitor>,
    post: Seq<Inhibitor>,
    released: Seq<u64>,
    kind: ShutdownKind,
    max: Duration,
    r: Result<Vec<PowerStep>, BusError>,
)
    requires
        shutdown_requested(pre, post, released, kind, max, r),
    ensures
        r is Err <==> stands_against(pre, released, "block"@, "shutdown"@),
        r matches Ok(v) ==> {
            &&& v@.len() == 3
            &&& v@[0] == PowerStep::ShutdownSignal(true)
            &&& v@[1] is AwaitDelays && v@[1]->AwaitDelays_0@ == "shutdown"@
                && v@[1]->AwaitDelays_1 == max
            &&& v@[2] is AskManager
            &&& kind is Poweroff <==> v@[2]->AskManager_0 is Poweroff
            &&& kind is Reboot <==> v@[2]->AskManager_0 is Reboot
            &&& kind is Halt <==> v@[2]->AskManager_0 is Halt
        },
{
    lemma_stands_against(pre, released, "block"@, "shutdown"@);
}

} // verus!
