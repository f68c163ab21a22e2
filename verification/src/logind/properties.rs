//! What the login manager tells of itself.

use crate::logind::inhibitor::Inhibitor;
use crate::logind::state::LoginState;
use crate::names::contains_name;
use crate::text::scan::{contains, deep, has_part, pieces, split};
use crate::text::{chars_of, join, joined, owned, string_of, texts};
use crate::time::Duration;
use vstd::prelude::*;

verus! {

/// Whether every session is idle.
pub open spec fn all_idle(
    st: LoginState,
    r: bool,
) -> bool {
    r == forall|k: Seq<char>| #[trigger]
                st.sessions@.contains_key(k) ==> st.sessions@[k].idle_hint
}

/// Whether every session is idle.
pub fn idle_hint(st: &LoginState) -> (r: bool)
    requires
        st.wf(),
    ensures
        all_idle(*st, r),
{
    proof {
        st.sessions.lemma_order();
    }
    let ghost keys = st.sessions.order();
    let mut i: usize = 0;
    while i < st.sessions.len()
        invariant
            st.wf(),
            keys == st.sessions.order(),
            i <= keys.len(),
            forall|k: int| 0 <= k < i ==> st.sessions@[#[trigger] keys[k]].idle_hint,
        decreases keys.len() - i,
    {
        if !st.sessions.value_at(i).idle_hint {
            proof {
                assert(keys.contains(keys[i as int]));
                assert(st.sessions@.contains_key(keys[i as int]));
            }
            return false;
        }
        i += 1;
    }
    assert forall|k: Seq<char>| #[trigger]
        st.sessions@.contains_key(k) implies st.sessions@[k].idle_hint by {
        assert(keys.contains(k));
        let n = choose|n: int| 0 <= n < keys.len() && keys[n] == k;
        assert(st.sessions@[keys[n]].idle_hint);
    }
    true
}

/// `acc` with those of `ws` behind it that are not there yet.
pub open spec fn with_new(acc: Seq<Seq<char>>, ws: Seq<Seq<char>>) -> Seq<Seq<char>>
    decreases ws.len(),
{
    if ws.len() == 0 {
        acc
    } else {
        let rest = with_new(acc, ws.drop_last());
        if rest.contains(ws.last()) {
            rest
        } else {
            rest.push(ws.last())
        }
    }
}

/// What the locks of a mode name, each once, in the order of its first place.
pub open spec fn named_by(locks: Seq<Inhibitor>, mode: Seq<char>) -> Seq<Seq<char>>
    decreases locks.len(),
{
    if locks.len() == 0 {
        Seq::empty()
    } else {
        let rest = named_by(locks.drop_last(), mode);
        if locks.last().mode@ == mode {
            with_new(rest, pieces(locks.last().what@, ':'))
        } else {
            rest
        }
    }
}

fn push_new(v: &mut Vec<String>, ws: &Vec<Vec<char>>)
    ensures
        texts(final(v)@) == with_new(texts(old(v)@), deep(ws@)),
{
    let ghost o = deep(ws@);
    let ghost start = texts(v@);
    let mut i: usize = 0;
    assert(with_new(start, o.take(0)) == start);
    while i < ws.len()
        invariant
            i <= ws.len(),
            o == deep(ws@),
            texts(v@) == with_new(start, o.take(i as int)),
        decreases ws.len() - i,
    {
        let ghost before = texts(v@);
        let w = string_of(&ws[i]);
        proof {
            assert(o.take(i + 1).drop_last() =~= o.take(i as int));
            assert(o.take(i + 1).last() == ws@[i as int]@);
        }
        if !contains_name(v, w.as_str()) {
            let ghost wv = w@;
            v.push(w);
            assert(texts(v@) =~= before.push(wv));
        }
        i += 1;
    }
    assert(o.take(o.len() as int) =~= o);
}

fn names_of(locks: &Vec<Inhibitor>, mode: &str) -> (r: Vec<String>)
    ensures
        texts(r@) == named_by(locks@, mode@),
{
    let ghost o = locks@;
    let mut r: Vec<String> = Vec::new();
    let mut i: usize = 0;
    assert(texts(r@) =~= named_by(o.take(0), mode@));
    while i < locks.len()
        invariant
            i <= locks.len(),
            o == locks@,
            texts(r@) == named_by(o.take(i as int), mode@),
        decreases locks.len() - i,
    {
        proof {
            assert(o.take(i + 1).drop_last() =~= o.take(i as int));
            assert(o.take(i + 1).last() == locks@[i as int]);
        }
        if locks[i].has_mode(mode) {
            let c = chars_of(locks[i].what.as_str());
            let ws = split(&c, ':');
            push_new(&mut r, &ws);
        }
        i += 1;
    }
    assert(o.take(o.len() as int) =~= o);
    r
}

/// What is blocked, with colons between the names.
pub fn block_inhibited(st: &LoginState) -> (r: String)
    ensures
        r@ == joined(named_by(st.inhibitors@, "block"@), ":"@),
{
    let v = names_of(&st.inhibitors, "block");
    join(&v, ":")
}

/// What is delayed, with colons between the names.
pub fn delay_inhibited(st: &LoginState) -> (r: String)
    ensures
        r@ == joined(named_by(st.inhibitors@, "delay"@), ":"@),
{
    let v = names_of(&st.inhibitors, "delay");
    join(&v, ":")
}

fn mentions(content: Option<&str>, word: &str) -> (r: bool)
    ensures
        r == (content matches Some(c) && has_part(c@, word@)),
{
    match content {
        Some(c) => {
            let text = chars_of(c);
            let w = chars_of(word);
            contains(&text, &w)
        },
        None => false,
    }
}

/// "yes" or "na".
pub open spec fn availability(can: bool) -> Seq<char> {
    if can {
        "yes"@
    } else {
        "na"@
    }
}

/// Whether the machine can do it, by what the kernel offers.
pub open spec fn can_suspend_told(
    states: Option<&str>,
    r: Seq<char>,
) -> bool {
    r == availability(states matches Some(c) && has_part(c@, "mem"@))
}

/// Whether the machine can be suspended, by what the kernel offers.
pub fn can_suspend(states: Option<&str>) -> (r: String)
    ensures
        can_suspend_told(states, r@),
{
    if mentions(states, "mem") {
        owned("yes")
    } else {
        owned("na")
    }
}

/// Whether the machine can do it, by what the kernel offers.
pub open spec fn can_hibernate_told(
    states: Option<&str>,
    r: Seq<char>,
) -> bool {
    r == availability(states matches Some(c) && has_part(c@, "disk"@))
}

/// Whether the machine can hibernate, by what the kernel offers.
pub fn can_hibernate(states: Option<&str>) -> (r: String)
    ensures
        can_hibernate_told(states, r@),
{
    if mentions(states, "disk") {
        owned("yes")
    } else {
        owned("na")
    }
}

/// Whether the machine can do it, by what the kernel offers.
pub open spec fn can_hybrid_sleep_told(
    states: Option<&str>,
    r: Seq<char>,
) -> bool {
    r == availability(states matches Some(c) && has_part(c@, "disk"@))
}

/// Whether the machine can do both: where it can hibernate.
pub fn can_hybrid_sleep(states: Option<&str>) -> (r: String)
    ensures
        can_hybrid_sleep_told(states, r@),
{
    can_hibernate(states)
}

/// Whether the lid is closed, by the file that tells it.
pub open spec fn lid_told(
    state: Option<&str>,
    r: bool,
) -> bool {
    r == (state matches Some(c) && has_part(c@, "closed"@))
}

/// Whether the lid is closed, by the file that tells it.
pub fn lid_closed(state: Option<&str>) -> (r: bool)
    ensures
        lid_told(state, r),
{
    mentions(state, "closed")
}

/// A span in microseconds. Beyond 64 bits they start again from zero.
pub fn micros(d: Duration) -> (r: u64)
    ensures
        r == (d.total() / 1000) % 0x1_0000_0000_0000_0000,
{
    let us = d.as_nanos() / 1000;
    (us % 0x1_0000_0000_0000_0000) as u64
}

/// How long locks may delay an action, in microseconds.
pub fn inhibit_delay_max_u_sec(st: &LoginState) -> (r: u64)
    ensures
        r == (st.config.inhibit_delay_max.total() / 1000) % 0x1_0000_0000_0000_0000,
{
    micros(st.config.inhibit_delay_max)
}

/// How long a user is kept after the last session, in microseconds.
pub fn user_stop_delay_u_sec(st: &LoginState) -> (r: u64)
    ensures
        r == (st.config.user_stop_delay.total() / 1000) % 0x1_0000_0000_0000_0000,
{
    micros(st.config.user_stop_delay)
}

/// The machine can suspend just where the kernel offers `mem`, and hibernate, in
/// either way, just where it offers `disk`; and the lid is closed just where its
/// file says so.
pub proof fn abilities_are_told_by_the_kernel(
    states: Option<&str>,
    a: Seq<char>,
    b: Seq<char>,
    c: Seq<char>,
    state: Option<&str>,
    l: bool,
)
    requires
        can_suspend_told(states, a),
        can_hibernate_told(states, b),
        can_hybrid_sleep_told(states, c),
        lid_told(state, l),
    ensures
        states is Some && has_part(states->0@, "mem"@) ==> a == "yes"@,
        states is None || !has_part(states->0@, "mem"@) ==> a == "na"@,
        states is Some && has_part(states->0@, "disk"@) ==> b == "yes"@ && c == "yes"@,
        states is None || !has_part(states->0@, "disk"@) ==> b == "na"@ && c == "na"@,
        l <==> state is Some && has_part(state->0@, "closed"@),
{
}

/// The machine is idle just where no session is busy.
pub proof fn machine_is_idle_with_its_sessions(st: LoginState, r: bool, k: Seq<char>)
    requires
        all_idle(st, r),
    ensures
        r && st.sessions@.contains_key(k) ==> st.sessions@[k].idle_hint,
        !r ==> exists|x: Seq<char>| #[trigger]
            st.sessions@.contains_key(x) && !st.sessions@[x].idle_hint,
{
}

proof fn lemma_with_new(acc: Seq<Seq<char>>, ws: Seq<Seq<char>>, x: Seq<char>)
    ensures
        with_new(acc, ws).contains(x) <==> acc.contains(x) || ws.contains(x),
    decreases ws.len(),
{
    if ws.len() > 0 {
        let front = ws.drop_last();
        let rest = with_new(acc, front);
        lemma_with_new(acc, front, x);
        vstd::seq_lib::lemma_seq_contains_after_push(rest, ws.last(), x);
        if ws.contains(x) {
            let i = choose|i: int| 0 <= i < ws.len() && ws[i] == x;
            if i < front.len() {
                assert(front[i] == x);
            }
        }
        if front.contains(x) {
            let i = choose|i: int| 0 <= i < front.len() && front[i] == x;
            assert(ws[i] == x);
        }
        if ws.last() == x {
            assert(ws[ws.len() - 1] == x);
        }
    }
}

/// What is told to be blocked, or delayed, is what the locks of that mode name,
/// and nothing else.
pub proof fn locks_tell_what_they_name(locks: Seq<Inhibitor>, mode: Seq<char>, x: Seq<char>)
    ensures
        named_by(locks, mode).contains(x) <==> exists|i: int|
            0 <= i < locks.len() && (#[trigger] locks[i]).mode@ == mode && locks[i].names(x),
    decreases locks.len(),
{
    if locks.len() > 0 {
        let front = locks.drop_last();
        locks_tell_what_they_name(front, mode, x);
        lemma_with_new(named_by(front, mode), pieces(locks.last().what@, ':'), x);
        if named_by(front, mode).contains(x) {
            let i = choose|i: int|
                0 <= i < front.len() && (#[trigger] front[i]).mode@ == mode && front[i].names(x);
            assert(locks[i] == front[i]);
        }
        if locks.last().mode@ == mode && locks.last().names(x) {
            assert(locks[locks.len() - 1] == locks.last());
        }
        if exists|i: int|
            0 <= i < locks.len() && (#[trigger] locks[i]).mode@ == mode && locks[i].names(x) {
            let i = choose|i: int|
                0 <= i < locks.len() && (#[trigger] locks[i]).mode@ == mode && locks[i].names(x);
            if i < front.len() {
                assert(front[i] == locks[i]);
            }
        }
    }
}

} // verus!
