//! What every change to the login state keeps.

use crate::logind::manager::{removal, Removal};
use crate::logind::session::session_set;
use crate::logind::state::{
    consistent, displaced, first_of, first_on_seat, leader_ok, lemma_without, named_by_counter,
    promoted, put, seat_joined, seat_left, seat_ok, session_activated, session_added, session_ok,
    session_removed, user_ok, without, LoginState, Session,
};
use crate::logind::teardown::{removal_at, removals, torn_down};
use crate::text::num::{dec, lemma_dec_injective};
use crate::text::{opt_text, texts};
use vstd::prelude::*;

verus! {

proof fn lemma_push_contains(s: Seq<Seq<char>>, x: Seq<char>)
    ensures
        forall|y: Seq<char>| #[trigger] s.push(x).contains(y) <==> s.contains(y) || y == x,
        s.no_duplicates() && !s.contains(x) ==> s.push(x).no_duplicates(),
{
    assert forall|y: Seq<char>| #[trigger] s.push(x).contains(y) <==> s.contains(y) || y == x by {
        vstd::seq_lib::lemma_seq_contains_after_push(s, x, y);
    }
    if s.no_duplicates() && !s.contains(x) {
        assert forall|i: int, j: int| 0 <= i < s.len() + 1 && 0 <= j < s.len() + 1 && i
            != j implies s.push(x)[i] != s.push(x)[j] by {
            if i < s.len() {
                assert(s.contains(s[i]));
            }
            if j < s.len() {
                assert(s.contains(s[j]));
            }
        }
    }
}

/// A new session has a name that no other has.
pub proof fn new_session_name_is_fresh(st: LoginState)
    requires
        named_by_counter(st),
    ensures
        !st.sessions@.contains_key(dec(st.counters.next_session as nat)),
{
    let id = dec(st.counters.next_session as nat);
    if st.sessions@.contains_key(id) {
        let n = choose|n: nat| n < st.counters.next_session && id == #[trigger] dec(n);
        lemma_dec_injective(n, st.counters.next_session as nat);
    }
}

/// Registering a session keeps the state consistent, up to the last number
/// that the counter can give out.
pub proof fn creating_keeps_consistent(pre: LoginState, post: LoginState)
    requires
        consistent(pre),
        named_by_counter(pre),
        pre.counters.next_session < u64::MAX,
        session_added(pre, post, dec(pre.counters.next_session as nat)),
    ensures
        consistent(post),
        named_by_counter(post),
{
    let id = dec(pre.counters.next_session as nat);
    new_session_name_is_fresh(pre);
    let s = post.sessions@[id];
    let seat = opt_text(s.seat);
    let front = first_on_seat(pre.seats@, seat);
    assert(post.counters.next_session == pre.counters.next_session + 1);
    assert forall|k: Seq<char>| #[trigger] post.sessions@.contains_key(k) implies exists|n: nat|
        n < post.counters.next_session && k == #[trigger] dec(n) by {
        if k == id {
            assert(id == dec(pre.counters.next_session as nat));
        } else {
            assert(pre.sessions@.contains_key(k));
            let n = choose|n: nat| n < pre.counters.next_session && k == #[trigger] dec(n);
            assert(n < post.counters.next_session && k == dec(n));
        }
    }
    // Users: the session is added to its user, and to no other.
    assert forall|u: u32| #[trigger] post.users@.contains_key(u) implies user_ok(post, u) by {
        if u == s.uid {
            if pre.users@.contains_key(u) {
                let o = texts(pre.users@[u].sessions@);
                assert(user_ok(pre, u));
                assert(!o.contains(id));
                lemma_push_contains(o, id);
                assert forall|x: Seq<char>| #[trigger] texts(post.users@[u].sessions@).contains(x) implies
                    post.sessions@.contains_key(x) && post.sessions@[x].uid == u by {
                    if x != id {
                        assert(o.contains(x));
                    }
                }
                assert(texts(post.users@[u].sessions@).len() == post.users@[u].sessions@.len());
                assert(texts(post.users@[u].sessions@) == o.push(id));
                assert(o.push(id).contains(id));
            } else {
                let t = texts(post.users@[u].sessions@);
                assert(t == seq![id]);
                assert forall|x: Seq<char>| #[trigger] t.contains(x) implies x == id by {
                    let i = choose|i: int| 0 <= i < t.len() && t[i] == x;
                }
                assert(t.len() == post.users@[u].sessions@.len());
                assert(t[0] == id);
                assert(t.contains(id));
            }
        } else {
            assert(pre.users@.contains_key(u));
            assert(user_ok(pre, u));
        }
    }
    // Seats.
    assert forall|q: Seq<char>| #[trigger] post.seats@.contains_key(q) implies seat_ok(post, q) by {
        assert(pre.seats@.contains_key(q));
        assert(seat_ok(pre, q));
        let o = texts(pre.seats@[q].sessions@);
        if seat == Some(q) {
            assert(seat_joined(pre.seats@[q], post.seats@[q], id, front));
            assert(!o.contains(id));
            lemma_push_contains(o, id);
            assert forall|x: Seq<char>| #[trigger] texts(post.seats@[q].sessions@).contains(x) implies
                post.sessions@.contains_key(x) && opt_text(post.sessions@[x].seat) == Some(q) by {
                if x != id {
                    assert(o.contains(x));
                }
            }
        }
    }
    // Sessions.
    assert forall|k: Seq<char>| #[trigger] post.sessions@.contains_key(k) implies session_ok(post, k) by {
        if k == id {
            if pre.users@.contains_key(s.uid) {
                lemma_push_contains(texts(pre.users@[s.uid].sessions@), id);
            } else {
                assert(seq![id][0] == id);
            }
            if let Some(q) = seat {
                if pre.seats@.contains_key(q) {
                    lemma_push_contains(texts(pre.seats@[q].sessions@), id);
                    assert(seat_ok(pre, q));
                    assert(opt_text(pre.seats@[q].active_session) != Some(id)) by {
                        if opt_text(pre.seats@[q].active_session) == Some(id) {
                            assert(texts(pre.seats@[q].sessions@).contains(id));
                        }
                    }
                }
            }
        } else {
            assert(pre.sessions@.contains_key(k));
            assert(session_ok(pre, k));
            let o = pre.sessions@[k];
            if o.uid == s.uid {
                lemma_push_contains(texts(pre.users@[o.uid].sessions@), id);
            }
            if let Some(q) = opt_text(o.seat) {
                if pre.seats@.contains_key(q) {
                    assert(seat_ok(pre, q));
                    if seat == Some(q) {
                        assert(seat_joined(pre.seats@[q], post.seats@[q], id, front));
                        lemma_push_contains(texts(pre.seats@[q].sessions@), id);
                        if front {
                            assert(pre.seats@[q].active_session is None);
                            assert(texts(pre.seats@[q].sessions@).len() == 0);
                        }
                    }
                }
            }
        }
    }
    // Leaders.
    assert forall|p: u32| #[trigger] post.pid_to_session@.contains_key(p) implies leader_ok(post, p) by {
        if p != s.leader_pid {
            assert(pre.pid_to_session@.contains_key(p));
            assert(leader_ok(pre, p));
        }
    }
}

proof fn lemma_put(sessions: Map<Seq<char>, Session>, id: Option<Seq<char>>, front: bool)
    ensures
        put(sessions, id, front).dom() == sessions.dom(),
        forall|k: Seq<char>| #[trigger]
            sessions.contains_key(k) ==> {
                let a = sessions[k];
                let b = put(sessions, id, front)[k];
                &&& b.id == a.id
                &&& b.uid == a.uid
                &&& b.seat == a.seat
                &&& b.leader_pid == a.leader_pid
                &&& id == Some(k) ==> b.active == front && (b.state
                    == crate::logind::state::SessionState::Active) == front
                &&& id != Some(k) ==> b == a
            },
{
    assert(put(sessions, id, front).dom() =~= sessions.dom());
}

/// Removing a session keeps the state consistent.
pub proof fn removing_keeps_consistent(pre: LoginState, post: LoginState, id: Seq<char>)
    requires
        consistent(pre),
        session_removed(pre, post, id),
    ensures
        consistent(post),
        !post.sessions@.contains_key(id),
        named_by_counter(pre) ==> named_by_counter(post),
{
    if !pre.sessions@.contains_key(id) {
        assert forall|k: Seq<char>| #[trigger] post.sessions@.contains_key(k) implies session_ok(post, k) by {
            assert(session_ok(pre, k));
        }
        assert forall|q: Seq<char>| #[trigger] post.seats@.contains_key(q) implies seat_ok(post, q) by {
            assert(seat_ok(pre, q));
        }
        assert forall|u: u32| #[trigger] post.users@.contains_key(u) implies user_ok(post, u) by {
            assert(user_ok(pre, u));
        }
        assert forall|p: u32| #[trigger] post.pid_to_session@.contains_key(p) implies leader_ok(post, p) by {
            assert(leader_ok(pre, p));
        }
    } else {
        let s = pre.sessions@[id];
        let seat = opt_text(s.seat);
        let next = promoted(pre, id);
        let base = pre.sessions@.remove(id);
        assert(session_ok(pre, id));
        lemma_put(base, next, true);
        assert(post.sessions@.dom() =~= pre.sessions@.dom().remove(id));
        let ulist = texts(pre.users@[s.uid].sessions@);
        lemma_without(ulist, id);
        assert(user_ok(pre, s.uid));
        // The session that comes to the foreground is on the same seat.
        if let Some(n) = next {
            let q = seat->0;
            let rest = without(texts(pre.seats@[q].sessions@), id);
            lemma_without(texts(pre.seats@[q].sessions@), id);
            assert(rest[0] == n);
            assert(rest.contains(n));
            assert(seat_ok(pre, q));
            assert(texts(pre.seats@[q].sessions@).contains(n) && n != id);
            assert(base.contains_key(n));
            assert(opt_text(base[n].seat) == Some(q));
        }
        assert forall|u: u32| #[trigger] post.users@.contains_key(u) implies user_ok(post, u) by {
            assert(pre.users@.contains_key(u));
            assert(user_ok(pre, u));
            if u == s.uid {
                let t = texts(post.users@[u].sessions@);
                assert(t == without(ulist, id));
                assert(t.len() == post.users@[u].sessions@.len());
                assert forall|x: Seq<char>| #[trigger] t.contains(x) implies post.sessions@.contains_key(x)
                    && post.sessions@[x].uid == u by {
                    assert(ulist.contains(x) && x != id);
                    assert(base.contains_key(x));
                }
            } else {
                assert(post.users@[u] == pre.users@[u]);
                assert forall|x: Seq<char>| #[trigger] texts(post.users@[u].sessions@).contains(x) implies
                    post.sessions@.contains_key(x) && post.sessions@[x].uid == u by {
                    assert(pre.sessions@[x].uid == u);
                    assert(x != id);
                    assert(base.contains_key(x));
                }
            }
        }
        assert forall|q: Seq<char>| #[trigger] post.seats@.contains_key(q) implies seat_ok(post, q) by {
            assert(pre.seats@.contains_key(q));
            assert(seat_ok(pre, q));
            let o = texts(pre.seats@[q].sessions@);
            if seat == Some(q) {
                assert(seat_left(pre.seats@[q], post.seats@[q], id));
                lemma_without(o, id);
                let rest = without(o, id);
                assert(texts(post.seats@[q].sessions@).len() == post.seats@[q].sessions@.len());
                assert forall|x: Seq<char>| #[trigger] rest.contains(x) implies post.sessions@.contains_key(x)
                    && opt_text(post.sessions@[x].seat) == Some(q) by {
                    assert(o.contains(x) && x != id);
                    assert(base.contains_key(x));
                }
                match opt_text(post.seats@[q].active_session) {
                    Some(a) => {
                        if opt_text(pre.seats@[q].active_session) == Some(id) {
                            assert(rest[0] == a);
                            assert(rest.contains(a));
                        } else {
                            assert(o.contains(a));
                            assert(rest.contains(a));
                        }
                    },
                    None => {
                        if opt_text(pre.seats@[q].active_session) != Some(id) {
                            assert(o.len() == 0);
                            assert(rest.len() == 0) by {
                                if rest.len() > 0 {
                                    assert(rest.contains(rest[0]));
                                    assert(o.contains(rest[0]));
                                }
                            }
                        }
                    },
                }
            } else {
                assert forall|x: Seq<char>| #[trigger] o.contains(x) implies post.sessions@.contains_key(x)
                    && opt_text(post.sessions@[x].seat) == Some(q) by {
                    assert(opt_text(pre.sessions@[x].seat) == Some(q));
                    assert(x != id);
                    assert(base.contains_key(x));
                }
            }
        }
        assert forall|k: Seq<char>| #[trigger] post.sessions@.contains_key(k) implies session_ok(post, k) by {
            assert(base.contains_key(k));
            assert(pre.sessions@.contains_key(k) && k != id);
            assert(session_ok(pre, k));
            let a = pre.sessions@[k];
            let b = post.sessions@[k];
            // Its user still lists it.
            if a.uid == s.uid {
                assert(ulist.contains(k));
                assert(without(ulist, id).contains(k));
                assert(without(ulist, id).len() > 0);
            } else {
                assert(post.users@.contains_key(a.uid));
                assert(post.users@[a.uid] == pre.users@[a.uid]);
            }
            // Its seat still lists it.
            match opt_text(a.seat) {
                Some(q) if pre.seats@.contains_key(q) => {
                    assert(seat_ok(pre, q));
                    let o = texts(pre.seats@[q].sessions@);
                    if seat == Some(q) {
                        assert(seat_left(pre.seats@[q], post.seats@[q], id));
                        lemma_without(o, id);
                        assert(o.contains(k));
                        assert(without(o, id).contains(k));
                        if opt_text(pre.seats@[q].active_session) == Some(id) {
                            assert(!a.active);
                            assert(next == first_of(without(o, id)));
                        } else {
                            assert(next is None);
                        }
                    } else {
                        assert(next != Some(k)) by {
                            if next == Some(k) {
                                assert(opt_text(base[k].seat) == seat);
                            }
                        }
                    }
                },
                _ => {
                    assert(a.active);
                },
            }
        }
        assert forall|p: u32| #[trigger] post.pid_to_session@.contains_key(p) implies leader_ok(post, p) by {
            assert(pre.pid_to_session@.contains_key(p));
            assert(leader_ok(pre, p));
            let k = pre.pid_to_session@[p]@;
            assert(k != id);
            assert(base.contains_key(k));
        }
    }
    if named_by_counter(pre) {
        assert forall|k: Seq<char>| #[trigger] post.sessions@.contains_key(k) implies exists|n: nat|
            n < post.counters.next_session && k == #[trigger] dec(n) by {
            assert(pre.sessions@.contains_key(k));
            let n = choose|n: nat| n < pre.counters.next_session && k == #[trigger] dec(n);
            assert(n < post.counters.next_session && k == dec(n));
        }
    }
}

/// Bringing a session to the foreground keeps the state consistent, and puts
/// the session there where it is on a seat.
pub proof fn activating_keeps_consistent(pre: LoginState, post: LoginState, id: Seq<char>)
    requires
        consistent(pre),
        session_activated(pre, post, id),
    ensures
        consistent(post),
        pre.sessions@.contains_key(id) ==> post.sessions@.contains_key(id)
            && post.sessions@[id].active,
        named_by_counter(pre) ==> named_by_counter(post),
{
    if !pre.sessions@.contains_key(id) || pre.sessions@[id].seat is None {
        assert forall|k: Seq<char>| #[trigger] post.sessions@.contains_key(k) implies session_ok(post, k) by {
            assert(session_ok(pre, k));
        }
        assert forall|q: Seq<char>| #[trigger] post.seats@.contains_key(q) implies seat_ok(post, q) by {
            assert(seat_ok(pre, q));
        }
        assert forall|u: u32| #[trigger] post.users@.contains_key(u) implies user_ok(post, u) by {
            assert(user_ok(pre, u));
        }
        assert forall|p: u32| #[trigger] post.pid_to_session@.contains_key(p) implies leader_ok(post, p) by {
            assert(leader_ok(pre, p));
        }
        if pre.sessions@.contains_key(id) {
            assert(session_ok(pre, id));
        }
    } else {
        let seat = opt_text(pre.sessions@[id].seat);
        let q0 = seat->0;
        let gone = displaced(pre, id);
        let mid = put(pre.sessions@, gone, false);
        assert(session_ok(pre, id));
        lemma_put(pre.sessions@, gone, false);
        lemma_put(mid, Some(id), true);
        assert(post.sessions@.dom() =~= pre.sessions@.dom());
        assert forall|q: Seq<char>| #[trigger] post.seats@.contains_key(q) implies seat_ok(post, q) by {
            assert(pre.seats@.contains_key(q));
            assert(seat_ok(pre, q));
            assert(post.seats@[q].sessions == pre.seats@[q].sessions);
            assert forall|x: Seq<char>| #[trigger] texts(post.seats@[q].sessions@).contains(x) implies
                post.sessions@.contains_key(x) && opt_text(post.sessions@[x].seat) == Some(q) by {
                assert(pre.sessions@.contains_key(x));
                assert(mid.contains_key(x));
            }
        }
        assert forall|u: u32| #[trigger] post.users@.contains_key(u) implies user_ok(post, u) by {
            assert(user_ok(pre, u));
            assert forall|x: Seq<char>| #[trigger] texts(post.users@[u].sessions@).contains(x) implies
                post.sessions@.contains_key(x) && post.sessions@[x].uid == u by {
                assert(pre.sessions@.contains_key(x));
                assert(mid.contains_key(x));
            }
        }
        assert forall|k: Seq<char>| #[trigger] post.sessions@.contains_key(k) implies session_ok(post, k) by {
            assert(pre.sessions@.contains_key(k));
            assert(mid.contains_key(k));
            assert(session_ok(pre, k));
            let a = pre.sessions@[k];
            match opt_text(a.seat) {
                Some(q) if pre.seats@.contains_key(q) => {
                    assert(post.seats@.contains_key(q));
                    assert(seat_ok(pre, q));
                    if q == q0 {
                        if k != id {
                            // In the foreground before: displaced now.
                            if a.active {
                                assert(opt_text(pre.seats@[q].active_session) == Some(k));
                                assert(gone == Some(k));
                            }
                        }
                    } else {
                        assert(k != id);
                        assert(gone != Some(k)) by {
                            if gone == Some(k) {
                                assert(pre.seats@.contains_key(q0));
                                assert(seat_ok(pre, q0));
                                assert(texts(pre.seats@[q0].sessions@).contains(k));
                                assert(opt_text(pre.sessions@[k].seat) == Some(q0));
                            }
                        }
                    }
                },
                _ => {
                    assert(gone != Some(k)) by {
                        if gone == Some(k) {
                            assert(pre.seats@.contains_key(q0));
                            assert(seat_ok(pre, q0));
                            assert(texts(pre.seats@[q0].sessions@).contains(k));
                            assert(opt_text(pre.sessions@[k].seat) == Some(q0));
                        }
                    }
                },
            }
        }
        assert forall|p: u32| #[trigger] post.pid_to_session@.contains_key(p) implies leader_ok(post, p) by {
            assert(leader_ok(pre, p));
            let k = pre.pid_to_session@[p]@;
            assert(pre.sessions@.contains_key(k));
            assert(mid.contains_key(k));
        }
    }
    if named_by_counter(pre) {
        assert forall|k: Seq<char>| #[trigger] post.sessions@.contains_key(k) implies exists|n: nat|
            n < post.counters.next_session && k == #[trigger] dec(n) by {
            assert(pre.sessions@.contains_key(k));
            let n = choose|n: nat| n < pre.counters.next_session && k == #[trigger] dec(n);
            assert(n < post.counters.next_session && k == dec(n));
        }
    }
}

/// A seat never has two sessions in the foreground.
pub proof fn one_active_session_per_seat(st: LoginState, q: Seq<char>, a: Seq<char>, b: Seq<char>)
    requires
        consistent(st),
        st.seats@.contains_key(q),
        st.sessions@.contains_key(a),
        st.sessions@.contains_key(b),
        opt_text(st.sessions@[a].seat) == Some(q),
        opt_text(st.sessions@[b].seat) == Some(q),
        st.sessions@[a].active,
        st.sessions@[b].active,
    ensures
        a == b,
{
    assert(session_ok(st, a));
    assert(session_ok(st, b));
}

/// A seat with sessions has one in the foreground.
pub proof fn occupied_seat_has_active_session(st: LoginState, q: Seq<char>, k: Seq<char>)
    requires
        consistent(st),
        st.seats@.contains_key(q),
        st.sessions@.contains_key(k),
        opt_text(st.sessions@[k].seat) == Some(q),
    ensures
        opt_text(st.seats@[q].active_session) matches Some(a) && st.sessions@.contains_key(a)
            && st.sessions@[a].active && opt_text(st.sessions@[a].seat) == Some(q),
{
    assert(session_ok(st, k));
    assert(seat_ok(st, q));
    let t = texts(st.seats@[q].sessions@);
    assert(t.contains(k));
    assert(t.len() == st.seats@[q].sessions@.len());
    let a = opt_text(st.seats@[q].active_session)->0;
    assert(session_ok(st, a));
}

/// What is pending does not count for whether the state is consistent.
proof fn lemma_pending_does_not_count(a: LoginState, b: LoginState)
    requires
        consistent(a),
        a == (LoginState { pending_user_cleanups: a.pending_user_cleanups, ..b }),
    ensures
        consistent(b),
        named_by_counter(a) == named_by_counter(b),
{
    assert forall|k: Seq<char>| #[trigger] b.sessions@.contains_key(k) implies session_ok(b, k) by {
        assert(session_ok(a, k));
    }
    assert forall|q: Seq<char>| #[trigger] b.seats@.contains_key(q) implies seat_ok(b, q) by {
        assert(seat_ok(a, q));
    }
    assert forall|u: u32| #[trigger] b.users@.contains_key(u) implies user_ok(b, u) by {
        assert(user_ok(a, u));
    }
    assert forall|p: u32| #[trigger] b.pid_to_session@.contains_key(p) implies leader_ok(b, p) by {
        assert(leader_ok(a, p));
    }
}

/// Opening a session for a client keeps the state consistent, up to the last
/// number that the counter can give out.
pub proof fn opening_keeps_consistent(pre: LoginState, post: LoginState)
    requires
        consistent(pre),
        named_by_counter(pre),
        pre.counters.next_session < u64::MAX,
        session_added(
            LoginState { pending_user_cleanups: post.pending_user_cleanups, ..pre },
            post,
            dec(pre.counters.next_session as nat),
        ),
    ensures
        consistent(post),
        named_by_counter(post),
{
    let p = LoginState { pending_user_cleanups: post.pending_user_cleanups, ..pre };
    lemma_pending_does_not_count(pre, p);
    creating_keeps_consistent(p, post);
}

/// Removing a session for a client keeps the state consistent.
pub proof fn removal_keeps_consistent(
    pre: LoginState,
    post: LoginState,
    id: Seq<char>,
    r: Option<Removal>,
)
    requires
        consistent(pre),
        removal(pre, post, id, r),
    ensures
        consistent(post),
        !post.sessions@.contains_key(id),
        named_by_counter(pre) ==> named_by_counter(post),
{
    if r is Some {
        let p = LoginState { pending_user_cleanups: post.pending_user_cleanups, ..pre };
        lemma_pending_does_not_count(pre, p);
        removing_keeps_consistent(p, post, id);
    }
}

proof fn lemma_removals_keep(
    states: Seq<LoginState>,
    ids: Seq<Seq<char>>,
    rs: Seq<Option<Removal>>,
    n: int,
)
    requires
        removals(states, ids, rs),
        consistent(states[0]),
        0 <= n <= ids.len(),
    ensures
        consistent(states[n]),
    decreases n,
{
    if n > 0 {
        lemma_removals_keep(states, ids, rs, n - 1);
        assert(removal_at(states, ids, rs, n - 1));
        removal_keeps_consistent(states[n - 1], states[n], ids[n - 1], rs[n - 1]);
    }
}

/// Ending many sessions at once keeps the state consistent.
pub proof fn teardown_keeps_consistent(
    pre: LoginState,
    post: LoginState,
    ids: Seq<Seq<char>>,
    rs: Seq<Option<Removal>>,
)
    requires
        consistent(pre),
        torn_down(pre, post, ids, rs),
    ensures
        consistent(post),
{
    let states = choose|states: Seq<LoginState>| #[trigger]
        removals(states, ids, rs) && states[0] == pre && states.last() == post;
    lemma_removals_keep(states, ids, rs, ids.len() as int);
}

/// Whether a session is on no seat, in no foreground, with no user, not
/// displayed, and led by no process.
pub open spec fn named_nowhere(st: LoginState, id: Seq<char>) -> bool {
    &&& !st.sessions@.contains_key(id)
    &&& forall|q: Seq<char>| #[trigger]
        st.seats@.contains_key(q) ==> !texts(st.seats@[q].sessions@).contains(id) && opt_text(
            st.seats@[q].active_session,
        ) != Some(id)
    &&& forall|u: u32| #[trigger]
        st.users@.contains_key(u) ==> !texts(st.users@[u].sessions@).contains(id) && opt_text(
            st.users@[u].display_session,
        ) != Some(id)
    &&& forall|p: u32| #[trigger]
        st.pid_to_session@.contains_key(p) ==> st.pid_to_session@[p]@ != id
}

/// A session that was removed is named nowhere.
pub proof fn removed_session_is_named_nowhere(pre: LoginState, post: LoginState, id: Seq<char>)
    requires
        consistent(pre),
        session_removed(pre, post, id),
    ensures
        named_nowhere(post, id),
{
    removing_keeps_consistent(pre, post, id);
    assert forall|q: Seq<char>| #[trigger] post.seats@.contains_key(q) implies !texts(
        post.seats@[q].sessions@,
    ).contains(id) && opt_text(post.seats@[q].active_session) != Some(id) by {
        assert(seat_ok(post, q));
    }
    assert forall|u: u32| #[trigger] post.users@.contains_key(u) implies !texts(
        post.users@[u].sessions@,
    ).contains(id) && opt_text(post.users@[u].display_session) != Some(id) by {
        assert(user_ok(post, u));
    }
    assert forall|p: u32| #[trigger]
        post.pid_to_session@.contains_key(p) implies post.pid_to_session@[p]@ != id by {
        assert(leader_ok(post, p));
    }
}

/// A user who is there has a session: one whose sessions all ended is gone.
pub proof fn user_has_a_session(st: LoginState, uid: u32)
    requires
        consistent(st),
        st.users@.contains_key(uid),
    ensures
        exists|k: Seq<char>| #[trigger] st.sessions@.contains_key(k) && st.sessions@[k].uid == uid,
{
    assert(user_ok(st, uid));
    let all = texts(st.users@[uid].sessions@);
    assert(all.contains(all[0]));
    assert(st.sessions@.contains_key(all[0]));
}

/// Changes to a session that leave alone whose it is, where it is and whether
/// it is in the foreground keep the state consistent.
pub proof fn setting_keeps_consistent(pre: LoginState, post: LoginState, id: Seq<char>, s: Session)
    requires
        consistent(pre),
        session_set(pre, post, id, s),
        pre.sessions@.contains_key(id),
        s.id@ == pre.sessions@[id].id@,
        s.uid == pre.sessions@[id].uid,
        opt_text(s.seat) == opt_text(pre.sessions@[id].seat),
        s.active == pre.sessions@[id].active,
        s.state == pre.sessions@[id].state,
        s.leader_pid == pre.sessions@[id].leader_pid,
    ensures
        consistent(post),
{
    assert(session_ok(pre, id));
    assert forall|k: Seq<char>| #[trigger] post.sessions@.contains_key(k) implies session_ok(
        post,
        k,
    ) by {
        assert(session_ok(pre, k));
    }
    assert forall|q: Seq<char>| #[trigger] post.seats@.contains_key(q) implies seat_ok(post, q) by {
        assert(seat_ok(pre, q));
    }
    assert forall|u: u32| #[trigger] post.users@.contains_key(u) implies user_ok(post, u) by {
        assert(user_ok(pre, u));
    }
    assert forall|p: u32| #[trigger] post.pid_to_session@.contains_key(p) implies leader_ok(
        post,
        p,
    ) by {
        assert(leader_ok(pre, p));
    }
}

} // verus!
