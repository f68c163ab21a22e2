//! What requests about sessions come to.

use crate::bus::BusError;
use crate::logind::inhibitor::Inhibitor;
use crate::logind::manager::{
    brought_forward, brought_forward_on, cleanup_looked_at, given_up_by_client, handings,
    leader_found, lock_taken, locks_listed, seat_at, seat_found, seats_listed, session_at,
    session_found, session_opened, sessions_listed, user_at, user_found, users_listed, AclStep,
    Handing, NewSession, Removal, SessionRequest,
};
use crate::logind::power::held_locks_were_held;
use crate::logind::seat::{activated_on, seat_cleared};
use crate::logind::session::{
    control_asked, control_given_up, device_asked, device_checked, device_given_back,
    idle_hint_set, type_set, DeviceGrant,
};
use crate::logind::state::{
    consistent, lemma_without, seat_ok, session_ok, user_ok, without, LoginState, Session, SessionState,
    UserState,
};
use crate::logind::teardown::{leaders_of, seat_ended, user_ended};
use crate::logind::user::{sessions_ended, signal_sent};
use crate::text::num::dec;
use crate::text::{opt_text, texts};
use crate::time::Instant;
use vstd::prelude::*;

verus! {

/// A session that is opened is the one that was asked for: it belongs to the
/// user and the process that the request names, has the type and the class that
/// it names, `tty` and `user` where it names none, and all else that it names.
pub proof fn opened_session_is_the_requested_one(
    pre: LoginState,
    post: LoginState,
    q: SessionRequest,
    known: Option<(String, u32)>,
    now_usec: u64,
    now: Instant,
    c: NewSession,
)
    requires
        session_opened(pre, post, q, known, now_usec, now, Ok(c)),
    ensures
        post.sessions@.contains_key(c.id@),
        ({
            let s = post.sessions@[c.id@];
            &&& s.id@ == c.id@
            &&& s.uid == q.uid
            &&& s.leader_pid == q.pid
            &&& q.session_type@.len() > 0 ==> s.session_type@ == q.session_type@
            &&& q.session_type@.len() == 0 ==> s.session_type@ == "tty"@
            &&& q.class@.len() > 0 ==> s.class@ == q.class@
            &&& q.class@.len() == 0 ==> s.class@ == "user"@
            &&& q.tty@.len() > 0 ==> opt_text(s.tty) == Some(q.tty@)
            &&& q.tty@.len() == 0 ==> s.tty is None
            &&& q.display@.len() > 0 ==> opt_text(s.display) == Some(q.display@)
            &&& q.display@.len() == 0 ==> s.display is None
            &&& q.seat_id@.len() > 0 ==> opt_text(s.seat) == Some(q.seat_id@)
            &&& q.seat_id@.len() == 0 && pre.seats@.contains_key("seat0"@) ==> opt_text(s.seat)
                == Some("seat0"@)
            &&& q.seat_id@.len() == 0 && !pre.seats@.contains_key("seat0"@) ==> s.seat is None
            &&& s.desktop@ == q.desktop@
            &&& s.service@ == q.service@
            &&& s.vtnr == q.vtnr
            &&& s.remote == q.remote
            &&& s.remote_host@ == q.remote_host@
            &&& s.remote_user@ == q.remote_user@
            &&& known matches Some(k) ==> s.user_name@ == k.0@
            &&& known is None ==> s.user_name@ == "uid"@ + dec(q.uid as nat)
            &&& s.controller is None
            &&& s.devices@.len() == 0
            &&& !s.idle_hint && !s.locked_hint
            &&& s.created_realtime_usec == now_usec
            &&& s.created_monotonic == now
        }),
{
}

/// The client is told of the session that was opened: its name is the next
/// number, it is a new one, and its seat, its terminal and the directory of its
/// user are those of the session.
pub proof fn client_is_told_of_its_session(
    pre: LoginState,
    post: LoginState,
    q: SessionRequest,
    known: Option<(String, u32)>,
    now_usec: u64,
    now: Instant,
    c: NewSession,
)
    requires
        session_opened(pre, post, q, known, now_usec, now, Ok(c)),
    ensures
        c.id@ == dec(pre.counters.next_session as nat),
        pre.counters.next_session < u64::MAX ==> post.counters.next_session
            == pre.counters.next_session + 1,
        !c.existing,
        c.vtnr == q.vtnr,
        c.runtime_path@ == "/run/user/"@ + dec(q.uid as nat),
        c.seat@ == match post.sessions@[c.id@].seat {
            Some(s) => s@,
            None => Seq::empty(),
        },
        known matches Some(k) ==> c.gid == k.1,
        known is None ==> c.gid == q.uid,
        c.runtime_size@ == pre.config.runtime_directory_size@,
        c.cancel_cleanup <==> pre.pending_user_cleanups@.contains_key(q.uid),
        !post.pending_user_cleanups@.contains_key(q.uid),
{
}

/// A session that is opened comes to the foreground just where its seat has
/// none there, or where it is on no seat. It joins its user, its seat and the
/// process that leads it; nothing else changes.
pub proof fn opened_session_takes_its_place(
    pre: LoginState,
    post: LoginState,
    q: SessionRequest,
    known: Option<(String, u32)>,
    now_usec: u64,
    now: Instant,
    c: NewSession,
    k: Seq<char>,
    p: u32,
    u: u32,
)
    requires
        session_opened(pre, post, q, known, now_usec, now, Ok(c)),
    ensures
        ({
            let s = post.sessions@[c.id@];
            let front = match opt_text(s.seat) {
                Some(n) => pre.seats@[n].active_session is None,
                None => true,
            };
            &&& s.active == front
            &&& s.state == if front {
                SessionState::Active
            } else {
                SessionState::Online
            }
            &&& opt_text(s.seat) matches Some(n) ==> {
                &&& pre.seats@.contains_key(n)
                &&& texts(post.seats@[n].sessions@) == texts(pre.seats@[n].sessions@).push(c.id@)
                &&& opt_text(post.seats@[n].active_session) == if front {
                    Some(c.id@)
                } else {
                    opt_text(pre.seats@[n].active_session)
                }
            }
            &&& pre.seats@.contains_key(k) && opt_text(s.seat) != Some(k) ==> post.seats@[k]
                == pre.seats@[k]
            &&& post.users@.contains_key(q.uid)
            &&& texts(post.users@[q.uid].sessions@).last() == c.id@
            &&& !pre.users@.contains_key(q.uid) ==> post.users@[q.uid].uid == q.uid
                && post.users@[q.uid].name@ == s.user_name@ && post.users@[q.uid].sessions@.len()
                == 1
            &&& pre.users@.contains_key(q.uid) ==> post.users@[q.uid].name
                == pre.users@[q.uid].name && texts(post.users@[q.uid].sessions@) == texts(
                pre.users@[q.uid].sessions@,
            ).push(c.id@)
            &&& front ==> post.users@[q.uid].state == UserState::Active && opt_text(
                post.users@[q.uid].display_session,
            ) == Some(c.id@)
        }),
        post.pid_to_session@.contains_key(q.pid),
        post.pid_to_session@[q.pid]@ == c.id@,
        k != c.id@ ==> post.sessions@.contains_key(k) == pre.sessions@.contains_key(k),
        k != c.id@ && pre.sessions@.contains_key(k) ==> post.sessions@[k] == pre.sessions@[k],
        p != q.pid && pre.pid_to_session@.contains_key(p) ==> post.pid_to_session@.contains_key(p)
            && post.pid_to_session@[p] == pre.pid_to_session@[p],
        u != q.uid && pre.users@.contains_key(u) ==> post.users@.contains_key(u) && post.users@[u]
            == pre.users@[u],
{
    let uid = q.uid;
    let l = texts(post.users@[uid].sessions@);
    assert(l.len() == post.users@[uid].sessions@.len());
    if pre.users@.contains_key(uid) {
        assert(l == texts(pre.users@[uid].sessions@).push(c.id@));
    }
}

/// A request is refused just where it names a seat that is not there, and then
/// nothing changes.
pub proof fn session_is_refused_for_its_seat_alone(
    pre: LoginState,
    post: LoginState,
    q: SessionRequest,
    known: Option<(String, u32)>,
    now_usec: u64,
    now: Instant,
    r: Result<NewSession, BusError>,
)
    requires
        session_opened(pre, post, q, known, now_usec, now, r),
    ensures
        r is Err <==> q.seat_id@.len() > 0 && !pre.seats@.contains_key(q.seat_id@),
        r is Err ==> post == pre,
{
}

/// Sessions that are asked for with different types, neither of them empty,
/// have different types; so it is with classes, terminals and users.
pub proof fn different_requests_open_different_sessions(
    pre: LoginState,
    known: Option<(String, u32)>,
    now_usec: u64,
    now: Instant,
    q1: SessionRequest,
    post1: LoginState,
    c1: NewSession,
    q2: SessionRequest,
    post2: LoginState,
    c2: NewSession,
)
    requires
        session_opened(pre, post1, q1, known, now_usec, now, Ok(c1)),
        session_opened(pre, post2, q2, known, now_usec, now, Ok(c2)),
    ensures
        ({
            let s = post1.sessions@[c1.id@];
            let t = post2.sessions@[c2.id@];
            &&& q1.session_type@.len() > 0 && q2.session_type@.len() > 0 && q1.session_type@
                != q2.session_type@ ==> s.session_type@ != t.session_type@
            &&& q1.class@.len() > 0 && q2.class@.len() > 0 && q1.class@ != q2.class@ ==> s.class@
                != t.class@
            &&& q1.tty@ != q2.tty@ ==> opt_text(s.tty) != opt_text(t.tty)
            &&& q1.display@ != q2.display@ ==> opt_text(s.display) != opt_text(t.display)
            &&& q1.uid != q2.uid ==> s.uid != t.uid
            &&& q1.vtnr != q2.vtnr ==> s.vtnr != t.vtnr
            &&& q1.desktop@ != q2.desktop@ ==> s.desktop@ != t.desktop@
        }),
{
    opened_session_is_the_requested_one(pre, post1, q1, known, now_usec, now, c1);
    opened_session_is_the_requested_one(pre, post2, q2, known, now_usec, now, c2);
    if q1.tty@.len() == 0 && q2.tty@.len() == 0 {
        assert(q1.tty@ =~= q2.tty@);
    }
    if q1.display@.len() == 0 && q2.display@.len() == 0 {
        assert(q1.display@ =~= q2.display@);
    }
}

/// Where a session opens in the foreground of a seat, the devices of that seat
/// go to its user; else no device changes hands.
pub proof fn opened_session_gets_the_devices(
    pre: LoginState,
    post: LoginState,
    q: SessionRequest,
    known: Option<(String, u32)>,
    now_usec: u64,
    now: Instant,
    c: NewSession,
)
    requires
        session_opened(pre, post, q, known, now_usec, now, Ok(c)),
    ensures
        match opt_text(post.sessions@[c.id@].seat) {
            Some(n) => if post.sessions@[c.id@].active {
                handings(c.acl@) == seq![Handing::Apply(n, q.uid)]
            } else {
                c.acl@.len() == 0
            },
            None => c.acl@.len() == 0,
        },
{
    assert(handings(c.acl@).len() == c.acl@.len());
}

/// Any session that is there can be brought to the foreground, and no other.
/// On a seat it is then the one in the foreground, and the one that was there
/// before no longer is. No other session changes, and no user, no process and
/// no other seat.
pub proof fn activated_session_is_in_the_foreground(
    pre: LoginState,
    post: LoginState,
    id: Seq<char>,
    r: Result<Vec<AclStep>, BusError>,
    k: Seq<char>,
)
    requires
        brought_forward(pre, post, id, r),
        consistent(pre),
    ensures
        r is Ok <==> pre.sessions@.contains_key(id),
        r is Err ==> post == pre,
        post.users@ == pre.users@,
        post.pid_to_session@ == pre.pid_to_session@,
        post.sessions@.contains_key(k) == pre.sessions@.contains_key(k),
        r is Ok ==> match opt_text(pre.sessions@[id].seat) {
            Some(n) => if pre.seats@.contains_key(n) {
                let old = opt_text(pre.seats@[n].active_session);
                &&& opt_text(post.seats@[n].active_session) == Some(id)
                &&& post.seats@[n].sessions == pre.seats@[n].sessions
                &&& post.sessions@[id].active && post.sessions@[id].state == SessionState::Active
                &&& k != id && old == Some(k) ==> !post.sessions@[k].active
                    && post.sessions@[k].state == SessionState::Online
                &&& k != id && old != Some(k) && pre.sessions@.contains_key(k)
                    ==> post.sessions@[k] == pre.sessions@[k]
                &&& k != n && pre.seats@.contains_key(k) ==> post.seats@[k] == pre.seats@[k]
            } else {
                post.sessions@[id].active
            },
            None => post.sessions@ == pre.sessions@ && post.seats@ == pre.seats@,
        },
{
    if r is Ok {
        if let Some(n) = opt_text(pre.sessions@[id].seat) {
            if pre.seats@.contains_key(n) {
                assert(seat_ok(pre, n));
            }
        }
    }
}

/// What bringing a session forward leaves to do with the devices of its seat:
/// they go to its user, after they were taken from the user who had them, where
/// that is another.
pub proof fn activation_hands_the_devices_over(
    pre: LoginState,
    post: LoginState,
    id: Seq<char>,
    v: Vec<AclStep>,
)
    requires
        brought_forward(pre, post, id, Ok(v)),
        consistent(pre),
    ensures
        match opt_text(pre.sessions@[id].seat) {
            None => v@.len() == 0,
            Some(n) => {
                let old = if pre.seats@.contains_key(n) {
                    opt_text(pre.seats@[n].active_session)
                } else {
                    None
                };
                let uid = pre.sessions@[id].uid;
                if old is Some && old->0 != id && pre.sessions@[old->0].uid != uid {
                    handings(v@) == seq![Handing::Revert(n), Handing::Apply(n, uid)]
                } else {
                    handings(v@) == seq![Handing::Apply(n, uid)]
                }
            },
        },
{
    assert(handings(v@).len() == v@.len());
    if let Some(n) = opt_text(pre.sessions@[id].seat) {
        let uid = pre.sessions@[id].uid;
        if pre.seats@.contains_key(n) {
            assert(seat_ok(pre, n));
            if let Some(a) = opt_text(pre.seats@[n].active_session) {
                assert(pre.sessions@.contains_key(a));
            }
        }
        assert(Seq::<Handing>::empty().push(Handing::Apply(n, uid)) =~= seq![
            Handing::Apply(n, uid),
        ]);
        assert(seq![Handing::Revert(n)].push(Handing::Apply(n, uid)) =~= seq![
            Handing::Revert(n),
            Handing::Apply(n, uid),
        ]);
    }
}

/// A request that names a seat is carried out just where the session is there
/// and on that seat, and then as one that names none.
pub proof fn activation_on_a_seat_asks_for_that_seat(
    pre: LoginState,
    post: LoginState,
    id: Seq<char>,
    seat: Seq<char>,
    r: Result<Vec<AclStep>, BusError>,
)
    requires
        brought_forward_on(pre, post, id, seat, r),
    ensures
        r is Ok <==> pre.sessions@.contains_key(id) && opt_text(pre.sessions@[id].seat) == Some(
            seat,
        ),
        r is Ok ==> brought_forward(pre, post, id, r),
        r is Err ==> post == pre,
{
}

/// A session that is given up is gone, and any session that is there can be
/// given up. Its leader is told. Where it was in the foreground, the first of
/// those left on its seat comes there. All other sessions stay as they are.
pub proof fn session_that_is_given_up_is_gone(
    pre: LoginState,
    post: LoginState,
    id: Seq<char>,
    r: Result<Removal, BusError>,
    k: Seq<char>,
)
    requires
        given_up_by_client(pre, post, id, r),
        consistent(pre),
    ensures
        r is Ok <==> pre.sessions@.contains_key(id),
        r is Err ==> post == pre,
        !post.sessions@.contains_key(id),
        k != id ==> post.sessions@.contains_key(k) == pre.sessions@.contains_key(k),
        r matches Ok(m) ==> {
            let s = pre.sessions@[id];
            &&& m.session_id@ == id
            &&& m.uid == s.uid
            &&& m.leader_pid == s.leader_pid
            &&& k != id && pre.sessions@.contains_key(k) && !(s.active && pre.sessions@[k].seat
                is Some && opt_text(pre.sessions@[k].seat) == opt_text(s.seat))
                ==> post.sessions@[k] == pre.sessions@[k]
            &&& opt_text(s.seat) matches Some(n) ==> pre.seats@.contains_key(n) ==> {
                let left = without(texts(pre.seats@[n].sessions@), id);
                &&& texts(post.seats@[n].sessions@) == left
                &&& s.active && left.len() > 0 ==> opt_text(post.seats@[n].active_session) == Some(
                    left[0],
                ) && post.sessions@[left[0]].active
                &&& s.active && left.len() == 0 ==> post.seats@[n].active_session is None
                &&& !s.active ==> opt_text(post.seats@[n].active_session) == opt_text(
                    pre.seats@[n].active_session,
                )
            }
        },
{
    if r is Ok {
        let s = pre.sessions@[id];
        assert(session_ok(pre, id));
        if let Some(n) = opt_text(s.seat) {
            if pre.seats@.contains_key(n) {
                assert(seat_ok(pre, n));
                let o = texts(pre.seats@[n].sessions@);
                lemma_without(o, id);
                let left = without(o, id);
                if left.len() > 0 {
                    assert(left.contains(left[0]));
                    assert(pre.sessions@.contains_key(left[0]));
                }
            }
        }
    }
}

/// A user whose last session is given up is gone, and the directory of that
/// user is to be removed after the time that is set for it. A user with others
/// left stays, without that session.
pub proof fn user_goes_with_the_last_session(
    pre: LoginState,
    post: LoginState,
    id: Seq<char>,
    m: Removal,
)
    requires
        given_up_by_client(pre, post, id, Ok(m)),
        consistent(pre),
    ensures
        ({
            let uid = pre.sessions@[id].uid;
            let list = texts(pre.users@[uid].sessions@);
            let last = forall|x: Seq<char>| #[trigger] list.contains(x) ==> x == id;
            &&& last ==> !post.users@.contains_key(uid)
            &&& last ==> m.cleanup_after == Some(pre.config.user_stop_delay)
                && post.pending_user_cleanups@.contains_key(uid)
            &&& !last ==> post.users@.contains_key(uid) && m.cleanup_after is None && forall|
                x: Seq<char>,
            | #[trigger]
                texts(post.users@[uid].sessions@).contains(x) <==> list.contains(x) && x != id
        }),
{
    let uid = pre.sessions@[id].uid;
    assert(session_ok(pre, id));
    let list = texts(pre.users@[uid].sessions@);
    let left = without(list, id);
    lemma_without(list, id);
    if left.len() > 0 {
        assert(left.contains(left[0]));
    } else {
        assert forall|x: Seq<char>| #[trigger] list.contains(x) implies x == id by {
            if x != id {
                assert(left.contains(x));
            }
        }
    }
}

/// A client gets the control of a session just where the session is there and
/// nobody has it, or it comes by force; it is then the controller. No other
/// session changes.
pub proof fn control_goes_to_who_asks(
    pre: LoginState,
    post: LoginState,
    id: Seq<char>,
    force: bool,
    sender: Option<Seq<char>>,
    r: Result<(), BusError>,
    k: Seq<char>,
)
    requires
        control_asked(pre, post, id, force, sender, r),
    ensures
        r is Ok <==> pre.sessions@.contains_key(id) && (force || pre.sessions@[id].controller
            is None),
        r is Err ==> post == pre,
        r is Ok && sender is Some ==> opt_text(post.sessions@[id].controller) == sender,
        r is Ok ==> post.sessions@[id].controller is Some,
        r is Ok ==> post.sessions@[id].devices == pre.sessions@[id].devices,
        k != id ==> post.sessions@.contains_key(k) == pre.sessions@.contains_key(k)
            && post.sessions@[k] == pre.sessions@[k],
{
}

/// The control of any session that is there can be given up; nobody has it then,
/// and no device of the session is open.
pub proof fn control_that_is_given_up_is_gone(
    pre: LoginState,
    post: LoginState,
    id: Seq<char>,
    r: Result<(), BusError>,
    k: Seq<char>,
)
    requires
        control_given_up(pre, post, id, r),
    ensures
        r is Ok <==> pre.sessions@.contains_key(id),
        r is Err ==> post == pre,
        r is Ok ==> post.sessions@[id].controller is None && post.sessions@[id].devices@.len() == 0,
        k != id ==> post.sessions@.contains_key(k) == pre.sessions@.contains_key(k)
            && post.sessions@[k] == pre.sessions@[k],
{
}

/// A session gets a device just where it is there, has a controller and has not
/// got it yet. It is then told whether it is in the background, and it becomes
/// the master of a graphics card, which has the major number 226, just where it
/// is in the foreground.
pub proof fn device_goes_to_a_controlled_session(
    pre: LoginState,
    post: LoginState,
    id: Seq<char>,
    major: u32,
    minor: u32,
    r: Result<DeviceGrant, BusError>,
    k: Seq<char>,
    d: (u32, u32),
)
    requires
        device_asked(pre, post, id, major, minor, r),
    ensures
        r is Ok <==> pre.sessions@.contains_key(id) && pre.sessions@[id].controller is Some
            && !pre.sessions@[id].devices@.contains((major, minor)),
        r is Err ==> post == pre,
        r matches Ok(g) ==> {
            let s = pre.sessions@[id];
            &&& g.inactive <==> !s.active
            &&& g.set_master <==> s.active && major == 226
            &&& post.sessions@[id].devices@.contains(d) <==> s.devices@.contains(d) || d == (
                major,
                minor,
            )
            &&& post.sessions@[id] == (Session { devices: post.sessions@[id].devices, ..s })
        },
        k != id ==> post.sessions@.contains_key(k) == pre.sessions@.contains_key(k)
            && post.sessions@[k] == pre.sessions@[k],
{
    if r is Ok {
        vstd::seq_lib::lemma_seq_contains_after_push(
            pre.sessions@[id].devices@,
            (major, minor),
            d,
        );
    }
}

/// What is answered before a device is opened is what is answered after it was.
pub proof fn device_is_checked_as_it_is_taken(
    pre: LoginState,
    post: LoginState,
    id: Seq<char>,
    major: u32,
    minor: u32,
    before: Result<DeviceGrant, BusError>,
    after: Result<DeviceGrant, BusError>,
)
    requires
        device_checked(pre, id, major, minor, before),
        device_asked(pre, post, id, major, minor, after),
    ensures
        before is Ok <==> after is Ok,
        before is Ok ==> before->Ok_0 == after->Ok_0,
        before is Ok <==> pre.sessions@.contains_key(id) && pre.sessions@[id].controller is Some
            && !pre.sessions@[id].devices@.contains((major, minor)),
{
}

/// A session gives a device back just where it has got it, and has it then no
/// longer, while it keeps all others.
pub proof fn device_that_is_given_back_is_gone(
    pre: LoginState,
    post: LoginState,
    id: Seq<char>,
    major: u32,
    minor: u32,
    r: Result<(), BusError>,
    d: (u32, u32),
    k: Seq<char>,
)
    requires
        device_given_back(pre, post, id, major, minor, r),
        pre.sessions@.contains_key(id) ==> pre.sessions@[id].devices@.no_duplicates(),
    ensures
        r is Ok <==> pre.sessions@.contains_key(id) && pre.sessions@[id].devices@.contains(
            (major, minor),
        ),
        r is Err ==> post == pre,
        r is Ok ==> (post.sessions@[id].devices@.contains(d) <==> pre.sessions@[id].devices@.contains(
            d,
        ) && d != (major, minor)),
        k != id ==> post.sessions@.contains_key(k) == pre.sessions@.contains_key(k)
            && post.sessions@[k] == pre.sessions@[k],
{
    if r is Ok {
        let a = pre.sessions@[id].devices@;
        let b = post.sessions@[id].devices@;
        let i = choose|i: int|
            0 <= i < a.len() && a[i] == (major, minor) && b == #[trigger] a.remove(i);
        if b.contains(d) {
            let j = choose|j: int| 0 <= j < b.len() && b[j] == d;
            if j < i {
                assert(a[j] == d);
            } else {
                assert(a[j + 1] == d);
            }
        }
        if a.contains(d) && d != (major, minor) {
            let j = choose|j: int| 0 <= j < a.len() && a[j] == d;
            if j < i {
                assert(b[j] == d);
            } else {
                assert(b[j - 1] == d);
            }
        }
    }
}

/// The type of a session changes to the one that is asked for, where it is one
/// of the five that there are and the session is there, and nothing else does.
pub proof fn type_becomes_the_one_asked_for(
    pre: LoginState,
    post: LoginState,
    id: Seq<char>,
    kind: Seq<char>,
    r: Result<(), BusError>,
    k: Seq<char>,
)
    requires
        type_set(pre, post, id, kind, r),
    ensures
        r is Ok <==> pre.sessions@.contains_key(id) && (kind == "tty"@ || kind == "x11"@ || kind
            == "wayland"@ || kind == "mir"@ || kind == "unspecified"@),
        r is Err ==> post == pre,
        r is Ok ==> post.sessions@[id].session_type@ == kind && post.sessions@[id] == (Session {
            session_type: post.sessions@[id].session_type,
            ..pre.sessions@[id]
        }),
        k != id ==> post.sessions@.contains_key(k) == pre.sessions@.contains_key(k)
            && post.sessions@[k] == pre.sessions@[k],
{
}

/// A session is idle from the moment that it says so, until it says that it is
/// not.
pub proof fn idle_hint_is_kept(
    pre: LoginState,
    post: LoginState,
    id: Seq<char>,
    idle: bool,
    now_usec: u64,
    r: Result<(), BusError>,
)
    requires
        idle_hint_set(pre, post, id, idle, now_usec, r),
    ensures
        r is Ok <==> pre.sessions@.contains_key(id),
        r is Err ==> post == pre,
        r is Ok ==> post.sessions@[id].idle_hint == idle,
        r is Ok && idle ==> post.sessions@[id].idle_since_usec == now_usec,
        r is Ok && !idle ==> post.sessions@[id].idle_since_usec == 0,
{
}

/// A lock that is taken comes last, says what was asked for, and has a number
/// that no later one has; the locks before it stay.
pub proof fn lock_says_what_was_asked_for(
    pre: LoginState,
    post: LoginState,
    what: Seq<char>,
    who: Seq<char>,
    why: Seq<char>,
    mode: Seq<char>,
    uid: u32,
    pid: u32,
    r: u64,
    i: int,
)
    requires
        lock_taken(pre, post, what, who, why, mode, uid, pid, r),
    ensures
        post.inhibitors@.len() == pre.inhibitors@.len() + 1,
        0 <= i < pre.inhibitors@.len() ==> post.inhibitors@[i] == pre.inhibitors@[i],
        ({
            let l = post.inhibitors@[pre.inhibitors@.len() as int];
            &&& l.what@ == what
            &&& l.who@ == who
            &&& l.why@ == why
            &&& l.mode@ == mode
            &&& l.uid == uid
            &&& l.pid == pid
            &&& l.cookie == r
        }),
        r == pre.counters.next_cookie,
        r < u64::MAX ==> post.counters.next_cookie == r + 1,
        post.sessions == pre.sessions,
        post.seats == pre.seats,
        post.users == pre.users,
{
    if 0 <= i < pre.inhibitors@.len() {
        assert(post.inhibitors@.drop_last()[i] == post.inhibitors@[i]);
    }
}

/// The list of the locks holds each that was not given up, with all that it
/// says, and no other.
pub proof fn locks_are_listed_as_they_are(
    pre: LoginState,
    post: LoginState,
    released: Seq<u64>,
    r: Seq<(String, String, String, String, u32, u32)>,
    x: Inhibitor,
    i: int,
)
    requires
        locks_listed(pre, post, released, r),
    ensures
        post.inhibitors@.contains(x) <==> pre.inhibitors@.contains(x) && !released.contains(
            x.cookie,
        ),
        r.len() == post.inhibitors@.len(),
        0 <= i < r.len() ==> {
            let l = post.inhibitors@[i];
            &&& r[i].0@ == l.what@
            &&& r[i].1@ == l.who@
            &&& r[i].2@ == l.why@
            &&& r[i].3@ == l.mode@
            &&& r[i].4 == l.uid
            &&& r[i].5 == l.pid
        },
{
    held_locks_were_held(pre.inhibitors@, released, x);
}

/// The directory of a user is to be removed just where the user has not come
/// back, and is then no longer pending.
pub proof fn directory_goes_unless_the_user_came_back(
    pre: LoginState,
    post: LoginState,
    uid: u32,
    r: bool,
    u: u32,
)
    requires
        cleanup_looked_at(pre, post, uid, r),
    ensures
        r <==> !pre.users@.contains_key(uid),
        r ==> !post.pending_user_cleanups@.contains_key(uid),
        u != uid || !r ==> post.pending_user_cleanups@.contains_key(u)
            == pre.pending_user_cleanups@.contains_key(u),
        post.users == pre.users,
        post.sessions == pre.sessions,
{
}

/// The sessions are listed each once: its name, its user, its seat, and its
/// object, which no other session has.
pub proof fn every_session_is_listed_once(
    st: LoginState,
    r: Result<Vec<(String, u32, String, String, String)>, BusError>,
    k: Seq<char>,
    i: int,
)
    requires
        st.wf(),
        consistent(st),
        sessions_listed(st, r),
    ensures
        r is Ok,
        st.sessions@.contains_key(k) ==> exists|j: int|
            0 <= j < r->Ok_0@.len() && (#[trigger] r->Ok_0@[j]).0@ == k,
        0 <= i < r->Ok_0@.len() ==> {
            let e = r->Ok_0@[i];
            let s = st.sessions@[e.0@];
            &&& st.sessions@.contains_key(e.0@)
            &&& e.1 == s.uid
            &&& e.2@ == s.user_name@
            &&& s.seat matches Some(q) ==> e.3@ == q@
            &&& s.seat is None ==> e.3@.len() == 0
            &&& e.4@ == session_at(e.0@)
        },
{
    st.sessions.lemma_order();
    let keys = st.sessions.order();
    let v = r->Ok_0@;
    if st.sessions@.contains_key(k) {
        assert(keys.contains(k));
        let j = choose|j: int| 0 <= j < keys.len() && keys[j] == k;
        assert(session_ok(st, k));
        assert(v[j].0@ == k);
    }
    if 0 <= i < v.len() {
        assert(st.sessions@.contains_key(keys[i]));
        assert(session_ok(st, keys[i]));
        assert(v[i].0@ == keys[i]);
    }
}

/// A question for an object is answered just where it is there, and with the
/// object of what was asked for.
pub proof fn objects_are_found_where_they_are(
    st: LoginState,
    id: Seq<char>,
    seat: Seq<char>,
    pid: u32,
    uid: u32,
    a: Result<String, BusError>,
    b: Result<String, BusError>,
    c: Result<String, BusError>,
    d: Result<String, BusError>,
)
    requires
        session_found(st, id, a),
        seat_found(st, seat, b),
        leader_found(st, pid, c),
        user_found(st, uid, d),
    ensures
        a is Ok <==> st.sessions@.contains_key(id),
        a is Ok ==> a->Ok_0@ == session_at(id),
        b is Ok <==> st.seats@.contains_key(seat),
        b is Ok ==> b->Ok_0@ == seat_at(seat),
        c is Ok <==> st.pid_to_session@.contains_key(pid),
        c is Ok ==> c->Ok_0@ == session_at(st.pid_to_session@[pid]@),
        d is Ok <==> st.users@.contains_key(uid),
        d is Ok ==> d->Ok_0@ == user_at(uid),
{
}

/// Ending all sessions of a user, or on a seat, leaves none of them.
pub proof fn ended_sessions_are_gone(
    pre: LoginState,
    post: LoginState,
    uid: u32,
    leaders: Seq<u32>,
    rs: Seq<Option<Removal>>,
    x: Seq<char>,
)
    requires
        user_ended(pre, post, uid, leaders, rs),
        consistent(pre),
        pre.sessions@.contains_key(x),
        pre.sessions@[x].uid == uid,
    ensures
        !post.sessions@.contains_key(x),
        leaders.contains(pre.sessions@[x].leader_pid),
{
    assert(session_ok(pre, x));
    let ids = texts(pre.users@[uid].sessions@);
    assert(ids.contains(x));
    let i = choose|i: int| 0 <= i < ids.len() && ids[i] == x;
    assert(!post.sessions@.contains_key(ids[i]));
    lemma_leader_listed(pre, ids, i);
}

proof fn lemma_leader_listed(st: LoginState, ids: Seq<Seq<char>>, i: int)
    requires
        0 <= i < ids.len(),
        st.sessions@.contains_key(ids[i]),
    ensures
        leaders_of(st.sessions@, ids).contains(st.sessions@[ids[i]].leader_pid),
    decreases ids.len(),
{
    let front = ids.drop_last();
    let v = leaders_of(st.sessions@, ids);
    let p = st.sessions@[ids[i]].leader_pid;
    if i < front.len() {
        assert(front[i] == ids[i]);
        lemma_leader_listed(st, front, i);
        let w = leaders_of(st.sessions@, front);
        let k = choose|k: int| 0 <= k < w.len() && w[k] == p;
        assert(v[k] == p);
    } else {
        assert(v.last() == p);
    }
}

/// A signal that is sent to a user reaches the leader of each of the user's
/// sessions, where its number is one from 1 to 31.
pub proof fn signal_reaches_every_leader(
    st: LoginState,
    uid: u32,
    signal: i32,
    r: Result<Vec<u32>, BusError>,
    x: Seq<char>,
)
    requires
        signal_sent(st, uid, signal, r),
        consistent(st),
    ensures
        r is Ok <==> 1 <= signal <= 31,
        r is Ok && st.sessions@.contains_key(x) && st.sessions@[x].uid == uid
            ==> r->Ok_0@.contains(st.sessions@[x].leader_pid),
{
    if r is Ok && st.sessions@.contains_key(x) && st.sessions@[x].uid == uid {
        assert(session_ok(st, x));
        let ids = texts(st.users@[uid].sessions@);
        let i = choose|i: int| 0 <= i < ids.len() && ids[i] == x;
        lemma_leader_listed(st, ids, i);
    }
}

/// A seat brings forward just the sessions that are on it.
pub proof fn seat_brings_its_own_sessions_forward(
    pre: LoginState,
    post: LoginState,
    seat: Seq<char>,
    id: Seq<char>,
    r: Result<(), BusError>,
)
    requires
        activated_on(pre, post, seat, id, r),
        consistent(pre),
    ensures
        r is Ok <==> pre.seats@.contains_key(seat) && pre.sessions@.contains_key(id) && opt_text(
            pre.sessions@[id].seat,
        ) == Some(seat),
        r is Err ==> post == pre,
        r is Ok ==> opt_text(post.seats@[seat].active_session) == Some(id)
            && post.sessions@[id].active,
{
    if pre.seats@.contains_key(seat) {
        assert(seat_ok(pre, seat));
        if pre.sessions@.contains_key(id) {
            assert(session_ok(pre, id));
        }
    }
}

/// Ending all sessions on a seat, or all of a user without anything more, leaves
/// none of them; a seat that is not there is refused, and then nothing changes.
pub proof fn cleared_seats_and_users_have_no_session(
    pre: LoginState,
    a: LoginState,
    b: LoginState,
    c: LoginState,
    seat: Seq<char>,
    ended: Result<Vec<Option<Removal>>, BusError>,
    cleared: Result<Vec<u32>, BusError>,
    uid: u32,
    leaders: Seq<u32>,
    x: Seq<char>,
)
    requires
        seat_ended(pre, a, seat, ended),
        seat_cleared(pre, b, seat, cleared),
        sessions_ended(pre, c, uid, leaders),
        consistent(pre),
        pre.sessions@.contains_key(x),
    ensures
        ended is Ok <==> pre.seats@.contains_key(seat),
        cleared is Ok <==> pre.seats@.contains_key(seat),
        ended is Err ==> a == pre,
        cleared is Err ==> b == pre,
        pre.seats@.contains_key(seat) && opt_text(pre.sessions@[x].seat) == Some(seat)
            ==> !a.sessions@.contains_key(x) && !b.sessions@.contains_key(x),
        pre.sessions@[x].uid == uid ==> !c.sessions@.contains_key(x) && leaders.contains(
            pre.sessions@[x].leader_pid,
        ),
{
    assert(session_ok(pre, x));
    if pre.seats@.contains_key(seat) && opt_text(pre.sessions@[x].seat) == Some(seat) {
        let ids = texts(pre.seats@[seat].sessions@);
        let i = choose|i: int| 0 <= i < ids.len() && ids[i] == x;
        assert(!a.sessions@.contains_key(ids[i]));
        assert(!b.sessions@.contains_key(ids[i]));
    }
    if pre.sessions@[x].uid == uid {
        let ids = texts(pre.users@[uid].sessions@);
        let i = choose|i: int| 0 <= i < ids.len() && ids[i] == x;
        assert(!c.sessions@.contains_key(ids[i]));
        lemma_leader_listed(pre, ids, i);
    }
}

/// The seats and the users are listed each once, with their objects; a user with
/// the number and the name.
pub proof fn every_seat_and_user_is_listed_once(
    st: LoginState,
    a: Result<Vec<(String, String)>, BusError>,
    b: Result<Vec<(u32, String, String)>, BusError>,
    q: Seq<char>,
    u: u32,
    i: int,
)
    requires
        st.wf(),
        consistent(st),
        seats_listed(st, a),
        users_listed(st, b),
    ensures
        a is Ok,
        b is Ok,
        st.seats@.contains_key(q) ==> exists|j: int|
            0 <= j < a->Ok_0@.len() && (#[trigger] a->Ok_0@[j]).0@ == q,
        0 <= i < a->Ok_0@.len() ==> st.seats@.contains_key(a->Ok_0@[i].0@) && a->Ok_0@[i].1@
            == seat_at(a->Ok_0@[i].0@),
        st.users@.contains_key(u) ==> exists|j: int|
            0 <= j < b->Ok_0@.len() && (#[trigger] b->Ok_0@[j]).0 == u,
        0 <= i < b->Ok_0@.len() ==> {
            let e = b->Ok_0@[i];
            &&& st.users@.contains_key(e.0)
            &&& e.1@ == st.users@[e.0].name@
            &&& e.2@ == user_at(e.0)
        },
{
    st.seats.lemma_order();
    st.users.lemma_order();
    let sk = st.seats.order();
    let uk = st.users.order();
    let v = a->Ok_0@;
    let w = b->Ok_0@;
    if st.seats@.contains_key(q) {
        assert(sk.contains(q));
        let j = choose|j: int| 0 <= j < sk.len() && sk[j] == q;
        assert(seat_ok(st, q));
        assert(v[j].0@ == q);
    }
    if 0 <= i < v.len() {
        assert(st.seats@.contains_key(sk[i]));
        assert(seat_ok(st, sk[i]));
        assert(v[i].0@ == sk[i]);
    }
    if st.users@.contains_key(u) {
        assert(uk.contains(u));
        let j = choose|j: int| 0 <= j < uk.len() && uk[j] == u;
        assert(user_ok(st, u));
        assert(w[j].0 == u);
    }
    if 0 <= i < w.len() {
        assert(st.users@.contains_key(uk[i]));
        assert(user_ok(st, uk[i]));
        assert(w[i].0 == uk[i]);
    }
}

} // verus!
