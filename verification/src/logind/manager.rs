//! What the login manager does on request.

use crate::bus::{
    escape_fully, escape_lightly, fully_escaped, lightly_escaped, object_path,
    object_paths_are_valid, valid_object_path, BusError, SEAT_BASE, SESSION_BASE, USER_BASE,
};
use crate::logind::inhibitor::create_inhibitor;
use crate::logind::power::{drop_released, still_held};
use crate::logind::runtime_dir::{path_for, runtime_path};
use crate::logind::state::{
    displaced, next_inhibitor_cookie, promoted, session_activated, session_added, session_removed,
    LoginState, SeatId, SessionId,
};
use crate::text::num::{dec, u64_text};
use crate::text::{cat, cat3, chars_of, clone_opt, opt_text, owned, str_eq};
use crate::time::{Duration, Instant};
use vstd::prelude::*;

verus! {

/// The object of a session.
pub open spec fn session_at(id: Seq<char>) -> Seq<char> {
    SESSION_BASE@ + fully_escaped(id)
}

/// The object of a seat.
pub open spec fn seat_at(id: Seq<char>) -> Seq<char> {
    SEAT_BASE@ + lightly_escaped(id)
}

/// The object of a user.
pub open spec fn user_at(uid: u32) -> Seq<char> {
    USER_BASE@ + fully_escaped(dec(uid as nat))
}

/// A name in which every byte stands as an underscore and two hexadecimal
/// digits.
pub fn systemd_escape(s: &str) -> (r: String)
    ensures
        r@ == fully_escaped(s@),
{
    escape_fully(s)
}

/// A name in which every byte but letters, digits and underscores stands as
/// an underscore and two hexadecimal digits.
pub fn escape_object_path_component(s: &str) -> (r: String)
    ensures
        r@ == lightly_escaped(s@),
{
    escape_lightly(s)
}

/// The path of the object of a session.
pub fn session_object_path(id: &str) -> (r: String)
    ensures
        r@ == session_at(id@),
        valid_object_path(r@),
{
    proof {
        object_paths_are_valid(id@);
    }
    let e = escape_fully(id);
    cat(SESSION_BASE, e.as_str())
}

/// The path of the object of a seat.
pub fn seat_object_path(id: &str) -> (r: String)
    ensures
        r@ == seat_at(id@),
        valid_object_path(r@),
{
    proof {
        object_paths_are_valid(id@);
    }
    let e = escape_lightly(id);
    cat(SEAT_BASE, e.as_str())
}

/// The path of the object of a user.
pub fn user_object_path(uid: u32) -> (r: String)
    ensures
        r@ == user_at(uid),
        valid_object_path(r@),
{
    proof {
        object_paths_are_valid(dec(uid as nat));
    }
    let n = u64_text(uid as u64);
    let e = escape_fully(n.as_str());
    cat(USER_BASE, e.as_str())
}

/// The path of the object of a session.
pub fn session_path(id: &str) -> (r: String)
    ensures
        r@ == session_at(id@),
        valid_object_path(r@),
{
    session_object_path(id)
}

/// The path of the object of a seat.
pub fn seat_path(id: &str) -> (r: String)
    ensures
        r@ == seat_at(id@),
        valid_object_path(r@),
{
    seat_object_path(id)
}

/// The path of the object of a user.
pub fn user_path(uid: u32) -> (r: String)
    ensures
        r@ == user_at(uid),
        valid_object_path(r@),
{
    user_object_path(uid)
}

/// Different sessions have different objects.
pub proof fn session_objects_are_distinct(a: Seq<char>, b: Seq<char>)
    requires
        session_at(a) == session_at(b),
    ensures
        a == b,
{
    let base = SESSION_BASE@;
    assert(session_at(a).skip(base.len() as int) =~= fully_escaped(a));
    assert(session_at(b).skip(base.len() as int) =~= fully_escaped(b));
    crate::bus::full_escape_is_injective(a, b);
}

/// Different users have different objects.
pub proof fn user_objects_are_distinct(a: u32, b: u32)
    requires
        user_at(a) == user_at(b),
    ensures
        a == b,
{
    let base = USER_BASE@;
    assert(user_at(a).skip(base.len() as int) =~= fully_escaped(dec(a as nat)));
    assert(user_at(b).skip(base.len() as int) =~= fully_escaped(dec(b as nat)));
    crate::bus::full_escape_is_injective(dec(a as nat), dec(b as nat));
    crate::text::num::lemma_dec_injective(a as nat, b as nat);
}

/// The answer where there is no session of that name.
pub open spec fn no_session(id: Seq<char>) -> Seq<char> {
    "no session '"@ + id + "'"@
}

/// The answer where there is no seat of that name.
pub open spec fn no_seat(id: Seq<char>) -> Seq<char> {
    "no seat '"@ + id + "'"@
}

fn session_missing(id: &str) -> (r: BusError)
    ensures
        r.failed_with(no_session(id@)),
{
    BusError::Failed(cat3("no session '", id, "'"))
}

fn seat_missing(id: &str) -> (r: BusError)
    ensures
        r.failed_with(no_seat(id@)),
{
    BusError::Failed(cat3("no seat '", id, "'"))
}

/// What a question for the object of a session is answered.
pub open spec fn session_found(
    st: LoginState,
    id: Seq<char>,
    r: Result<String, BusError>,
) -> bool {
    match r {
        Ok(p) => st.sessions@.contains_key(id) && p@ == session_at(id),
        Err(e) => !st.sessions@.contains_key(id) && e.failed_with(
            no_session(id),
        ),
    }
}

/// The object of a session.
pub fn get_session(st: &LoginState, session_id: &str) -> (r: Result<String, BusError>)
    requires
        st.wf(),
    ensures
        session_found(*st, session_id@, r),
{
    if st.sessions.contains_key(session_id) {
        object_path(session_object_path(session_id))
    } else {
        Err(session_missing(session_id))
    }
}

/// What a question for the session of a process is answered.
pub open spec fn leader_found(
    st: LoginState,
    pid: u32,
    r: Result<String, BusError>,
) -> bool {
    match r {
        Ok(p) => st.pid_to_session@.contains_key(pid) && p@ == session_at(
            st.pid_to_session@[pid]@,
        ),
        Err(e) => !st.pid_to_session@.contains_key(pid) && e.failed_with(
            "no session for PID "@ + dec(pid as nat),
        ),
    }
}

/// The object of the session that a process leads.
pub fn get_session_by_pid(st: &LoginState, pid: u32) -> (r: Result<String, BusError>)
    ensures
        leader_found(*st, pid, r),
{
    match st.session_for_pid(pid) {
        Some(id) => object_path(session_object_path(id)),
        None => {
            let n = u64_text(pid as u64);
            Err(BusError::Failed(cat("no session for PID ", n.as_str())))
        },
    }
}

/// What a question for the object of a seat is answered.
pub open spec fn seat_found(
    st: LoginState,
    id: Seq<char>,
    r: Result<String, BusError>,
) -> bool {
    match r {
        Ok(p) => st.seats@.contains_key(id) && p@ == seat_at(id),
        Err(e) => !st.seats@.contains_key(id) && e.failed_with(no_seat(id)),
    }
}

/// The object of a seat.
pub fn get_seat(st: &LoginState, seat_id: &str) -> (r: Result<String, BusError>)
    requires
        st.wf(),
    ensures
        seat_found(*st, seat_id@, r),
{
    if st.seats.contains_key(seat_id) {
        object_path(seat_object_path(seat_id))
    } else {
        Err(seat_missing(seat_id))
    }
}

/// What a question for the object of a user is answered.
pub open spec fn user_found(
    st: LoginState,
    uid: u32,
    r: Result<String, BusError>,
) -> bool {
    match r {
        Ok(p) => st.users@.contains_key(uid) && p@ == user_at(uid),
        Err(e) => !st.users@.contains_key(uid) && e.failed_with(
            "no user with UID "@ + dec(uid as nat),
        ),
    }
}

/// The object of a user.
pub fn get_user(st: &LoginState, uid: u32) -> (r: Result<String, BusError>)
    requires
        st.wf(),
    ensures
        user_found(*st, uid, r),
{
    if st.users.contains_key(uid) {
        object_path(user_object_path(uid))
    } else {
        let n = u64_text(uid as u64);
        Err(BusError::Failed(cat("no user with UID ", n.as_str())))
    }
}

/// The text, or nothing.
pub open spec fn or_empty(s: Option<Seq<char>>) -> Seq<char> {
    match s {
        Some(t) => t,
        None => Seq::empty(),
    }
}

/// The text, or nothing.
pub fn unwrap_or_empty(s: &Option<String>) -> (r: String)
    ensures
        r@ == or_empty(opt_text(*s)),
{
    match s {
        Some(t) => t.clone(),
        None => String::new(),
    }
}

/// What a question for all sessions is answered.
pub open spec fn sessions_listed(
    st: LoginState,
    r: Result<Vec<(String, u32, String, String, String)>, BusError>,
) -> bool {
    let keys = st.sessions.order();
    &&& r matches Ok(v)
    &&& v@.len() == keys.len()
    &&& forall|i: int|
        0 <= i < v@.len() ==> {
            let s = st.sessions@[keys[i]];
            &&& (#[trigger] v@[i]).0@ == s.id@
            &&& v@[i].1 == s.uid
            &&& v@[i].2@ == s.user_name@
            &&& v@[i].3@ == or_empty(opt_text(s.seat))
            &&& v@[i].4@ == session_at(s.id@)
        }
}

/// All sessions: the name, the number and name of the user, the seat and the
/// object.
pub fn list_sessions(st: &LoginState) -> (r: Result<
    Vec<(String, u32, String, String, String)>,
    BusError,
>)
    requires
        st.wf(),
    ensures
        sessions_listed(*st, r),
{
    let ghost keys = st.sessions.order();
    let mut v: Vec<(String, u32, String, String, String)> = Vec::new();
    let mut i: usize = 0;
    while i < st.sessions.len()
        invariant
            st.wf(),
            keys == st.sessions.order(),
            i <= keys.len(),
            v@.len() == i,
            forall|k: int|
                0 <= k < i ==> {
                    let s = st.sessions@[keys[k]];
                    &&& (#[trigger] v@[k]).0@ == s.id@
                    &&& v@[k].1 == s.uid
                    &&& v@[k].2@ == s.user_name@
                    &&& v@[k].3@ == or_empty(opt_text(s.seat))
                    &&& v@[k].4@ == session_at(s.id@)
                },
        decreases keys.len() - i,
    {
        let s = st.sessions.value_at(i);
        match object_path(session_object_path(s.id.as_str())) {
            Ok(p) => {
                v.push((s.id.clone(), s.uid, s.user_name.clone(), unwrap_or_empty(&s.seat), p));
            },
            Err(e) => {
                return Err(e);
            },
        }
        i += 1;
    }
    Ok(v)
}

/// What a question for all seats is answered.
pub open spec fn seats_listed(
    st: LoginState,
    r: Result<Vec<(String, String)>, BusError>,
) -> bool {
    let keys = st.seats.order();
    &&& r matches Ok(v)
    &&& v@.len() == keys.len()
    &&& forall|i: int|
        0 <= i < v@.len() ==> {
            let s = st.seats@[keys[i]];
            &&& (#[trigger] v@[i]).0@ == s.id@
            &&& v@[i].1@ == seat_at(s.id@)
        }
}

/// All seats: the name and the object.
pub fn list_seats(st: &LoginState) -> (r: Result<Vec<(String, String)>, BusError>)
    requires
        st.wf(),
    ensures
        seats_listed(*st, r),
{
    let ghost keys = st.seats.order();
    let mut v: Vec<(String, String)> = Vec::new();
    let mut i: usize = 0;
    while i < st.seats.len()
        invariant
            st.wf(),
            keys == st.seats.order(),
            i <= keys.len(),
            v@.len() == i,
            forall|k: int|
                0 <= k < i ==> {
                    let s = st.seats@[keys[k]];
                    &&& (#[trigger] v@[k]).0@ == s.id@
                    &&& v@[k].1@ == seat_at(s.id@)
                },
        decreases keys.len() - i,
    {
        let s = st.seats.value_at(i);
        match object_path(seat_object_path(s.id.as_str())) {
            Ok(p) => {
                v.push((s.id.clone(), p));
            },
            Err(e) => {
                return Err(e);
            },
        }
        i += 1;
    }
    Ok(v)
}

/// What a question for all users is answered.
pub open spec fn users_listed(
    st: LoginState,
    r: Result<Vec<(u32, String, String)>, BusError>,
) -> bool {
    let keys = st.users.order();
    &&& r matches Ok(v)
    &&& v@.len() == keys.len()
    &&& forall|i: int|
        0 <= i < v@.len() ==> {
            let u = st.users@[keys[i]];
            &&& (#[trigger] v@[i]).0 == u.uid
            &&& v@[i].1@ == u.name@
            &&& v@[i].2@ == user_at(u.uid)
        }
}

/// All users: the number, the name and the object.
pub fn list_users(st: &LoginState) -> (r: Result<Vec<(u32, String, String)>, BusError>)
    requires
        st.wf(),
    ensures
        users_listed(*st, r),
{
    let ghost keys = st.users.order();
    let mut v: Vec<(u32, String, String)> = Vec::new();
    let mut i: usize = 0;
    while i < st.users.len()
        invariant
            st.wf(),
            keys == st.users.order(),
            i <= keys.len(),
            v@.len() == i,
            forall|k: int|
                0 <= k < i ==> {
                    let u = st.users@[keys[k]];
                    &&& (#[trigger] v@[k]).0 == u.uid
                    &&& v@[k].1@ == u.name@
                    &&& v@[k].2@ == user_at(u.uid)
                },
        decreases keys.len() - i,
    {
        let u = st.users.value_at(i);
        match object_path(user_object_path(u.uid)) {
            Ok(p) => {
                v.push((u.uid, u.name.clone(), p));
            },
            Err(e) => {
                return Err(e);
            },
        }
        i += 1;
    }
    Ok(v)
}

/// The seat that a session is asked for: the first one where none is named,
/// and no seat where that is missing too.
pub open spec fn seat_for(st: LoginState, seat_id: Seq<char>) -> Option<Option<Seq<char>>> {
    if seat_id.len() == 0 {
        if st.seats@.contains_key("seat0"@) {
            Some(Some("seat0"@))
        } else {
            Some(None)
        }
    } else if st.seats@.contains_key(seat_id) {
        Some(Some(seat_id))
    } else {
        None
    }
}

fn choose_seat(st: &LoginState, seat_id: &str) -> (r: Result<Option<String>, BusError>)
    requires
        st.wf(),
    ensures
        match r {
            Ok(s) => seat_for(*st, seat_id@) == Some(opt_text(s)),
            Err(e) => seat_for(*st, seat_id@) is None && e.invalid_with(
                "seat '"@ + seat_id@ + "' does not exist"@,
            ),
        },
{
    let c = chars_of(seat_id);
    if c.len() == 0 {
        if st.seats.contains_key("seat0") {
            Ok(Some(owned("seat0")))
        } else {
            Ok(None)
        }
    } else if st.seats.contains_key(seat_id) {
        Ok(Some(owned(seat_id)))
    } else {
        Err(BusError::InvalidArgs(cat3("seat '", seat_id, "' does not exist")))
    }
}

/// The text, or another where it is empty.
pub open spec fn or_default(s: Seq<char>, d: Seq<char>) -> Seq<char> {
    if s.len() == 0 {
        d
    } else {
        s
    }
}

fn owned_or(s: &str, d: &str) -> (r: String)
    ensures
        r@ == or_default(s@, d@),
{
    let c = chars_of(s);
    if c.len() == 0 {
        owned(d)
    } else {
        owned(s)
    }
}

/// The text, unless it is empty.
pub open spec fn nonempty(s: Seq<char>) -> Option<Seq<char>> {
    if s.len() == 0 {
        None
    } else {
        Some(s)
    }
}

fn owned_nonempty(s: &str) -> (r: Option<String>)
    ensures
        opt_text(r) == nonempty(s@),
{
    let c = chars_of(s);
    if c.len() == 0 {
        None
    } else {
        Some(owned(s))
    }
}

/// What a client asks for when it opens a session.
#[derive(Debug, Clone, Copy)]
pub struct SessionRequest<'a> {
    pub uid: u32,
    pub pid: u32,
    pub service: &'a str,
    pub session_type: &'a str,
    pub class: &'a str,
    pub desktop: &'a str,
    pub seat_id: &'a str,
    pub vtnr: u32,
    pub tty: &'a str,
    pub display: &'a str,
    pub remote: bool,
    pub remote_user: &'a str,
    pub remote_host: &'a str,
}

/// A new session: what its client is told, and what is to be set up for it.
#[derive(Debug)]
pub struct NewSession {
    pub id: SessionId,
    pub object_path: String,
    pub runtime_path: String,
    pub seat: String,
    pub vtnr: u32,
    pub existing: bool,
    /// The group of the user, for the directory of the user.
    pub gid: u32,
    /// The size of that directory.
    pub runtime_size: String,
    /// What is done with the devices of the seat.
    pub acl: Vec<AclStep>,
    /// Whether the removal of the user's directory is to be called off.
    pub cancel_cleanup: bool,
}

/// A change of hands of the devices of a seat.
#[derive(Debug, Clone)]
pub enum AclStep {
    /// They go back to the system.
    Revert(SeatId),
    /// They go to a user.
    Apply(SeatId, u32),
}

/// A change of hands over text.
pub enum Handing {
    Revert(Seq<char>),
    Apply(Seq<char>, u32),
}

impl View for AclStep {
    type V = Handing;

    open spec fn view(&self) -> Handing {
        match self {
            AclStep::Revert(q) => Handing::Revert(q@),
            AclStep::Apply(q, u) => Handing::Apply(q@, *u),
        }
    }
}

/// Changes of hands over text.
pub open spec fn handings(v: Seq<AclStep>) -> Seq<Handing> {
    Seq::new(v.len(), |i: int| v[i]@)
}

/// The name under which a user is kept: `known`, or one made of the number.
pub open spec fn user_name_for(known: Option<(String, u32)>, uid: u32) -> Seq<char> {
    match known {
        Some((n, _)) => n@,
        None => "uid"@ + dec(uid as nat),
    }
}

/// The group of a user: `known`, or the number of the user.
pub open spec fn gid_for(known: Option<(String, u32)>, uid: u32) -> u32 {
    match known {
        Some((_, g)) => g,
        None => uid,
    }
}

/// Whether `s` is the session that was asked for.
pub open spec fn as_asked(
    s: crate::logind::state::Session,
    q: SessionRequest,
    known: Option<(String, u32)>,
    seat: Option<Seq<char>>,
    now_usec: u64,
    now: Instant,
) -> bool {
    &&& s.uid == q.uid
    &&& s.user_name@ == user_name_for(known, q.uid)
    &&& opt_text(s.seat) == seat
    &&& opt_text(s.tty) == nonempty(q.tty@)
    &&& opt_text(s.display) == nonempty(q.display@)
    &&& s.session_type@ == or_default(q.session_type@, "tty"@)
    &&& s.class@ == or_default(q.class@, "user"@)
    &&& s.desktop@ == q.desktop@
    &&& s.leader_pid == q.pid
    &&& s.vtnr == q.vtnr
    &&& s.remote == q.remote
    &&& s.remote_host@ == q.remote_host@
    &&& s.remote_user@ == q.remote_user@
    &&& s.service@ == q.service@
    &&& s.controller is None
    &&& s.devices@.len() == 0
    &&& !s.idle_hint
    &&& s.idle_since_usec == 0
    &&& s.idle_since_monotonic == 0
    &&& !s.locked_hint
    &&& s.created_realtime_usec == now_usec
    &&& s.created_monotonic == now
}

/// What becomes of the devices when a session is opened.
pub open spec fn opening_steps(seat: Option<Seq<char>>, front: bool, uid: u32) -> Seq<Handing> {
    match seat {
        Some(q) if front => seq![Handing::Apply(q, uid)],
        _ => Seq::empty(),
    }
}

/// What a request for a session does and is answered.
pub open spec fn session_opened(
    pre: LoginState,
    post: LoginState,
    q: SessionRequest,
    known: Option<(String, u32)>,
    now_usec: u64,
    now: Instant,
    r: Result<NewSession, BusError>,
) -> bool {
    match (r, seat_for(pre, q.seat_id@)) {
        (Ok(c), Some(seat)) => {
            let s = post.sessions@[c.id@];
            &&& c.id@ == dec(pre.counters.next_session as nat)
            &&& session_added(
                LoginState {
                    pending_user_cleanups: post.pending_user_cleanups,
                    ..pre
                },
                post,
                c.id@,
            )
            &&& post.pending_user_cleanups@ == pre.pending_user_cleanups@.remove(q.uid)
            &&& as_asked(s, q, known, seat, now_usec, now)
            &&& c.object_path@ == session_at(c.id@)
            &&& c.runtime_path@ == runtime_path(q.uid)
            &&& c.seat@ == or_empty(seat)
            &&& c.vtnr == q.vtnr
            &&& !c.existing
            &&& c.gid == gid_for(known, q.uid)
            &&& c.runtime_size@ == pre.config.runtime_directory_size@
            &&& handings(c.acl@) == opening_steps(seat, s.active, q.uid)
            &&& c.cancel_cleanup == pre.pending_user_cleanups@.contains_key(q.uid)
        },
        (Err(e), None) => post == pre && e.invalid_with(
            "seat '"@ + q.seat_id@ + "' does not exist"@,
        ),
        _ => false,
    }
}

/// Opens a session. `known` is the name and group that the system has for the
/// user.
pub fn create_session(
    st: &mut LoginState,
    q: SessionRequest,
    known: Option<(String, u32)>,
    now_usec: u64,
    now: Instant,
) -> (r: Result<NewSession, BusError>)
    requires
        old(st).wf(),
    ensures
        final(st).wf(),
        session_opened(*old(st), *final(st), q, known, now_usec, now, r),
{
    let seat = match choose_seat(st, q.seat_id) {
        Ok(s) => s,
        Err(e) => {
            return Err(e);
        },
    };
    let (user_name, gid) = match known {
        Some((n, g)) => (n, g),
        None => {
            let n = u64_text(q.uid as u64);
            (cat("uid", n.as_str()), q.uid)
        },
    };
    let cancel_cleanup = match st.pending_user_cleanups.remove(q.uid) {
        Some(_) => true,
        None => false,
    };
    let ghost mid = *st;
    assert(mid == (LoginState {
        pending_user_cleanups: mid.pending_user_cleanups,
        ..*old(st)
    }));
    let id = st.create_session(
        q.uid,
        user_name,
        q.pid,
        owned(q.service),
        owned_or(q.session_type, "tty"),
        owned_or(q.class, "user"),
        owned(q.desktop),
        clone_opt(&seat),
        q.vtnr,
        owned_nonempty(q.tty),
        owned_nonempty(q.display),
        q.remote,
        owned(q.remote_user),
        owned(q.remote_host),
        now_usec,
        now,
    );
    let active = match st.sessions.get(id.as_str()) {
        Some(s) => s.active,
        None => false,
    };
    let mut acl: Vec<AclStep> = Vec::new();
    if active {
        if let Some(s) = &seat {
            acl.push(AclStep::Apply(s.clone(), q.uid));
        }
    }
    assert(handings(acl@) =~= opening_steps(opt_text(seat), active, q.uid));
    match object_path(session_object_path(id.as_str())) {
        Ok(p) => Ok(
            NewSession {
                id,
                object_path: p,
                runtime_path: path_for(q.uid),
                seat: unwrap_or_empty(&seat),
                vtnr: q.vtnr,
                existing: false,
                gid,
                runtime_size: st.config.runtime_directory_size.clone(),
                acl,
                cancel_cleanup,
            },
        ),
        Err(e) => Err(e),
    }
}

/// What taking a lock does and is answered.
pub open spec fn lock_taken(
    pre: LoginState,
    post: LoginState,
    what: Seq<char>,
    who: Seq<char>,
    why: Seq<char>,
    mode: Seq<char>,
    uid: u32,
    pid: u32,
    r: u64,
) -> bool {
    &&& r == pre.counters.next_cookie
    &&& post.counters.next_cookie == (r + 1) % 0x1_0000_0000_0000_0000
    &&& post.counters.next_session == pre.counters.next_session
    &&& post == (LoginState {
            inhibitors: post.inhibitors,
            counters: post.counters,
            ..pre
        })
    &&& post.inhibitors@.len() == pre.inhibitors@.len() + 1
    &&& post.inhibitors@.drop_last() == pre.inhibitors@
    &&& ({
            let i = post.inhibitors@.last();
            &&& i.what@ == what
            &&& i.who@ == who
            &&& i.why@ == why
            &&& i.mode@ == mode
            &&& i.uid == uid
            &&& i.pid == pid
            &&& i.cookie == r
        })
}

/// Takes a lock for a client, and gives it its number.
pub fn inhibit(
    st: &mut LoginState,
    what: &str,
    who: &str,
    why: &str,
    mode: &str,
    uid: u32,
    pid: u32,
) -> (r: u64)
    requires
        old(st).wf(),
    ensures
        final(st).wf(),
        lock_taken(*old(st), *final(st), what@, who@, why@, mode@, uid, pid, r),
{
    let cookie = next_inhibitor_cookie(&mut st.counters);
    let lock = create_inhibitor(
        owned(what),
        owned(who),
        owned(why),
        owned(mode),
        uid,
        pid,
        cookie,
    );
    st.inhibitors.push(lock);
    assert(st.inhibitors@.drop_last() =~= old(st).inhibitors@);
    cookie
}

/// What listing the locks does and tells.
pub open spec fn locks_listed(
    pre: LoginState,
    post: LoginState,
    released: Seq<u64>,
    r: Seq<(String, String, String, String, u32, u32)>,
) -> bool {
    &&& post.inhibitors@ == still_held(pre.inhibitors@, released)
    &&& post == (LoginState { inhibitors: post.inhibitors, ..pre })
    &&& r.len() == post.inhibitors@.len()
    &&& forall|k: int|
    0 <= k < r.len() ==> {
        let i = post.inhibitors@[k];
        &&& (#[trigger] r[k]).0@ == i.what@
        &&& r[k].1@ == i.who@
        &&& r[k].2@ == i.why@
        &&& r[k].3@ == i.mode@
        &&& r[k].4 == i.uid
        &&& r[k].5 == i.pid
    }
}

/// All locks but those that were given up, which are forgotten: what is held
/// back, by whom, why and how, and the user and process of the holder.
pub fn list_inhibitors(st: &mut LoginState, released: &Vec<u64>) -> (r: Vec<
    (String, String, String, String, u32, u32),
>)
    requires
        old(st).wf(),
    ensures
        final(st).wf(),
        locks_listed(*old(st), *final(st), released@, r@),
{
    drop_released(&mut st.inhibitors, released);
    let mut r: Vec<(String, String, String, String, u32, u32)> = Vec::new();
    let mut k: usize = 0;
    while k < st.inhibitors.len()
        invariant
            k <= st.inhibitors.len(),
            r@.len() == k,
            forall|j: int|
                0 <= j < k ==> {
                    let i = st.inhibitors@[j];
                    &&& (#[trigger] r@[j]).0@ == i.what@
                    &&& r@[j].1@ == i.who@
                    &&& r@[j].2@ == i.why@
                    &&& r@[j].3@ == i.mode@
                    &&& r@[j].4 == i.uid
                    &&& r@[j].5 == i.pid
                },
        decreases st.inhibitors.len() - k,
    {
        let i = &st.inhibitors[k];
        r.push((i.what.clone(), i.who.clone(), i.why.clone(), i.mode.clone(), i.uid, i.pid));
        k += 1;
    }
    r
}

/// The user of the session in the foreground of a seat.
pub open spec fn front_uid(st: LoginState, q: Option<Seq<char>>) -> Option<u32> {
    match q {
        Some(q) if st.seats@.contains_key(q) => match opt_text(st.seats@[q].active_session) {
            Some(a) if st.sessions@.contains_key(a) => Some(st.sessions@[a].uid),
            _ => None,
        },
        _ => None,
    }
}

fn uid_in_front(st: &LoginState, q: &Option<String>) -> (r: Option<u32>)
    requires
        st.wf(),
    ensures
        r == front_uid(*st, opt_text(*q)),
{
    match q {
        Some(q) => match st.seats.get(q.as_str()) {
            Some(seat) => match &seat.active_session {
                Some(a) => match st.sessions.get(a.as_str()) {
                    Some(s) => Some(s.uid),
                    None => None,
                },
                None => None,
            },
            None => None,
        },
        None => None,
    }
}

/// The users between whom the devices of a seat change hands.
#[derive(Debug)]
pub struct AclHandover {
    pub seat: Option<SeatId>,
    pub old_uid: Option<u32>,
    pub new_uid: Option<u32>,
}

/// The user whose session leaves the foreground when `id` comes to it.
pub open spec fn displaced_uid(st: LoginState, id: Seq<char>) -> Option<u32> {
    match displaced(st, id) {
        Some(o) if st.sessions@.contains_key(o) => Some(st.sessions@[o].uid),
        _ => None,
    }
}

/// Brings a session to the foreground.
pub fn activate_with_acl_handover(st: &mut LoginState, session_id: &str) -> (r: AclHandover)
    requires
        old(st).wf(),
    ensures
        final(st).wf(),
        session_activated(*old(st), *final(st), session_id@),
        if old(st).sessions@.contains_key(session_id@) {
            let s = old(st).sessions@[session_id@];
            &&& opt_text(r.seat) == opt_text(s.seat)
            &&& r.old_uid == displaced_uid(*old(st), session_id@)
            &&& r.new_uid == Some(s.uid)
        } else {
            r.seat is None && r.old_uid is None && r.new_uid is None
        },
{
    let (seat, uid) = match st.sessions.get(session_id) {
        Some(s) => (clone_opt(&s.seat), s.uid),
        None => {
            return AclHandover { seat: None, old_uid: None, new_uid: None };
        },
    };
    let old_uid = match &seat {
        Some(q) => match st.seats.get(q.as_str()) {
            Some(s) => match &s.active_session {
                Some(a) => if str_eq(a.as_str(), session_id) {
                    None
                } else {
                    match st.sessions.get(a.as_str()) {
                        Some(o) => Some(o.uid),
                        None => None,
                    }
                },
                None => None,
            },
            None => None,
        },
        None => None,
    };
    assert(old_uid == displaced_uid(*old(st), session_id@));
    st.activate_session(session_id);
    AclHandover { seat, old_uid, new_uid: Some(uid) }
}

/// What becomes of the devices of a seat when its foreground goes from one
/// user to another.
pub open spec fn handover_steps(
    seat: Option<Seq<char>>,
    old_uid: Option<u32>,
    new_uid: Option<u32>,
) -> Seq<Handing> {
    match seat {
        None => Seq::empty(),
        Some(q) => {
            let first = if old_uid is Some && new_uid != old_uid {
                seq![Handing::Revert(q)]
            } else {
                Seq::empty()
            };
            match new_uid {
                Some(n) => first.push(Handing::Apply(q, n)),
                None => first,
            }
        },
    }
}

/// What becomes of the devices after a session came to the foreground.
pub fn run_acl_handover(handover: AclHandover) -> (r: Vec<AclStep>)
    ensures
        handings(r@) == handover_steps(
            opt_text(handover.seat),
            handover.old_uid,
            handover.new_uid,
        ),
{
    let mut r: Vec<AclStep> = Vec::new();
    let seat = match &handover.seat {
        Some(q) => q.clone(),
        None => {
            assert(handings(r@) =~= Seq::<Handing>::empty());
            return r;
        },
    };
    if let Some(o) = handover.old_uid {
        let same_user = match handover.new_uid {
            Some(n) => n == o,
            None => false,
        };
        if !same_user {
            r.push(AclStep::Revert(seat.clone()));
        }
    }
    if let Some(n) = handover.new_uid {
        r.push(AclStep::Apply(seat, n));
    }
    assert(handings(r@) =~= handover_steps(
        opt_text(handover.seat),
        handover.old_uid,
        handover.new_uid,
    ));
    r
}

/// The steps that follow when the session `id` comes to the foreground.
pub open spec fn activation_steps(pre: LoginState, id: Seq<char>) -> Seq<Handing> {
    let s = pre.sessions@[id];
    handover_steps(opt_text(s.seat), displaced_uid(pre, id), Some(s.uid))
}

/// What a request to bring a session to the foreground does and is answered.
pub open spec fn brought_forward(
    pre: LoginState,
    post: LoginState,
    id: Seq<char>,
    r: Result<Vec<AclStep>, BusError>,
) -> bool {
    match r {
        Ok(v) => {
            &&& pre.sessions@.contains_key(id)
            &&& session_activated(pre, post, id)
            &&& handings(v@) == activation_steps(pre, id)
        },
        Err(e) => {
            &&& !pre.sessions@.contains_key(id)
            &&& post == pre
            &&& e.failed_with(no_session(id))
        },
    }
}

/// A client's request to bring a session to the foreground.
pub fn activate_session(st: &mut LoginState, session_id: &str) -> (r: Result<Vec<AclStep>, BusError>)
    requires
        old(st).wf(),
    ensures
        final(st).wf(),
        brought_forward(*old(st), *final(st), session_id@, r),
{
    if !st.sessions.contains_key(session_id) {
        return Err(session_missing(session_id));
    }
    let h = activate_with_acl_handover(st, session_id);
    Ok(run_acl_handover(h))
}

/// What a request to bring a session to the foreground of a seat does and is
/// answered.
pub open spec fn brought_forward_on(
    pre: LoginState,
    post: LoginState,
    id: Seq<char>,
    seat: Seq<char>,
    r: Result<Vec<AclStep>, BusError>,
) -> bool {
    let there = pre.sessions@.contains_key(id);
    let on_it = opt_text(pre.sessions@[id].seat) == Some(seat);
    match r {
        Ok(v) => {
            &&& there && on_it
            &&& session_activated(pre, post, id)
            &&& handings(v@) == activation_steps(pre, id)
        },
        Err(e) => {
            &&& !(there && on_it)
            &&& post == pre
            &&& e.failed_with(
                if !there {
                    no_session(id)
                } else {
                    "session '"@ + id + "' is not on seat '"@ + seat + "'"@
                },
            )
        },
    }
}

/// A client's request to bring a session to the foreground of its seat, which
/// the client names.
pub fn activate_session_on_seat(st: &mut LoginState, session_id: &str, seat_id: &str) -> (r: Result<
    Vec<AclStep>,
    BusError,
>)
    requires
        old(st).wf(),
    ensures
        final(st).wf(),
        brought_forward_on(*old(st), *final(st), session_id@, seat_id@, r),
{
    let on_seat = match st.sessions.get(session_id) {
        Some(s) => match &s.seat {
            Some(q) => str_eq(q.as_str(), seat_id),
            None => false,
        },
        None => {
            return Err(session_missing(session_id));
        },
    };
    if !on_seat {
        let start = cat3("session '", session_id, "' is not on seat '");
        return Err(BusError::Failed(cat3(start.as_str(), seat_id, "'")));
    }
    let h = activate_with_acl_handover(st, session_id);
    Ok(run_acl_handover(h))
}

/// What is left to do for a session that was removed.
#[derive(Debug)]
pub struct Removal {
    pub session_id: SessionId,
    pub uid: u32,
    pub leader_pid: u32,
    /// Where the user is gone: how long to wait before the user's directory
    /// and slice are removed.
    pub cleanup_after: Option<Duration>,
    /// What is done with the devices of the seat.
    pub acl: Vec<AclStep>,
}

/// What becomes of the devices of a seat when a session leaves it.
pub open spec fn removal_steps(
    seat: Option<Seq<char>>,
    was_active: bool,
    uid: u32,
    next: Option<u32>,
) -> Seq<Handing> {
    match seat {
        Some(q) if was_active => {
            if next == Some(uid) {
                Seq::empty()
            } else if let Some(n) = next {
                seq![Handing::Revert(q), Handing::Apply(q, n)]
            } else {
                seq![Handing::Revert(q)]
            }
        },
        _ => Seq::empty(),
    }
}

/// Whether the removal of `id` led from `pre` to `post`, and leaves `r` to do.
pub open spec fn removal(
    pre: LoginState,
    post: LoginState,
    id: Seq<char>,
    r: Option<Removal>,
) -> bool {
    let s = pre.sessions@[id];
    let gone = !post.users@.contains_key(s.uid);
    match r {
        None => !pre.sessions@.contains_key(id) && post == pre,
        Some(m) => {
            &&& pre.sessions@.contains_key(id)
            &&& session_removed(
                LoginState { pending_user_cleanups: post.pending_user_cleanups, ..pre },
                post,
                id,
            )
            &&& post.pending_user_cleanups@ == if gone {
                pre.pending_user_cleanups@.insert(s.uid, ())
            } else {
                pre.pending_user_cleanups@
            }
            &&& m.session_id@ == id
            &&& m.uid == s.uid
            &&& m.leader_pid == s.leader_pid
            &&& m.cleanup_after == if gone {
                Some(pre.config.user_stop_delay)
            } else {
                None
            }
            &&& handings(m.acl@) == removal_steps(
                opt_text(s.seat),
                s.active,
                s.uid,
                front_uid(post, opt_text(s.seat)),
            )
        },
    }
}

/// Removes a session, and tells what is left to do. Where the user is gone,
/// the removal of the user's directory is put down as pending.
pub fn finalize_session_removal(st: &mut LoginState, session_id: &str) -> (r: Option<Removal>)
    requires
        old(st).wf(),
    ensures
        final(st).wf(),
        removal(*old(st), *final(st), session_id@, r),
{
    let (uid, leader_pid, was_active, seat) = match st.sessions.get(session_id) {
        Some(s) => (s.uid, s.leader_pid, s.active, clone_opt(&s.seat)),
        None => {
            return None;
        },
    };
    st.remove_session(session_id);
    let ghost mid = *st;
    let mut cleanup_after: Option<Duration> = None;
    if !st.users.contains_key(uid) {
        cleanup_after = Some(st.config.user_stop_delay);
        st.pending_user_cleanups.insert(uid, ());
    }
    let next = uid_in_front(st, &seat);
    let mut acl: Vec<AclStep> = Vec::new();
    if was_active {
        if let Some(q) = &seat {
            let stays = match next {
                Some(n) => n == uid,
                None => false,
            };
            if !stays {
                acl.push(AclStep::Revert(q.clone()));
                if let Some(n) = next {
                    acl.push(AclStep::Apply(q.clone(), n));
                }
            }
        }
    }
    assert(handings(acl@) =~= removal_steps(
        opt_text(seat),
        was_active,
        uid,
        front_uid(*st, opt_text(seat)),
    ));
    proof {
        let pre = LoginState {
            pending_user_cleanups: st.pending_user_cleanups,
            ..*old(st)
        };
        assert(session_removed(*old(st), mid, session_id@));
        assert(promoted(pre, session_id@) == promoted(*old(st), session_id@));
        assert(session_removed(pre, *st, session_id@));
    }
    Some(Removal { session_id: owned(session_id), uid, leader_pid, cleanup_after, acl })
}

/// What a request to give up or end a session does and is answered.
pub open spec fn given_up_by_client(
    pre: LoginState,
    post: LoginState,
    id: Seq<char>,
    r: Result<Removal, BusError>,
) -> bool {
    match r {
        Ok(m) => removal(pre, post, id, Some(m)),
        Err(e) => {
            &&& !pre.sessions@.contains_key(id)
            &&& post == pre
            &&& e.failed_with(no_session(id))
        },
    }
}

/// A client's request to give up a session.
pub fn release_session(st: &mut LoginState, session_id: &str) -> (r: Result<Removal, BusError>)
    requires
        old(st).wf(),
    ensures
        final(st).wf(),
        given_up_by_client(*old(st), *final(st), session_id@, r),
{
    match finalize_session_removal(st, session_id) {
        Some(m) => Ok(m),
        None => Err(session_missing(session_id)),
    }
}

/// A client's request to end a session: its leader is told to go, and the
/// session is removed.
pub fn terminate_session(st: &mut LoginState, session_id: &str) -> (r: Result<Removal, BusError>)
    requires
        old(st).wf(),
    ensures
        final(st).wf(),
        given_up_by_client(*old(st), *final(st), session_id@, r),
{
    release_session(st, session_id)
}

/// What looking whether the directory of a user is to be removed does and
/// tells.
pub open spec fn cleanup_looked_at(
    pre: LoginState,
    post: LoginState,
    uid: u32,
    r: bool,
) -> bool {
    &&& r == !pre.users@.contains_key(uid)
    &&& post == (LoginState {
            pending_user_cleanups: post.pending_user_cleanups,
            ..pre
        })
    &&& post.pending_user_cleanups@ == if r {
            pre.pending_user_cleanups@.remove(uid)
        } else {
            pre.pending_user_cleanups@
        }
}

/// Whether the removal of the user's directory is due after the wait: the
/// user has not come back. It is then no longer pending.
pub fn cleanup_due(st: &mut LoginState, uid: u32) -> (r: bool)
    requires
        old(st).wf(),
    ensures
        final(st).wf(),
        cleanup_looked_at(*old(st), *final(st), uid, r),
{
    if st.users.contains_key(uid) {
        return false;
    }
    let _was = st.pending_user_cleanups.remove(uid);
    true
}

} // verus!
