//! What a session does on request.

use crate::bus::{object_path, valid_object_path, BusError};
use crate::logind::device::is_drm_device;
use crate::logind::manager::{
    or_empty, seat_at, seat_path, unwrap_or_empty, user_at, user_path,
};
use crate::logind::state::{
    session_activated, session_added, session_removed, LoginState, Session,
};
use crate::text::num::{dec, u64_text};
use crate::text::{cat3, cat4, opt_text, owned, str_eq};
use crate::time::Instant;
use vstd::prelude::*;

verus! {

fn not_found() -> (r: BusError)
    ensures
        r.failed_with("session not found"@),
{
    BusError::Failed(owned("session not found"))
}

/// A session.
pub fn find<'a>(st: &'a LoginState, id: &str) -> (r: Result<&'a Session, BusError>)
    requires
        st.wf(),
    ensures
        match r {
            Ok(s) => st.sessions@.contains_key(id@) && *s == st.sessions@[id@],
            Err(e) => !st.sessions@.contains_key(id@) && e.failed_with("session not found"@),
        },
{
    match st.sessions.get(id) {
        Some(s) => Ok(s),
        None => Err(not_found()),
    }
}

/// Whether `post` is `pre` with the session `id` changed to `s`.
pub open spec fn session_set(pre: LoginState, post: LoginState, id: Seq<char>, s: Session) -> bool {
    &&& post == (LoginState { sessions: post.sessions, ..pre })
    &&& post.sessions@ == pre.sessions@.insert(id, s)
}

/// Why a client may not become the controller of a session.
pub open spec fn control_refused(st: LoginState, id: Seq<char>, force: bool) -> Option<Seq<char>> {
    if !st.sessions@.contains_key(id) {
        Some("session not found"@)
    } else if st.sessions@[id].controller is Some && !force {
        Some("session already has a controller"@)
    } else {
        None
    }
}

/// Whether `post` is `pre` with `sender` as the controller of the session
/// `id`.
pub open spec fn control_taken(
    pre: LoginState,
    post: LoginState,
    id: Seq<char>,
    sender: Option<Seq<char>>,
) -> bool {
    let t = post.sessions@[id];
    &&& session_set(pre, post, id, t)
    &&& t == (Session { controller: t.controller, ..pre.sessions@[id] })
    &&& opt_text(t.controller) == Some(or_empty(sender))
}

/// What a request to control a session does and is answered.
pub open spec fn control_asked(
    pre: LoginState,
    post: LoginState,
    id: Seq<char>,
    force: bool,
    sender: Option<Seq<char>>,
    r: Result<(), BusError>,
) -> bool {
    match r {
        Ok(_) => {
            &&& control_refused(pre, id, force) is None
            &&& control_taken(pre, post, id, sender)
        },
        Err(e) => {
            &&& post == pre
            &&& control_refused(pre, id, force) matches Some(t) && e.failed_with(t)
        },
    }
}

/// A client becomes the controller of a session. Another controller is
/// replaced only by force.
pub fn take_control(st: &mut LoginState, id: &str, force: bool, sender: Option<String>) -> (r: Result<
    (),
    BusError,
>)
    requires
        old(st).wf(),
    ensures
        final(st).wf(),
        control_asked(*old(st), *final(st), id@, force, opt_text(sender), r),
{
    match st.sessions.get(id) {
        Some(s) => {
            if s.controller.is_some() && !force {
                return Err(BusError::Failed(owned("session already has a controller")));
            }
        },
        None => {
            return Err(not_found());
        },
    }
    if let Some(s) = st.sessions.get_mut(id) {
        s.controller = Some(unwrap_or_empty(&sender));
    }
    assert(st.sessions@ =~= old(st).sessions@.insert(id@, st.sessions@[id@]));
    Ok(())
}

/// Whether `post` is `pre` with no controller of the session `id`, and none
/// of its devices open.
pub open spec fn control_released(pre: LoginState, post: LoginState, id: Seq<char>) -> bool {
    let t = post.sessions@[id];
    &&& session_set(pre, post, id, t)
    &&& t == (Session { controller: None, devices: t.devices, ..pre.sessions@[id] })
    &&& t.devices@.len() == 0
}

/// What a request to give up the control of a session does and is answered.
pub open spec fn control_given_up(
    pre: LoginState,
    post: LoginState,
    id: Seq<char>,
    r: Result<(), BusError>,
) -> bool {
    match r {
        Ok(_) => pre.sessions@.contains_key(id) && control_released(
            pre,
            post,
            id,
        ),
        Err(e) => {
            &&& !pre.sessions@.contains_key(id)
            &&& post == pre
            &&& e.failed_with("session not found"@)
        },
    }
}

/// The controller of a session gives it up, and all its devices with it.
pub fn release_control(st: &mut LoginState, id: &str) -> (r: Result<(), BusError>)
    requires
        old(st).wf(),
    ensures
        final(st).wf(),
        control_given_up(*old(st), *final(st), id@, r),
{
    if !st.sessions.contains_key(id) {
        return Err(not_found());
    }
    if let Some(s) = st.sessions.get_mut(id) {
        s.controller = None;
        s.devices = Vec::new();
    }
    assert(st.sessions@ =~= old(st).sessions@.insert(id@, st.sessions@[id@]));
    Ok(())
}

fn device_at(devices: &Vec<(u32, u32)>, d: (u32, u32)) -> (r: Option<usize>)
    ensures
        match r {
            Some(i) => i < devices@.len() && devices@[i as int] == d,
            None => !devices@.contains(d),
        },
{
    let mut i: usize = 0;
    while i < devices.len()
        invariant
            i <= devices.len(),
            forall|k: int| 0 <= k < i ==> devices@[k] != d,
        decreases devices.len() - i,
    {
        if devices[i].0 == d.0 && devices[i].1 == d.1 {
            return Some(i);
        }
        i += 1;
    }
    None
}

/// What a device is opened with.
#[derive(Debug, Clone, Copy, PartialEq, Eq, Structural)]
pub struct DeviceGrant {
    /// Whether the session is not in the foreground.
    pub inactive: bool,
    /// Whether the session becomes the master of the device.
    pub set_master: bool,
}

/// The answer where a device is open already.
pub open spec fn already_taken(major: u32, minor: u32) -> Seq<char> {
    "device "@ + dec(major as nat) + ":"@ + dec(minor as nat) + " already taken"@
}

/// Why a session may not open a device.
pub open spec fn device_refused(st: LoginState, id: Seq<char>, major: u32, minor: u32) -> Option<
    Seq<char>,
> {
    let s = st.sessions@[id];
    if !st.sessions@.contains_key(id) {
        Some("session not found"@)
    } else if s.controller is None {
        Some("caller is not the session controller"@)
    } else if s.devices@.contains((major, minor)) {
        Some(already_taken(major, minor))
    } else {
        None
    }
}

/// What a question for a device is answered.
pub open spec fn device_checked(
    st: LoginState,
    id: Seq<char>,
    major: u32,
    minor: u32,
    r: Result<DeviceGrant, BusError>,
) -> bool {
    match r {
        Ok(g) => {
            let s = st.sessions@[id];
            &&& device_refused(st, id, major, minor) is None
            &&& g == (DeviceGrant {
                inactive: !s.active,
                set_master: major == crate::logind::device::DRM_MAJOR && s.active,
            })
        },
        Err(e) => device_refused(st, id, major, minor) matches Some(t) && e.failed_with(t),
    }
}

/// Whether a session may open a device: it has a controller and has not
/// opened it yet.
pub fn check_device(st: &LoginState, id: &str, major: u32, minor: u32) -> (r: Result<
    DeviceGrant,
    BusError,
>)
    requires
        st.wf(),
    ensures
        device_checked(*st, id@, major, minor, r),
{
    let s = find(st, id)?;
    if s.controller.is_none() {
        return Err(BusError::Failed(owned("caller is not the session controller")));
    }
    if device_at(&s.devices, (major, minor)).is_some() {
        let a = u64_text(major as u64);
        let b = u64_text(minor as u64);
        let start = cat4("device ", a.as_str(), ":", b.as_str());
        return Err(BusError::Failed(crate::text::cat(start.as_str(), " already taken")));
    }
    Ok(DeviceGrant { inactive: !s.active, set_master: is_drm_device(major) && s.active })
}

/// Whether `post` is `pre` with the device open in the session `id`.
pub open spec fn device_taken(
    pre: LoginState,
    post: LoginState,
    id: Seq<char>,
    major: u32,
    minor: u32,
) -> bool {
    let s = pre.sessions@[id];
    let t = post.sessions@[id];
    &&& session_set(pre, post, id, t)
    &&& t == (Session { devices: t.devices, ..s })
    &&& t.devices@ == s.devices@.push((major, minor))
}

/// What a request for a device does and is answered.
pub open spec fn device_asked(
    pre: LoginState,
    post: LoginState,
    id: Seq<char>,
    major: u32,
    minor: u32,
    r: Result<DeviceGrant, BusError>,
) -> bool {
    match r {
        Ok(g) => {
            let s = pre.sessions@[id];
            &&& device_refused(pre, id, major, minor) is None
            &&& g == (DeviceGrant {
                inactive: !s.active,
                set_master: major == crate::logind::device::DRM_MAJOR && s.active,
            })
            &&& device_taken(pre, post, id, major, minor)
        },
        Err(e) => {
            &&& post == pre
            &&& device_refused(pre, id, major, minor) matches Some(t) && e.failed_with(t)
        },
    }
}

/// Puts down that a session has a device open, once it was opened for it.
pub fn take_device(st: &mut LoginState, id: &str, major: u32, minor: u32) -> (r: Result<
    DeviceGrant,
    BusError,
>)
    requires
        old(st).wf(),
    ensures
        final(st).wf(),
        device_asked(*old(st), *final(st), id@, major, minor, r),
{
    let g = check_device(st, id, major, minor)?;
    if let Some(s) = st.sessions.get_mut(id) {
        s.devices.push((major, minor));
    }
    assert(st.sessions@ =~= old(st).sessions@.insert(id@, st.sessions@[id@]));
    Ok(g)
}

/// Whether `post` is `pre` without one occurrence of `d`.
pub open spec fn without_device(
    pre: Seq<(u32, u32)>,
    post: Seq<(u32, u32)>,
    d: (u32, u32),
) -> bool {
    exists|i: int| 0 <= i < pre.len() && pre[i] == d && post == #[trigger] pre.remove(i)
}

/// Whether `post` is `pre` with the device no longer open in the session `id`.
pub open spec fn device_released(
    pre: LoginState,
    post: LoginState,
    id: Seq<char>,
    major: u32,
    minor: u32,
) -> bool {
    let s = pre.sessions@[id];
    let t = post.sessions@[id];
    &&& session_set(pre, post, id, t)
    &&& t == (Session { devices: t.devices, ..s })
    &&& without_device(s.devices@, t.devices@, (major, minor))
}

/// What giving a device back does and is answered.
pub open spec fn device_given_back(
    pre: LoginState,
    post: LoginState,
    id: Seq<char>,
    major: u32,
    minor: u32,
    r: Result<(), BusError>,
) -> bool {
    let there = pre.sessions@.contains_key(id);
    let s = pre.sessions@[id];
    let taken = s.devices@.contains((major, minor));
    match r {
        Ok(_) => there && taken && device_released(
            pre,
            post,
            id,
            major,
            minor,
        ),
        Err(e) => {
            &&& !(there && taken)
            &&& post == pre
            &&& e.failed_with(
                if !there {
                    "session not found"@
                } else {
                    "device "@ + dec(major as nat) + ":"@ + dec(minor as nat)
                        + " not taken"@
                },
            )
        },
    }
}

/// Puts down that a session no longer has a device open.
pub fn release_device(st: &mut LoginState, id: &str, major: u32, minor: u32) -> (r: Result<
    (),
    BusError,
>)
    requires
        old(st).wf(),
    ensures
        final(st).wf(),
        device_given_back(*old(st), *final(st), id@, major, minor, r),
{
    let at = match st.sessions.get(id) {
        Some(s) => device_at(&s.devices, (major, minor)),
        None => {
            return Err(not_found());
        },
    };
    let i = match at {
        Some(i) => i,
        None => {
            let a = u64_text(major as u64);
            let b = u64_text(minor as u64);
            let start = cat4("device ", a.as_str(), ":", b.as_str());
            return Err(BusError::Failed(crate::text::cat(start.as_str(), " not taken")));
        },
    };
    if let Some(s) = st.sessions.get_mut(id) {
        let _d = s.devices.remove(i);
    }
    assert(st.sessions@ =~= old(st).sessions@.insert(id@, st.sessions@[id@]));
    Ok(())
}

/// Taking a device and giving it back leaves what was open before.
pub proof fn released_device_was_the_taken_one(
    before: Seq<(u32, u32)>,
    after: Seq<(u32, u32)>,
    d: (u32, u32),
)
    requires
        !before.contains(d),
        without_device(before.push(d), after, d),
    ensures
        after == before,
{
    let taken = before.push(d);
    let i = choose|i: int| 0 <= i < taken.len() && taken[i] == d && after == #[trigger] taken.remove(i);
    if i < before.len() {
        assert(before[i] == d);
    }
    assert(taken.remove(i) =~= before);
}

/// A session has one controller at a time: whoever took control keeps it
/// against all who do not come by force.
pub proof fn one_controller_at_a_time(
    pre: LoginState,
    post: LoginState,
    id: Seq<char>,
    sender: Option<Seq<char>>,
)
    requires
        pre.sessions@.contains_key(id),
        control_taken(pre, post, id, sender),
    ensures
        control_refused(post, id, false) == Some("session already has a controller"@),
        control_refused(post, id, true) is None,
{
    assert(post.sessions@.contains_key(id));
}

/// Only a session with a controller opens devices: once control is given up,
/// none is open and none can be opened.
pub proof fn no_devices_without_control(
    pre: LoginState,
    post: LoginState,
    id: Seq<char>,
    major: u32,
    minor: u32,
)
    requires
        control_released(pre, post, id),
    ensures
        post.sessions@[id].devices@ == Seq::<(u32, u32)>::empty(),
        device_refused(post, id, major, minor) == Some("caller is not the session controller"@),
{
    assert(post.sessions@.contains_key(id));
    assert(post.sessions@[id].devices@ =~= Seq::<(u32, u32)>::empty());
}

/// Whether no session has a device open twice.
pub open spec fn devices_apart(st: LoginState) -> bool {
    forall|id: Seq<char>| #[trigger]
        st.sessions@.contains_key(id) ==> st.sessions@[id].devices@.no_duplicates()
}

/// A device that a session has taken is not taken a second time, so none is
/// open twice.
pub proof fn device_is_taken_once(
    pre: LoginState,
    post: LoginState,
    id: Seq<char>,
    major: u32,
    minor: u32,
)
    requires
        devices_apart(pre),
        device_refused(pre, id, major, minor) is None,
        device_taken(pre, post, id, major, minor),
    ensures
        device_refused(post, id, major, minor) == Some(already_taken(major, minor)),
        devices_apart(post),
{
    let d = (major, minor);
    let s = pre.sessions@[id];
    let t = post.sessions@[id];
    assert(pre.sessions@.contains_key(id));
    assert(t.devices@[s.devices@.len() as int] == d);
    assert forall|k: Seq<char>| #[trigger] post.sessions@.contains_key(k) implies post.sessions@[k].devices@.no_duplicates() by {
        if k != id {
            assert(pre.sessions@.contains_key(k));
        }
    }
}

/// A device that was given back can be taken again.
pub proof fn released_device_is_free(
    pre: LoginState,
    post: LoginState,
    id: Seq<char>,
    major: u32,
    minor: u32,
)
    requires
        devices_apart(pre),
        pre.sessions@.contains_key(id),
        pre.sessions@[id].controller is Some,
        device_released(pre, post, id, major, minor),
    ensures
        device_refused(post, id, major, minor) is None,
        devices_apart(post),
{
    let d = (major, minor);
    let s = pre.sessions@[id].devices@;
    let t = post.sessions@[id].devices@;
    let i = choose|i: int| 0 <= i < s.len() && s[i] == d && t == #[trigger] s.remove(i);
    assert(s.no_duplicates());
    assert(!t.contains(d)) by {
        if t.contains(d) {
            let k = choose|k: int| 0 <= k < t.len() && t[k] == d;
            let j = if k < i { k } else { k + 1 };
            assert(s[j] == d);
        }
    }
    assert(t.no_duplicates()) by {
        assert forall|a: int, b: int| 0 <= a < t.len() && 0 <= b < t.len() && a != b implies t[a] != t[b] by {
            let x = if a < i { a } else { a + 1 };
            let y = if b < i { b } else { b + 1 };
            assert(s[x] == t[a] && s[y] == t[b] && x != y);
        }
    }
    assert forall|k: Seq<char>| #[trigger] post.sessions@.contains_key(k) implies post.sessions@[k].devices@.no_duplicates() by {
        if k != id {
            assert(pre.sessions@.contains_key(k));
        }
    }
}

/// Whether a session can be of that type.
pub open spec fn is_session_type(t: Seq<char>) -> bool {
    t == "tty"@ || t == "x11"@ || t == "wayland"@ || t == "mir"@ || t == "unspecified"@
}

/// What a request to change the type of a session does and is answered.
pub open spec fn type_set(
    pre: LoginState,
    post: LoginState,
    id: Seq<char>,
    kind: Seq<char>,
    r: Result<(), BusError>,
) -> bool {
    let there = pre.sessions@.contains_key(id);
    match r {
        Ok(_) => {
            let t = post.sessions@[id];
            &&& there && is_session_type(kind)
            &&& session_set(pre, post, id, t)
            &&& t == (Session {
                session_type: t.session_type,
                ..pre.sessions@[id]
            })
            &&& t.session_type@ == kind
        },
        Err(e) => {
            &&& post == pre
            &&& if !there {
                e.failed_with("session not found"@)
            } else {
                !is_session_type(kind) && e.invalid_with(
                    "unknown session type '"@ + kind + "'"@,
                )
            }
        },
    }
}

/// Changes the type of a session.
pub fn set_type(st: &mut LoginState, id: &str, session_type: &str) -> (r: Result<(), BusError>)
    requires
        old(st).wf(),
    ensures
        final(st).wf(),
        type_set(*old(st), *final(st), id@, session_type@, r),
{
    if !st.sessions.contains_key(id) {
        return Err(not_found());
    }
    let known = str_eq(session_type, "tty") || str_eq(session_type, "x11") || str_eq(
        session_type,
        "wayland",
    ) || str_eq(session_type, "mir") || str_eq(session_type, "unspecified");
    if !known {
        return Err(BusError::InvalidArgs(cat3("unknown session type '", session_type, "'")));
    }
    if let Some(s) = st.sessions.get_mut(id) {
        s.session_type = owned(session_type);
    }
    assert(st.sessions@ =~= old(st).sessions@.insert(id@, st.sessions@[id@]));
    Ok(())
}

/// Brings a session to the foreground. One that is gone is passed over.
pub fn activate(st: &mut LoginState, id: &str)
    requires
        old(st).wf(),
    ensures
        final(st).wf(),
        session_activated(*old(st), *final(st), id@),
{
    st.activate_session(id);
}

/// What putting down whether a session is idle does and is answered.
pub open spec fn idle_hint_set(
    pre: LoginState,
    post: LoginState,
    id: Seq<char>,
    idle: bool,
    now_usec: u64,
    r: Result<(), BusError>,
) -> bool {
    match r {
        Ok(_) => {
            &&& pre.sessions@.contains_key(id)
            &&& session_set(
                pre,
                post,
                id,
                Session {
                    idle_hint: idle,
                    idle_since_usec: if idle {
                        now_usec
                    } else {
                        0
                    },
                    ..pre.sessions@[id]
                },
            )
        },
        Err(e) => {
            &&& !pre.sessions@.contains_key(id)
            &&& post == pre
            &&& e.failed_with("session not found"@)
        },
    }
}

/// Puts down whether a session is idle, and since when.
pub fn set_idle_hint(st: &mut LoginState, id: &str, idle: bool, now_usec: u64) -> (r: Result<
    (),
    BusError,
>)
    requires
        old(st).wf(),
    ensures
        final(st).wf(),
        idle_hint_set(*old(st), *final(st), id@, idle, now_usec, r),
{
    if !st.sessions.contains_key(id) {
        return Err(not_found());
    }
    if let Some(s) = st.sessions.get_mut(id) {
        s.idle_hint = idle;
        s.idle_since_usec = if idle {
            now_usec
        } else {
            0
        };
    }
    assert(st.sessions@ =~= old(st).sessions@.insert(id@, st.sessions@[id@]));
    Ok(())
}

/// Ends a session, and tells the leader that is to go.
pub fn terminate(st: &mut LoginState, id: &str) -> (r: Result<u32, BusError>)
    requires
        old(st).wf(),
    ensures
        final(st).wf(),
        match r {
            Ok(p) => {
                &&& old(st).sessions@.contains_key(id@)
                &&& p == old(st).sessions@[id@].leader_pid
                &&& session_removed(*old(st), *final(st), id@)
            },
            Err(e) => {
                &&& !old(st).sessions@.contains_key(id@)
                &&& *final(st) == *old(st)
                &&& e.failed_with("session not found"@)
            },
        },
{
    let pid = find(st, id)?.leader_pid;
    st.remove_session(id);
    Ok(pid)
}

/// The user of a session, and the user's object.
pub fn user(st: &LoginState, id: &str) -> (r: Result<(u32, String), BusError>)
    requires
        st.wf(),
    ensures
        match r {
            Ok(u) => {
                &&& st.sessions@.contains_key(id@)
                &&& u.0 == st.sessions@[id@].uid
                &&& u.1@ == user_at(u.0)
            },
            Err(e) => !st.sessions@.contains_key(id@) && e.failed_with("session not found"@),
        },
{
    let uid = find(st, id)?.uid;
    match object_path(user_path(uid)) {
        Ok(p) => Ok((uid, p)),
        Err(e) => Err(e),
    }
}

/// The object of a seat, or the root where there is no seat.
pub open spec fn seat_or_root(q: Seq<char>) -> Seq<char> {
    if q.len() == 0 {
        "/"@
    } else {
        seat_at(q)
    }
}

/// The root is an object.
pub proof fn lemma_root_is_path()
    ensures
        valid_object_path("/"@),
{
    reveal_strlit("/");
}

/// The seat of a session, and its object.
pub fn seat(st: &LoginState, id: &str) -> (r: Result<(String, String), BusError>)
    requires
        st.wf(),
    ensures
        match r {
            Ok(q) => {
                &&& st.sessions@.contains_key(id@)
                &&& q.0@ == or_empty(opt_text(st.sessions@[id@].seat))
                &&& q.1@ == seat_or_root(q.0@)
            },
            Err(e) => !st.sessions@.contains_key(id@) && e.failed_with("session not found"@),
        },
{
    proof {
        lemma_root_is_path();
    }
    let q = unwrap_or_empty(&find(st, id)?.seat);
    let path = if crate::text::chars_of(q.as_str()).len() == 0 {
        object_path(owned("/"))
    } else {
        object_path(seat_path(q.as_str()))
    };
    match path {
        Ok(p) => Ok((q, p)),
        Err(e) => Err(e),
    }
}

/// How long a session has been there, in microseconds; none where the clock
/// went back.
pub fn timestamp_monotonic(st: &LoginState, id: &str, now: Instant) -> (r: Result<u64, BusError>)
    requires
        st.wf(),
        st.sessions@.contains_key(id@) ==> now.nanos - st.sessions@[id@].created_monotonic.nanos
            <= i128::MAX,
    ensures
        match r {
            Ok(t) => {
                let d = now.nanos - st.sessions@[id@].created_monotonic.nanos;
                &&& st.sessions@.contains_key(id@)
                &&& t == if d < 0 {
                    0
                } else {
                    (d / 1000) % 0x1_0000_0000_0000_0000
                }
            },
            Err(e) => !st.sessions@.contains_key(id@) && e.failed_with("session not found"@),
        },
{
    let created = find(st, id)?.created_monotonic;
    if now.before(created) {
        return Ok(0);
    }
    let us = (now.nanos - created.nanos) / 1000;
    Ok((us % 0x1_0000_0000_0000_0000) as u64)
}

/// The name of the scope of a session.
pub fn scope(id: &str) -> (r: String)
    ensures
        r@ == "session-"@ + id@ + ".scope"@,
{
    cat3("session-", id, ".scope")
}

/// The name of the state of a session.
pub fn state(st: &LoginState, id: &str) -> (r: Result<String, BusError>)
    requires
        st.wf(),
    ensures
        match r {
            Ok(t) => st.sessions@.contains_key(id@) && t@ == st.sessions@[id@].state.name(),
            Err(e) => !st.sessions@.contains_key(id@) && e.failed_with("session not found"@),
        },
{
    let s = find(st, id)?;
    Ok(owned(s.state.as_str()))
}

/// A new session has no device open, so none is open twice.
pub proof fn opening_keeps_devices_apart(pre: LoginState, post: LoginState, id: Seq<char>)
    requires
        devices_apart(pre),
        session_added(pre, post, id),
        post.sessions@[id].devices@.len() == 0,
    ensures
        devices_apart(post),
{
    assert forall|k: Seq<char>| #[trigger] post.sessions@.contains_key(k) implies post.sessions@[k].devices@.no_duplicates() by {
        if k != id {
            assert(pre.sessions@.contains_key(k));
        }
    }
}

/// Removing a session, or bringing one to the foreground, leaves the devices
/// of the others as they are.
pub proof fn other_devices_are_kept(pre: LoginState, post: LoginState, id: Seq<char>)
    requires
        session_removed(pre, post, id) || session_activated(pre, post, id),
    ensures
        forall|k: Seq<char>| #[trigger]
            post.sessions@.contains_key(k) ==> pre.sessions@.contains_key(k)
                && post.sessions@[k].devices == pre.sessions@[k].devices,
        devices_apart(pre) ==> devices_apart(post),
{
    assert forall|k: Seq<char>| #[trigger] post.sessions@.contains_key(k) implies pre.sessions@.contains_key(k)
        && post.sessions@[k].devices == pre.sessions@[k].devices by {}
}

} // verus!
