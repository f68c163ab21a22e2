//! What a user's object does on request.

use crate::bus::BusError;
use crate::logind::manager::or_empty;
use crate::logind::seat::{entries, session_entries, session_entry, session_or_root};
use crate::logind::state::{LoginState, User};
use crate::logind::teardown::{
    drop_each, leaders, leaders_of, plain_removals, sessions_of_user, user_sessions,
};
use crate::text::{opt_text, owned, texts};
use vstd::prelude::*;

verus! {

/// A user.
pub fn find(st: &LoginState, uid: u32) -> (r: Result<&User, BusError>)
    requires
        st.wf(),
    ensures
        match r {
            Ok(u) => st.users@.contains_key(uid) && *u == st.users@[uid],
            Err(e) => !st.users@.contains_key(uid) && e.failed_with("user not found"@),
        },
{
    match st.users.get(uid) {
        Some(u) => Ok(u),
        None => Err(BusError::Failed(owned("user not found"))),
    }
}

/// Whether the removal of `ids`, one after the other, led from `pre` to
/// `post`.
pub open spec fn all_removed(pre: LoginState, post: LoginState, ids: Seq<Seq<char>>) -> bool {
    exists|states: Seq<LoginState>| #[trigger]
        plain_removals(states, ids) && states[0] == pre && states.last() == post
}

/// What ending all sessions of a user does and tells.
pub open spec fn sessions_ended(
    pre: LoginState,
    post: LoginState,
    uid: u32,
    leaders: Seq<u32>,
) -> bool {
    let ids = sessions_of_user(pre, uid);
    &&& leaders == leaders_of(pre.sessions@, ids)
    &&& all_removed(pre, post, ids)
    &&& forall|i: int|
        0 <= i < ids.len() ==> !post.sessions@.contains_key(#[trigger] ids[i])
}

/// Ends all sessions of a user, and tells the leaders that are to go.
pub fn terminate(st: &mut LoginState, uid: u32) -> (r: Vec<u32>)
    requires
        old(st).wf(),
    ensures
        final(st).wf(),
        sessions_ended(*old(st), *final(st), uid, r@),
{
    let ids = user_sessions(st, uid);
    let pids = leaders(st, &ids);
    let _told = drop_each(st, &ids);
    pids
}

/// `Signal::try_from` of the crate `nix`: on Linux, save for the MIPS and
/// SPARC machines, the numbers of signals are those from 1 to 31.
#[verifier::external_body]
fn is_signal(number: i32) -> (r: bool)
    ensures
        r == (1 <= number <= 31),
{
    nix::sys::signal::Signal::try_from(number).is_ok()
}

/// Which processes get a signal that is sent to a user.
pub open spec fn signal_sent(
    st: LoginState,
    uid: u32,
    signal_number: i32,
    r: Result<Vec<u32>, BusError>,
) -> bool {
    match r {
        Ok(v) => 1 <= signal_number <= 31 && v@ == leaders_of(
            st.sessions@,
            sessions_of_user(st, uid),
        ),
        Err(e) => !(1 <= signal_number <= 31) && e.invalid_with("invalid signal number"@),
    }
}

/// The processes that get a signal sent to a user: the leaders of the user's
/// sessions.
pub fn kill(st: &LoginState, uid: u32, signal_number: i32) -> (r: Result<Vec<u32>, BusError>)
    requires
        st.wf(),
    ensures
        signal_sent(*st, uid, signal_number, r),
{
    if !is_signal(signal_number) {
        return Err(BusError::InvalidArgs(owned("invalid signal number")));
    }
    let ids = user_sessions(st, uid);
    Ok(leaders(st, &ids))
}

/// The group of a user: `known` to the system, or the number of the user.
pub fn gid(uid: u32, known: Option<u32>) -> (r: u32)
    ensures
        r == match known {
            Some(g) => g,
            None => uid,
        },
{
    match known {
        Some(g) => g,
        None => uid,
    }
}

/// The session that a user is seen in, and its object.
pub fn display(st: &LoginState, uid: u32) -> (r: Result<(String, String), BusError>)
    requires
        st.wf(),
    ensures
        match r {
            Ok(e) => {
                let d = opt_text(st.users@[uid].display_session);
                &&& st.users@.contains_key(uid)
                &&& e.0@ == or_empty(d)
                &&& e.1@ == session_or_root(d)
            },
            Err(e) => !st.users@.contains_key(uid) && e.failed_with("user not found"@),
        },
{
    let u = find(st, uid)?;
    session_entry(&u.display_session)
}

/// The sessions of a user, and their objects.
pub fn sessions(st: &LoginState, uid: u32) -> (r: Result<Vec<(String, String)>, BusError>)
    requires
        st.wf(),
    ensures
        match r {
            Ok(v) => st.users@.contains_key(uid) && entries(v@, texts(st.users@[uid].sessions@)),
            Err(e) => !st.users@.contains_key(uid) && e.failed_with("user not found"@),
        },
{
    let u = find(st, uid)?;
    session_entries(&u.sessions)
}

/// The name of the state of a user.
pub fn state(st: &LoginState, uid: u32) -> (r: Result<String, BusError>)
    requires
        st.wf(),
    ensures
        match r {
            Ok(t) => st.users@.contains_key(uid) && t@ == st.users@[uid].state.name(),
            Err(e) => !st.users@.contains_key(uid) && e.failed_with("user not found"@),
        },
{
    let u = find(st, uid)?;
    Ok(owned(u.state.as_str()))
}

} // verus!
