//! What a seat does on request.

use crate::bus::{object_path, BusError};
use crate::logind::manager::{or_empty, session_at, session_path};
use crate::logind::session::lemma_root_is_path;
use crate::logind::state::{session_activated, LoginState, Seat};
use crate::logind::teardown::{drop_each, dropped};
use crate::names::contains_name;
use crate::text::{cat3, clone_strings, opt_text, owned, texts};
use vstd::prelude::*;

verus! {

/// A seat.
pub fn find<'a>(st: &'a LoginState, id: &str) -> (r: Result<&'a Seat, BusError>)
    requires
        st.wf(),
    ensures
        match r {
            Ok(s) => st.seats@.contains_key(id@) && *s == st.seats@[id@],
            Err(e) => !st.seats@.contains_key(id@) && e.failed_with("seat not found"@),
        },
{
    match st.seats.get(id) {
        Some(s) => Ok(s),
        None => Err(BusError::Failed(owned("seat not found"))),
    }
}

/// What bringing a session to the foreground of a seat does and is answered.
pub open spec fn activated_on(
    pre: LoginState,
    post: LoginState,
    seat: Seq<char>,
    id: Seq<char>,
    r: Result<(), BusError>,
) -> bool {
    let there = pre.seats@.contains_key(seat);
    let on_it = texts(pre.seats@[seat].sessions@).contains(id);
    match r {
        Ok(_) => there && on_it && session_activated(pre, post, id),
        Err(e) => {
            &&& !(there && on_it)
            &&& post == pre
            &&& e.failed_with(
                if !there {
                    "seat not found"@
                } else {
                    "session '"@ + id + "' is not on seat '"@ + seat + "'"@
                },
            )
        },
    }
}

/// Brings one of the sessions on a seat to its foreground.
pub fn activate_session(st: &mut LoginState, seat_id: &str, session_id: &str) -> (r: Result<
    (),
    BusError,
>)
    requires
        old(st).wf(),
    ensures
        final(st).wf(),
        activated_on(*old(st), *final(st), seat_id@, session_id@, r),
{
    let s = find(st, seat_id)?;
    if !contains_name(&s.sessions, session_id) {
        let start = cat3("session '", session_id, "' is not on seat '");
        return Err(BusError::Failed(cat3(start.as_str(), seat_id, "'")));
    }
    st.activate_session(session_id);
    Ok(())
}

/// The virtual terminal after the current one.
pub fn next_vt(current: u32) -> (r: u32)
    requires
        current < u32::MAX,
    ensures
        r == current + 1,
{
    current + 1
}

/// The virtual terminal before the current one; the first has none.
pub fn previous_vt(current: u32) -> (r: Option<u32>)
    ensures
        r == if current > 1 {
            Some((current - 1) as u32)
        } else {
            None
        },
{
    if current > 1 {
        Some(current - 1)
    } else {
        None
    }
}

/// What ending all sessions on a seat does and is answered.
pub open spec fn seat_cleared(
    pre: LoginState,
    post: LoginState,
    seat: Seq<char>,
    r: Result<Vec<u32>, BusError>,
) -> bool {
    match r {
        Ok(v) => {
            let ids = texts(pre.seats@[seat].sessions@);
            &&& pre.seats@.contains_key(seat)
            &&& dropped(pre, post, ids, v@)
            &&& forall|i: int|
                0 <= i < ids.len() ==> !post.sessions@.contains_key(#[trigger] ids[i])
        },
        Err(e) => {
            &&& !pre.seats@.contains_key(seat)
            &&& post == pre
            &&& e.failed_with("seat not found"@)
        },
    }
}

/// Ends all sessions on a seat, and tells the leaders that are to go.
pub fn terminate(st: &mut LoginState, seat_id: &str) -> (r: Result<Vec<u32>, BusError>)
    requires
        old(st).wf(),
    ensures
        final(st).wf(),
        seat_cleared(*old(st), *final(st), seat_id@, r),
{
    let ids = clone_strings(&find(st, seat_id)?.sessions);
    Ok(drop_each(st, &ids))
}

/// The object of a session, or the root where there is none.
pub open spec fn session_or_root(id: Option<Seq<char>>) -> Seq<char> {
    match id {
        Some(k) => session_at(k),
        None => "/"@,
    }
}

/// The name and object of a session, if there is one.
pub fn session_entry(id: &Option<String>) -> (r: Result<(String, String), BusError>)
    ensures
        r matches Ok(e) && e.0@ == or_empty(opt_text(*id)) && e.1@ == session_or_root(
            opt_text(*id),
        ),
{
    proof {
        lemma_root_is_path();
    }
    match id {
        Some(k) => match object_path(session_path(k.as_str())) {
            Ok(p) => Ok((k.clone(), p)),
            Err(e) => Err(e),
        },
        None => match object_path(owned("/")) {
            Ok(p) => Ok((String::new(), p)),
            Err(e) => Err(e),
        },
    }
}

/// Whether `v` gives the names and objects of `ids`.
pub open spec fn entries(v: Seq<(String, String)>, ids: Seq<Seq<char>>) -> bool {
    &&& v.len() == ids.len()
    &&& forall|i: int|
        0 <= i < v.len() ==> (#[trigger] v[i]).0@ == ids[i] && v[i].1@ == session_at(ids[i])
}

/// The names and objects of sessions.
pub fn session_entries(ids: &Vec<String>) -> (r: Result<Vec<(String, String)>, BusError>)
    ensures
        r matches Ok(v) && entries(v@, texts(ids@)),
{
    let mut v: Vec<(String, String)> = Vec::new();
    let mut i: usize = 0;
    while i < ids.len()
        invariant
            i <= ids.len(),
            v@.len() == i,
            forall|k: int|
                0 <= k < i ==> (#[trigger] v@[k]).0@ == texts(ids@)[k] && v@[k].1@ == session_at(
                    texts(ids@)[k],
                ),
        decreases ids.len() - i,
    {
        match object_path(session_path(ids[i].as_str())) {
            Ok(p) => {
                v.push((ids[i].clone(), p));
            },
            Err(e) => {
                return Err(e);
            },
        }
        i += 1;
    }
    Ok(v)
}

/// The session in the foreground of a seat, and its object.
pub fn active_session(st: &LoginState, seat_id: &str) -> (r: Result<(String, String), BusError>)
    requires
        st.wf(),
    ensures
        match r {
            Ok(e) => {
                let a = opt_text(st.seats@[seat_id@].active_session);
                &&& st.seats@.contains_key(seat_id@)
                &&& e.0@ == or_empty(a)
                &&& e.1@ == session_or_root(a)
            },
            Err(e) => !st.seats@.contains_key(seat_id@) && e.failed_with("seat not found"@),
        },
{
    let s = find(st, seat_id)?;
    session_entry(&s.active_session)
}

/// The sessions on a seat, and their objects.
pub fn sessions(st: &LoginState, seat_id: &str) -> (r: Result<Vec<(String, String)>, BusError>)
    requires
        st.wf(),
    ensures
        match r {
            Ok(v) => st.seats@.contains_key(seat_id@) && entries(
                v@,
                texts(st.seats@[seat_id@].sessions@),
            ),
            Err(e) => !st.seats@.contains_key(seat_id@) && e.failed_with("seat not found"@),
        },
{
    let s = find(st, seat_id)?;
    session_entries(&s.sessions)
}

} // verus!
