//! The end of many sessions at once.

use crate::bus::BusError;
use crate::logind::manager::{finalize_session_removal, no_seat, removal, Removal};
use crate::logind::state::{put, session_removed, LoginState, Sessions};
use crate::text::{cat3, clone_strings, texts};
use vstd::prelude::*;

verus! {

/// The leaders of those of `ids` that are sessions.
pub open spec fn leaders_of(sessions: Sessions, ids: Seq<Seq<char>>) -> Seq<u32>
    decreases ids.len(),
{
    if ids.len() == 0 {
        Seq::empty()
    } else {
        let rest = leaders_of(sessions, ids.drop_last());
        if sessions.contains_key(ids.last()) {
            rest.push(sessions[ids.last()].leader_pid)
        } else {
            rest
        }
    }
}

/// The leaders of those of `ids` that are sessions.
pub fn leaders(st: &LoginState, ids: &Vec<String>) -> (r: Vec<u32>)
    requires
        st.wf(),
    ensures
        r@ == leaders_of(st.sessions@, texts(ids@)),
{
    let ghost o = texts(ids@);
    let mut r: Vec<u32> = Vec::new();
    let mut i: usize = 0;
    assert(r@ =~= leaders_of(st.sessions@, o.take(0)));
    while i < ids.len()
        invariant
            st.wf(),
            i <= ids.len(),
            o == texts(ids@),
            r@ == leaders_of(st.sessions@, o.take(i as int)),
        decreases ids.len() - i,
    {
        proof {
            assert(o.take(i + 1).drop_last() =~= o.take(i as int));
            assert(o.take(i + 1).last() == ids@[i as int]@);
        }
        if let Some(s) = st.sessions.get(ids[i].as_str()) {
            r.push(s.leader_pid);
        }
        i += 1;
    }
    assert(o.take(o.len() as int) =~= o);
    r
}

/// The sessions of a user; none where the user is unknown.
pub open spec fn sessions_of_user(st: LoginState, uid: u32) -> Seq<Seq<char>> {
    if st.users@.contains_key(uid) {
        texts(st.users@[uid].sessions@)
    } else {
        Seq::empty()
    }
}

/// The sessions of a user; none where the user is unknown.
pub fn user_sessions(st: &LoginState, uid: u32) -> (r: Vec<String>)
    requires
        st.wf(),
    ensures
        texts(r@) == sessions_of_user(*st, uid),
{
    match st.users.get(uid) {
        Some(u) => clone_strings(&u.sessions),
        None => {
            let r: Vec<String> = Vec::new();
            assert(texts(r@) =~= Seq::<Seq<char>>::empty());
            r
        },
    }
}

/// Whether the removal of the session at `i` led from one state to the next.
pub open spec fn removal_at(
    states: Seq<LoginState>,
    ids: Seq<Seq<char>>,
    rs: Seq<Option<Removal>>,
    i: int,
) -> bool {
    removal(states[i], states[i + 1], ids[i], rs[i])
}

/// Whether the removal of `ids`, one after the other, led through `states`,
/// and leaves `rs` to do.
pub open spec fn removals(
    states: Seq<LoginState>,
    ids: Seq<Seq<char>>,
    rs: Seq<Option<Removal>>,
) -> bool {
    &&& states.len() == ids.len() + 1
    &&& rs.len() == ids.len()
    &&& forall|i: int| 0 <= i < ids.len() ==> #[trigger] removal_at(states, ids, rs, i)
}

/// Whether the removal of `ids`, one after the other, led from `pre` to
/// `post`, and leaves `rs` to do.
pub open spec fn torn_down(
    pre: LoginState,
    post: LoginState,
    ids: Seq<Seq<char>>,
    rs: Seq<Option<Removal>>,
) -> bool {
    exists|states: Seq<LoginState>| #[trigger]
        removals(states, ids, rs) && states[0] == pre && states.last() == post
}

proof fn lemma_removal_shrinks(pre: LoginState, post: LoginState, id: Seq<char>, r: Option<Removal>)
    requires
        removal(pre, post, id, r),
    ensures
        post.sessions@.dom().subset_of(pre.sessions@.dom()),
        !post.sessions@.contains_key(id),
{
    if r is Some {
        let p = LoginState { pending_user_cleanups: post.pending_user_cleanups, ..pre };
        let next = crate::logind::state::promoted(p, id);
        assert(put(pre.sessions@.remove(id), next, true).dom() =~= pre.sessions@.remove(id).dom());
    }
}

/// Removes sessions, one after the other.
pub fn remove_each(st: &mut LoginState, ids: &Vec<String>) -> (r: Vec<Option<Removal>>)
    requires
        old(st).wf(),
    ensures
        final(st).wf(),
        torn_down(*old(st), *final(st), texts(ids@), r@),
        forall|i: int| 0 <= i < ids@.len() ==> !final(st).sessions@.contains_key(
            #[trigger] texts(ids@)[i],
        ),
{
    let ghost o = texts(ids@);
    let ghost mut states = seq![*st];
    let mut r: Vec<Option<Removal>> = Vec::new();
    let mut i: usize = 0;
    while i < ids.len()
        invariant
            st.wf(),
            i <= ids.len(),
            o == texts(ids@),
            states.len() == i + 1,
            r@.len() == i,
            states[0] == *old(st),
            states.last() == *st,
            forall|k: int| 0 <= k < i ==> #[trigger] removal_at(states, o, r@, k),
            forall|k: int| 0 <= k < i ==> !st.sessions@.contains_key(#[trigger] o[k]),
        decreases ids.len() - i,
    {
        let ghost before = *st;
        let ghost states0 = states;
        let ghost r0 = r@;
        let m = finalize_session_removal(st, ids[i].as_str());
        r.push(m);
        proof {
            states = states0.push(*st);
            assert(o[i as int] == ids@[i as int]@);
            lemma_removal_shrinks(before, *st, o[i as int], r@[i as int]);
            assert forall|k: int| 0 <= k < i + 1 implies #[trigger] removal_at(
                states,
                o,
                r@,
                k,
            ) by {
                if k < i {
                    assert(removal_at(states0, o, r0, k));
                    assert(states[k] == states0[k] && states[k + 1] == states0[k + 1]);
                } else {
                    assert(states[k] == before && states[k + 1] == *st);
                }
            }
            assert forall|k: int| 0 <= k < i + 1 implies !st.sessions@.contains_key(
                #[trigger] o[k],
            ) by {
                if k < i {
                    assert(!before.sessions@.contains_key(o[k]));
                }
            }
        }
        i += 1;
    }
    assert(removals(states, o, r@));
    r
}

/// What ending all sessions of a user does and tells.
pub open spec fn user_ended(
    pre: LoginState,
    post: LoginState,
    uid: u32,
    leaders: Seq<u32>,
    rs: Seq<Option<Removal>>,
) -> bool {
    let ids = sessions_of_user(pre, uid);
    &&& leaders == leaders_of(pre.sessions@, ids)
    &&& torn_down(pre, post, ids, rs)
    &&& forall|i: int|
        0 <= i < ids.len() ==> !post.sessions@.contains_key(#[trigger] ids[i])
}

/// A client's request to end all sessions of a user: the leaders are told to
/// go, and then the sessions are removed.
pub fn terminate_user(st: &mut LoginState, uid: u32) -> (r: (Vec<u32>, Vec<Option<Removal>>))
    requires
        old(st).wf(),
    ensures
        final(st).wf(),
        user_ended(*old(st), *final(st), uid, r.0@, r.1@),
{
    let ids = user_sessions(st, uid);
    let pids = leaders(st, &ids);
    let rs = remove_each(st, &ids);
    (pids, rs)
}

/// What ending all sessions on a seat does and is answered.
pub open spec fn seat_ended(
    pre: LoginState,
    post: LoginState,
    seat: Seq<char>,
    r: Result<Vec<Option<Removal>>, BusError>,
) -> bool {
    match r {
        Ok(v) => {
            let ids = texts(pre.seats@[seat].sessions@);
            &&& pre.seats@.contains_key(seat)
            &&& torn_down(pre, post, ids, v@)
            &&& forall|i: int|
                0 <= i < ids.len() ==> !post.sessions@.contains_key(#[trigger] ids[i])
        },
        Err(e) => {
            &&& !pre.seats@.contains_key(seat)
            &&& post == pre
            &&& e.failed_with(no_seat(seat))
        },
    }
}

/// A client's request to end all sessions on a seat: one after the other, the
/// leader is told to go and the session is removed.
pub fn terminate_seat(st: &mut LoginState, seat_id: &str) -> (r: Result<
    Vec<Option<Removal>>,
    BusError,
>)
    requires
        old(st).wf(),
    ensures
        final(st).wf(),
        seat_ended(*old(st), *final(st), seat_id@, r),
{
    let ids = match st.seats.get(seat_id) {
        Some(s) => clone_strings(&s.sessions),
        None => {
            return Err(BusError::Failed(cat3("no seat '", seat_id, "'")));
        },
    };
    Ok(remove_each(st, &ids))
}

/// Whether the removal of the session at `i`, without anything more, led from
/// one state to the next.
pub open spec fn plain_removal_at(states: Seq<LoginState>, ids: Seq<Seq<char>>, i: int) -> bool {
    session_removed(states[i], states[i + 1], ids[i])
}

/// Whether the removal of `ids`, one after the other, led through `states`.
pub open spec fn plain_removals(states: Seq<LoginState>, ids: Seq<Seq<char>>) -> bool {
    &&& states.len() == ids.len() + 1
    &&& forall|i: int| 0 <= i < ids.len() ==> #[trigger] plain_removal_at(states, ids, i)
}

/// The leaders of the sessions that were there when their turn came.
pub open spec fn leaders_along(states: Seq<LoginState>, ids: Seq<Seq<char>>, n: nat) -> Seq<u32>
    decreases n,
{
    if n == 0 {
        Seq::empty()
    } else {
        let k = (n - 1) as nat;
        let rest = leaders_along(states, ids, k);
        if states[k as int].sessions@.contains_key(ids[k as int]) {
            rest.push(states[k as int].sessions@[ids[k as int]].leader_pid)
        } else {
            rest
        }
    }
}

/// Whether the removal of `ids`, one after the other, led from `pre` to
/// `post`, with `pids` the leaders of those that were there.
pub open spec fn dropped(
    pre: LoginState,
    post: LoginState,
    ids: Seq<Seq<char>>,
    pids: Seq<u32>,
) -> bool {
    exists|states: Seq<LoginState>|
        {
            &&& #[trigger] plain_removals(states, ids)
            &&& states[0] == pre
            &&& states.last() == post
            &&& pids == leaders_along(states, ids, ids.len())
        }
}

proof fn lemma_leaders_along(a: Seq<LoginState>, b: Seq<LoginState>, ids: Seq<Seq<char>>, n: nat)
    requires
        n <= a.len(),
        n <= b.len(),
        forall|k: int| 0 <= k < n ==> a[k] == b[k],
    ensures
        leaders_along(a, ids, n) == leaders_along(b, ids, n),
    decreases n,
{
    if n > 0 {
        lemma_leaders_along(a, b, ids, (n - 1) as nat);
    }
}

/// Removes sessions, one after the other, and tells their leaders.
pub fn drop_each(st: &mut LoginState, ids: &Vec<String>) -> (r: Vec<u32>)
    requires
        old(st).wf(),
    ensures
        final(st).wf(),
        dropped(*old(st), *final(st), texts(ids@), r@),
        forall|i: int| 0 <= i < ids@.len() ==> !final(st).sessions@.contains_key(
            #[trigger] texts(ids@)[i],
        ),
{
    let ghost o = texts(ids@);
    let ghost mut states = seq![*st];
    let mut r: Vec<u32> = Vec::new();
    let mut i: usize = 0;
    assert(r@ =~= leaders_along(states, o, 0));
    while i < ids.len()
        invariant
            st.wf(),
            i <= ids.len(),
            o == texts(ids@),
            states.len() == i + 1,
            states[0] == *old(st),
            states.last() == *st,
            r@ == leaders_along(states, o, i as nat),
            forall|k: int| 0 <= k < i ==> #[trigger] plain_removal_at(states, o, k),
            forall|k: int| 0 <= k < i ==> !st.sessions@.contains_key(#[trigger] o[k]),
        decreases ids.len() - i,
    {
        let ghost before = *st;
        let ghost states0 = states;
        assert(o[i as int] == ids@[i as int]@);
        if let Some(s) = st.sessions.get(ids[i].as_str()) {
            r.push(s.leader_pid);
        }
        st.remove_session(ids[i].as_str());
        proof {
            states = states0.push(*st);
            lemma_leaders_along(states, states0, o, i as nat);
            assert(states[i as int] == before);
            assert(r@ == leaders_along(states, o, (i + 1) as nat));
            let id = o[i as int];
            if before.sessions@.contains_key(id) {
                let next = crate::logind::state::promoted(before, id);
                assert(put(before.sessions@.remove(id), next, true).dom()
                    =~= before.sessions@.remove(id).dom());
            }
            assert forall|k: int| 0 <= k < i + 1 implies #[trigger] plain_removal_at(
                states,
                o,
                k,
            ) by {
                if k < i {
                    assert(plain_removal_at(states0, o, k));
                    assert(states[k] == states0[k] && states[k + 1] == states0[k + 1]);
                } else {
                    assert(states[k] == before && states[k + 1] == *st);
                }
            }
            assert forall|k: int| 0 <= k < i + 1 implies !st.sessions@.contains_key(
                #[trigger] o[k],
            ) by {
                if k < i {
                    assert(!before.sessions@.contains_key(o[k]));
                }
            }
        }
        i += 1;
    }
    assert(plain_removals(states, o));
    r
}

} // verus!
