//! Who the devices of a seat belong to.

use crate::logind::manager::{
    activation_steps, displaced_uid, front_uid, opening_steps, removal, removal_steps, Handing,
    Removal,
};
use crate::logind::state::{
    consistent, displaced, first_on_seat, promoted, put, seat_joined, seat_left, seat_ok,
    session_activated, session_added, session_ok, LoginState,
};
use crate::text::{opt_text, texts};
use vstd::prelude::*;

verus! {

/// The users that the devices of seats belong to. A seat that is missing has
/// its devices with the system.
pub type Owners = Map<Seq<char>, u32>;

/// The owners after one change of hands.
pub open spec fn handed(owners: Owners, h: Handing) -> Owners {
    match h {
        Handing::Revert(q) => owners.remove(q),
        Handing::Apply(q, u) => owners.insert(q, u),
    }
}

/// The owners after many.
pub open spec fn after(owners: Owners, steps: Seq<Handing>) -> Owners
    decreases steps.len(),
{
    if steps.len() == 0 {
        owners
    } else {
        handed(after(owners, steps.drop_last()), steps.last())
    }
}

/// The owner of the devices of a seat.
pub open spec fn owner(owners: Owners, q: Seq<char>) -> Option<u32> {
    if owners.contains_key(q) {
        Some(owners[q])
    } else {
        None
    }
}

/// Whether the devices of every seat belong to the user in the foreground.
pub open spec fn follows(owners: Owners, st: LoginState) -> bool {
    forall|q: Seq<char>| #[trigger]
        st.seats@.contains_key(q) ==> owner(owners, q) == front_uid(st, Some(q))
}

proof fn lemma_after_one(owners: Owners, h: Handing)
    ensures
        after(owners, seq![h]) == handed(owners, h),
{
    assert(seq![h].drop_last() =~= Seq::<Handing>::empty());
    assert(after(owners, seq![h].drop_last()) == owners);
}

proof fn lemma_after_two(owners: Owners, a: Handing, b: Handing)
    ensures
        after(owners, seq![a, b]) == handed(handed(owners, a), b),
{
    assert(seq![a, b].drop_last() =~= seq![a]);
    lemma_after_one(owners, a);
}

/// Opening a session keeps the devices with the user in the foreground.
pub proof fn devices_follow_opening(
    owners: Owners,
    pre: LoginState,
    post: LoginState,
    id: Seq<char>,
)
    requires
        follows(owners, pre),
        session_added(pre, post, id),
        !pre.sessions@.contains_key(id),
        consistent(pre),
    ensures
        follows(
            after(
                owners,
                opening_steps(
                    opt_text(post.sessions@[id].seat),
                    post.sessions@[id].active,
                    post.sessions@[id].uid,
                ),
            ),
            post,
        ),
{
    let s = post.sessions@[id];
    let seat = opt_text(s.seat);
    let steps = opening_steps(seat, s.active, s.uid);
    let owners1 = after(owners, steps);
    if let Some(q) = seat {
        if s.active {
            lemma_after_one(owners, Handing::Apply(q, s.uid));
        }
    }
    assert forall|q: Seq<char>| #[trigger] post.seats@.contains_key(q) implies owner(owners1, q)
        == front_uid(post, Some(q)) by {
        assert(pre.seats@.contains_key(q));
        assert(owner(owners, q) == front_uid(pre, Some(q)));
        assert(seat_ok(pre, q));
        if let Some(a) = opt_text(pre.seats@[q].active_session) {
            assert(texts(pre.seats@[q].sessions@).contains(a));
            assert(pre.sessions@.contains_key(a));
            assert(post.sessions@[a] == pre.sessions@[a]);
        }
        if seat == Some(q) {
            assert(seat_joined(
                pre.seats@[q],
                post.seats@[q],
                id,
                first_on_seat(pre.seats@, seat),
            ));
        }
    }
}

proof fn lemma_uid_kept(
    m: crate::logind::state::Sessions,
    id: Option<Seq<char>>,
    front: bool,
    k: Seq<char>,
)
    ensures
        put(m, id, front).contains_key(k) == m.contains_key(k),
        m.contains_key(k) ==> put(m, id, front)[k].uid == m[k].uid,
{
}

/// Bringing a session to the foreground hands the devices of its seat to its
/// user.
pub proof fn devices_follow_activation(
    owners: Owners,
    pre: LoginState,
    post: LoginState,
    id: Seq<char>,
)
    requires
        follows(owners, pre),
        session_activated(pre, post, id),
        pre.sessions@.contains_key(id),
    ensures
        follows(after(owners, activation_steps(pre, id)), post),
{
    let s = pre.sessions@[id];
    let seat = opt_text(s.seat);
    let o = displaced_uid(pre, id);
    let steps = activation_steps(pre, id);
    let owners1 = after(owners, steps);
    if let Some(q) = seat {
        let give = Handing::Apply(q, s.uid);
        if o is Some && Some(s.uid) != o {
            assert(steps =~= seq![Handing::Revert(q), give]);
            lemma_after_two(owners, Handing::Revert(q), give);
        } else {
            assert(steps =~= seq![give]);
            lemma_after_one(owners, give);
        }
    } else {
        assert(steps =~= Seq::<Handing>::empty());
    }
    assert forall|q: Seq<char>| #[trigger] post.seats@.contains_key(q) implies owner(owners1, q)
        == front_uid(post, Some(q)) by {
        assert(pre.seats@.contains_key(q));
        assert(owner(owners, q) == front_uid(pre, Some(q)));
        if s.seat is Some {
            let mid = put(pre.sessions@, displaced(pre, id), false);
            lemma_uid_kept(pre.sessions@, displaced(pre, id), false, id);
            lemma_uid_kept(mid, Some(id), true, id);
            if let Some(a) = opt_text(pre.seats@[q].active_session) {
                lemma_uid_kept(pre.sessions@, displaced(pre, id), false, a);
                lemma_uid_kept(mid, Some(id), true, a);
            }
            if seat == Some(q) {
                assert(opt_text(post.seats@[q].active_session) == Some(id));
            }
        }
    }
}

/// Removing a session takes the devices of its seat from its user, and gives
/// them to the user whose session comes to the foreground in its place.
pub proof fn devices_follow_removal(
    owners: Owners,
    pre: LoginState,
    post: LoginState,
    id: Seq<char>,
    r: Removal,
)
    requires
        follows(owners, pre),
        removal(pre, post, id, Some(r)),
        consistent(pre),
    ensures
        follows(after(owners, crate::logind::manager::handings(r.acl@)), post),
{
    let p = LoginState { pending_user_cleanups: post.pending_user_cleanups, ..pre };
    let s = pre.sessions@[id];
    let seat = opt_text(s.seat);
    let next = front_uid(post, seat);
    let steps = removal_steps(seat, s.active, s.uid, next);
    let owners1 = after(owners, steps);
    assert(session_ok(pre, id));
    if let Some(q) = seat {
        if s.active {
            if next == Some(s.uid) {
            } else if let Some(n) = next {
                lemma_after_two(owners, Handing::Revert(q), Handing::Apply(q, n));
            } else {
                lemma_after_one(owners, Handing::Revert(q));
            }
        }
    }
    assert forall|q: Seq<char>| #[trigger] post.seats@.contains_key(q) implies owner(owners1, q)
        == front_uid(post, Some(q)) by {
        assert(pre.seats@.contains_key(q));
        assert(owner(owners, q) == front_uid(pre, Some(q)));
        assert(seat_ok(pre, q));
        if seat == Some(q) {
            assert(seat_left(pre.seats@[q], post.seats@[q], id));
            if s.active {
                assert(opt_text(pre.seats@[q].active_session) == Some(id));
                assert(front_uid(pre, Some(q)) == Some(s.uid));
            } else {
                if let Some(a) = opt_text(pre.seats@[q].active_session) {
                    assert(a != id);
                    lemma_uid_kept(pre.sessions@.remove(id), promoted(p, id), true, a);
                }
            }
        } else {
            if let Some(a) = opt_text(pre.seats@[q].active_session) {
                assert(texts(pre.seats@[q].sessions@).contains(a));
                assert(opt_text(pre.sessions@[a].seat) == Some(q));
                assert(a != id);
                lemma_uid_kept(pre.sessions@.remove(id), promoted(p, id), true, a);
            }
        }
    }
}

} // verus!
