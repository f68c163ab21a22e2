//! Who is logged in: sessions, seats, users and inhibitors.

use crate::ids::IdMap;
use crate::logind::config::Config;
use crate::logind::inhibitor::Inhibitor;
use crate::names::NameMap;
use crate::text::num::{dec, u64_text};
use crate::text::scan::has_part;
use crate::text::{clone_opt, opt_text, owned, str_eq, texts};
use crate::time::{Duration, Instant};
use std::collections::HashMap;
use vstd::prelude::*;

verus! {

/// The name of a session.
pub type SessionId = String;

/// The name of a seat.
pub type SeatId = String;

/// The state of a session.
#[derive(Debug, Clone, Copy, PartialEq, Eq, Structural)]
pub enum SessionState {
    /// Registered, but not in the foreground.
    Online,
    /// In the foreground of its seat.
    Active,
    /// Being torn down.
    Closing,
}

impl SessionState {
    /// The name of the state.
    pub open spec fn name(self) -> Seq<char> {
        match self {
            SessionState::Online => "online"@,
            SessionState::Active => "active"@,
            SessionState::Closing => "closing"@,
        }
    }

    /// The name of the state.
    pub fn as_str(&self) -> (r: &'static str)
        ensures
            r@ == self.name(),
    {
        match self {
            SessionState::Online => "online",
            SessionState::Active => "active",
            SessionState::Closing => "closing",
        }
    }
}

/// A session.
#[derive(Debug)]
pub struct Session {
    pub id: SessionId,
    pub uid: u32,
    pub user_name: String,
    pub seat: Option<SeatId>,
    pub tty: Option<String>,
    pub display: Option<String>,
    pub session_type: String,
    pub class: String,
    pub desktop: String,
    pub state: SessionState,
    pub active: bool,
    pub leader_pid: u32,
    pub vtnr: u32,
    pub remote: bool,
    pub remote_host: String,
    pub remote_user: String,
    pub service: String,
    /// The bus name of the session controller.
    pub controller: Option<String>,
    /// The devices that the controller has open, by major and minor number.
    pub devices: Vec<(u32, u32)>,
    pub idle_hint: bool,
    pub idle_since_usec: u64,
    pub idle_since_monotonic: u64,
    pub locked_hint: bool,
    pub created_realtime_usec: u64,
    pub created_monotonic: Instant,
}

/// A seat.
#[derive(Debug)]
pub struct Seat {
    pub id: SeatId,
    pub sessions: Vec<SessionId>,
    pub active_session: Option<SessionId>,
    pub can_graphical: bool,
    pub can_tty: bool,
    pub idle_hint: bool,
    pub idle_since_usec: u64,
    pub idle_since_monotonic: u64,
}

/// The state of a user.
#[derive(Debug, Clone, Copy, PartialEq, Eq, Structural)]
pub enum UserState {
    /// Logged in, but with no session in the foreground.
    Online,
    /// With a session in the foreground.
    Active,
    /// Without sessions, but not gone.
    Lingering,
    /// About to be gone.
    Closing,
}

impl UserState {
    /// The name of the state.
    pub open spec fn name(self) -> Seq<char> {
        match self {
            UserState::Online => "online"@,
            UserState::Active => "active"@,
            UserState::Lingering => "lingering"@,
            UserState::Closing => "closing"@,
        }
    }

    /// The name of the state.
    pub fn as_str(&self) -> (r: &'static str)
        ensures
            r@ == self.name(),
    {
        match self {
            UserState::Online => "online",
            UserState::Active => "active",
            UserState::Lingering => "lingering",
            UserState::Closing => "closing",
        }
    }
}

/// A user.
#[derive(Debug)]
pub struct User {
    pub uid: u32,
    pub name: String,
    pub sessions: Vec<SessionId>,
    pub display_session: Option<SessionId>,
    pub state: UserState,
    pub idle_hint: bool,
    pub idle_since_usec: u64,
    pub idle_since_monotonic: u64,
}

/// Numbers for sessions and inhibitors.
#[derive(Debug)]
pub struct Counters {
    pub next_session: u64,
    pub next_cookie: u64,
}

/// Gives out the name of a new session.
pub fn next_session_id(counters: &mut Counters) -> (r: SessionId)
    ensures
        r@ == dec(old(counters).next_session as nat),
        final(counters).next_session == (old(counters).next_session + 1)
            % 0x1_0000_0000_0000_0000,
        final(counters).next_cookie == old(counters).next_cookie,
{
    let n = counters.next_session;
    counters.next_session = n.wrapping_add(1);
    u64_text(n)
}

/// Gives out the number of a new inhibitor.
pub fn next_inhibitor_cookie(counters: &mut Counters) -> (r: u64)
    ensures
        r == old(counters).next_cookie,
        final(counters).next_cookie == (old(counters).next_cookie + 1) % 0x1_0000_0000_0000_0000,
        final(counters).next_session == old(counters).next_session,
{
    let n = counters.next_cookie;
    counters.next_cookie = n.wrapping_add(1);
    n
}

/// The microseconds in a time since the epoch; zero before the epoch. Beyond
/// 64 bits they start again from zero.
pub fn now_realtime_usec(since_epoch: Option<Duration>) -> (r: u64)
    ensures
        r == match since_epoch {
            Some(d) => (d.total() / 1000) % 0x1_0000_0000_0000_0000,
            None => 0,
        },
{
    match since_epoch {
        Some(d) => {
            let us = d.as_nanos() / 1000;
            (us % 0x1_0000_0000_0000_0000) as u64
        },
        None => 0,
    }
}

/// Who is logged in.
#[derive(Debug)]
pub struct LoginState {
    pub sessions: NameMap<Session>,
    pub seats: NameMap<Seat>,
    pub users: IdMap<User>,
    pub pid_to_session: HashMap<u32, SessionId>,
    pub inhibitors: Vec<Inhibitor>,
    pub config: Config,
    /// The users whose runtime directory is about to be removed.
    pub pending_user_cleanups: IdMap<()>,
    pub counters: Counters,
}

/// `s` without `x`.
pub open spec fn without(s: Seq<Seq<char>>, x: Seq<char>) -> Seq<Seq<char>>
    decreases s.len(),
{
    if s.len() == 0 {
        Seq::empty()
    } else if s.last() == x {
        without(s.drop_last(), x)
    } else {
        without(s.drop_last(), x).push(s.last())
    }
}

/// What `without` keeps.
pub proof fn lemma_without(s: Seq<Seq<char>>, x: Seq<char>)
    ensures
        forall|y: Seq<char>| #[trigger] without(s, x).contains(y) <==> s.contains(y) && y != x,
        s.no_duplicates() ==> without(s, x).no_duplicates(),
    decreases s.len(),
{
    if s.len() > 0 {
        let t = s.drop_last();
        lemma_without(t, x);
        assert(s =~= t.push(s.last()));
        assert forall|y: Seq<char>| #[trigger] without(s, x).contains(y) <==> s.contains(y) && y != x by {
            vstd::seq_lib::lemma_seq_contains_after_push(t, s.last(), y);
            vstd::seq_lib::lemma_seq_contains_after_push(without(t, x), s.last(), y);
            assert(without(t, x).contains(y) <==> t.contains(y) && y != x);
        }
        if s.no_duplicates() {
            assert(!t.contains(s.last())) by {
                if t.contains(s.last()) {
                    let k = choose|k: int| 0 <= k < t.len() && t[k] == s.last();
                    assert(s[k] == s[s.len() - 1]);
                }
            }
            assert(t.no_duplicates()) by {
                assert forall|i: int, j: int| 0 <= i < t.len() && 0 <= j < t.len() && i != j implies t[i]
                    != t[j] by {
                    assert(t[i] == s[i] && t[j] == s[j]);
                }
            }
            let w = without(t, x);
            assert(!w.contains(s.last()));
            if s.last() != x {
                assert(without(s, x) == w.push(s.last()));
                assert forall|i: int, j: int| 0 <= i < w.len() + 1 && 0 <= j < w.len() + 1 && i
                    != j implies w.push(s.last())[i] != w.push(s.last())[j] by {
                    if i < w.len() {
                        assert(w.contains(w[i]));
                    }
                    if j < w.len() {
                        assert(w.contains(w[j]));
                    }
                }
            }
        }
    }
}

/// The first of `s`, where there is one.
pub open spec fn first_of(s: Seq<Seq<char>>) -> Option<Seq<char>> {
    if s.len() > 0 {
        Some(s[0])
    } else {
        None
    }
}

/// Keeps all strings but `x`.
fn retain_not(v: &Vec<String>, x: &str) -> (r: Vec<String>)
    ensures
        texts(r@) == without(texts(v@), x@),
{
    let mut r: Vec<String> = Vec::new();
    let ghost o = texts(v@);
    let mut i: usize = 0;
    assert(texts(r@) =~= without(o.take(0), x@));
    while i < v.len()
        invariant
            i <= v.len(),
            o == texts(v@),
            texts(r@) == without(o.take(i as int), x@),
        decreases v.len() - i,
    {
        let ghost before = texts(r@);
        assert(o.take(i + 1).drop_last() =~= o.take(i as int));
        assert(o.take(i + 1).last() == v@[i as int]@);
        if !str_eq(v[i].as_str(), x) {
            r.push(v[i].clone());
            assert(texts(r@) =~= before.push(v@[i as int]@));
        }
        i += 1;
    }
    assert(o.take(o.len() as int) =~= o);
    r
}

fn first_string(v: &Vec<String>) -> (r: Option<String>)
    ensures
        opt_text(r) == first_of(texts(v@)),
{
    if v.len() > 0 {
        Some(v[0].clone())
    } else {
        None
    }
}

fn opt_is(s: &Option<String>, x: &str) -> (r: bool)
    ensures
        r == (opt_text(*s) == Some(x@)),
{
    match s {
        Some(t) => str_eq(t.as_str(), x),
        None => false,
    }
}

/// The sessions by name.
pub type Sessions = Map<Seq<char>, Session>;

/// The seats by name.
pub type Seats = Map<Seq<char>, Seat>;

/// Whether the next session on a seat comes to the foreground: where it is on
/// none, or the seat has none in the foreground.
pub open spec fn first_on_seat(seats: Seats, seat: Option<Seq<char>>) -> bool {
    match seat {
        Some(q) => !seats.contains_key(q) || seats[q].active_session is None,
        None => true,
    }
}

/// Whether `post` is `pre` with one more session.
pub open spec fn seat_joined(pre: Seat, post: Seat, id: Seq<char>, front: bool) -> bool {
    &&& texts(post.sessions@) == texts(pre.sessions@).push(id)
    &&& opt_text(post.active_session) == if front {
        Some(id)
    } else {
        opt_text(pre.active_session)
    }
    &&& post == (Seat {
        sessions: post.sessions,
        active_session: post.active_session,
        ..pre
    })
}

/// Whether `post` are the users after a session of `uid` was added to `pre`.
pub open spec fn user_joined(
    pre: Map<u32, User>,
    post: Map<u32, User>,
    uid: u32,
    name: Seq<char>,
    id: Seq<char>,
    front: bool,
) -> bool {
    &&& post.dom() == pre.dom().insert(uid)
    &&& forall|u: u32| pre.contains_key(u) && u != uid ==> #[trigger] post[u] == pre[u]
    &&& ({
        let u = post[uid];
        if pre.contains_key(uid) {
            &&& texts(u.sessions@) == texts(pre[uid].sessions@).push(id)
            &&& opt_text(u.display_session) == if front {
                Some(id)
            } else {
                opt_text(pre[uid].display_session)
            }
            &&& u == (User {
                sessions: u.sessions,
                display_session: u.display_session,
                state: if front {
                    UserState::Active
                } else {
                    pre[uid].state
                },
                ..pre[uid]
            })
        } else {
            &&& u.uid == uid
            &&& u.name@ == name
            &&& texts(u.sessions@) == seq![id]
            &&& opt_text(u.display_session) == if front {
                Some(id)
            } else {
                None
            }
            &&& u.state == if front {
                UserState::Active
            } else {
                UserState::Online
            }
            &&& !u.idle_hint
            &&& u.idle_since_usec == 0
            &&& u.idle_since_monotonic == 0
        }
    })
}

impl LoginState {
    /// The collections hold nothing twice.
    pub open spec fn wf(self) -> bool {
        &&& self.sessions.wf()
        &&& self.seats.wf()
        &&& self.users.wf()
        &&& self.pending_user_cleanups.wf()
    }

    /// Nobody is logged in.
    pub fn new() -> (r: Self)
        ensures
            r.wf(),
            r.sessions@ == Map::<Seq<char>, Session>::empty(),
            r.seats@ == Map::<Seq<char>, Seat>::empty(),
            r.users@ == Map::<u32, User>::empty(),
            r.pid_to_session@ == Map::<u32, SessionId>::empty(),
            r.inhibitors@.len() == 0,
            r.config@ == crate::logind::config::default_settings(),
            r.pending_user_cleanups@ == Map::<u32, ()>::empty(),
            r.counters.next_session == 1,
            r.counters.next_cookie == 1,
            consistent(r),
            named_by_counter(r),
    {
        Self::with_config(Config::default())
    }

    /// Nobody is logged in, under a configuration.
    pub fn with_config(config: Config) -> (r: Self)
        ensures
            r.wf(),
            r.sessions@ == Map::<Seq<char>, Session>::empty(),
            r.seats@ == Map::<Seq<char>, Seat>::empty(),
            r.users@ == Map::<u32, User>::empty(),
            r.pid_to_session@ == Map::<u32, SessionId>::empty(),
            r.inhibitors@.len() == 0,
            r.config == config,
            r.pending_user_cleanups@ == Map::<u32, ()>::empty(),
            r.counters.next_session == 1,
            r.counters.next_cookie == 1,
            consistent(r),
            named_by_counter(r),
    {
        let r = LoginState {
            sessions: NameMap::new(),
            seats: NameMap::new(),
            users: IdMap::new(),
            pid_to_session: HashMap::new(),
            inhibitors: Vec::new(),
            config,
            pending_user_cleanups: IdMap::new(),
            counters: Counters { next_session: 1, next_cookie: 1 },
        };
        assert(r.pid_to_session@ =~= Map::<u32, SessionId>::empty());
        r
    }

    /// Adds the seat that every machine has.
    pub fn create_seat0(&mut self)
        requires
            old(self).wf(),
        ensures
            final(self).wf(),
            seat0_added(*old(self), *final(self)),
            consistent(*old(self)) && nobody_on(*old(self), "seat0"@) ==> consistent(*final(self)),
            named_by_counter(*old(self)) ==> named_by_counter(*final(self)),
    {
        let seat = Seat {
            id: owned("seat0"),
            sessions: Vec::new(),
            active_session: None,
            can_graphical: true,
            can_tty: true,
            idle_hint: false,
            idle_since_usec: 0,
            idle_since_monotonic: 0,
        };
        self.seats.insert(owned("seat0"), seat);
        proof {
            assert(self.seats@.dom() =~= old(self).seats@.dom().insert("seat0"@));
            if consistent(*old(self)) && nobody_on(*old(self), "seat0"@) {
                lemma_seat0_keeps_consistent(*old(self), *self);
            }
        }
    }

    /// Registers a session, and gives its name. It comes to the foreground
    /// where its seat has no session there.
    pub fn create_session(
        &mut self,
        uid: u32,
        user_name: String,
        leader_pid: u32,
        service: String,
        session_type: String,
        class: String,
        desktop: String,
        seat_id: Option<String>,
        vtnr: u32,
        tty: Option<String>,
        display: Option<String>,
        remote: bool,
        remote_user: String,
        remote_host: String,
        now_usec: u64,
        now: Instant,
    ) -> (r: SessionId)
        requires
            old(self).wf(),
        ensures
            final(self).wf(),
            r@ == dec(old(self).counters.next_session as nat),
            session_added(*old(self), *final(self), r@),
            ({
                let s = final(self).sessions@[r@];
                &&& s.uid == uid
                &&& s.user_name == user_name
                &&& s.seat == seat_id
                &&& s.tty == tty
                &&& s.display == display
                &&& s.session_type == session_type
                &&& s.class == class
                &&& s.desktop == desktop
                &&& s.leader_pid == leader_pid
                &&& s.vtnr == vtnr
                &&& s.remote == remote
                &&& s.remote_host == remote_host
                &&& s.remote_user == remote_user
                &&& s.service == service
                &&& s.controller is None
                &&& s.devices@.len() == 0
                &&& !s.idle_hint
                &&& s.idle_since_usec == 0
                &&& s.idle_since_monotonic == 0
                &&& !s.locked_hint
                &&& s.created_realtime_usec == now_usec
                &&& s.created_monotonic == now
            }),
    {
        let ghost pre = *self;
        let id = next_session_id(&mut self.counters);
        let front = match &seat_id {
            Some(q) => match self.seats.get(q.as_str()) {
                Some(s) => s.active_session.is_none(),
                None => true,
            },
            None => true,
        };
        assert(front == first_on_seat(pre.seats@, opt_text(seat_id)));
        self.pid_to_session.insert(leader_pid, id.clone());
        assert(self.pid_to_session@ =~= pre.pid_to_session@.insert(leader_pid, id));
        if let Some(q) = &seat_id {
            if let Some(seat) = self.seats.get_mut(q.as_str()) {
                let ghost before = *seat;
                seat.sessions.push(id.clone());
                if front {
                    seat.active_session = Some(id.clone());
                }
                assert(texts(seat.sessions@) =~= texts(before.sessions@).push(id@));
            }
        }
        proof {
            if let Some(q) = opt_text(seat_id) {
                if pre.seats@.contains_key(q) {
                    assert(self.seats@.dom() =~= pre.seats@.dom());
                } else {
                    assert(self.seats@ =~= pre.seats@);
                }
            }
        }
        let ghost users0 = self.users@;
        if !self.users.contains_key(uid) {
            let user = User {
                uid,
                name: user_name.clone(),
                sessions: Vec::new(),
                display_session: None,
                state: UserState::Online,
                idle_hint: false,
                idle_since_usec: 0,
                idle_since_monotonic: 0,
            };
            assert(texts(user.sessions@) =~= Seq::<Seq<char>>::empty());
            self.users.insert(uid, user);
        }
        let ghost users1 = self.users@;
        if let Some(user) = self.users.get_mut(uid) {
            let ghost before = *user;
            user.sessions.push(id.clone());
            if front {
                user.state = UserState::Active;
                user.display_session = Some(id.clone());
            }
            assert(texts(user.sessions@) =~= texts(before.sessions@).push(id@));
        }
        proof {
            assert(self.users@.dom() =~= users0.dom().insert(uid));
            assert(texts(self.users@[uid].sessions@) =~= texts(users1[uid].sessions@).push(id@));
            if !users0.contains_key(uid) {
                assert(texts(self.users@[uid].sessions@) =~= seq![id@]);
            }
        }
        let session = Session {
            id: id.clone(),
            uid,
            user_name,
            seat: seat_id,
            tty,
            display,
            session_type,
            class,
            desktop,
            state: if front {
                SessionState::Active
            } else {
                SessionState::Online
            },
            active: front,
            leader_pid,
            vtnr,
            remote,
            remote_host,
            remote_user,
            service,
            controller: None,
            devices: Vec::new(),
            idle_hint: false,
            idle_since_usec: 0,
            idle_since_monotonic: 0,
            locked_hint: false,
            created_realtime_usec: now_usec,
            created_monotonic: now,
        };
        self.sessions.insert(id.clone(), session);
        assert(self.sessions@.dom() =~= pre.sessions@.dom().insert(id@));
        id
    }
}

/// What registering the session `id`, as it stands in `post`, does.
pub open spec fn session_added(pre: LoginState, post: LoginState, id: Seq<char>) -> bool {
    let s = post.sessions@[id];
    let seat = opt_text(s.seat);
    &&& post.sessions@ == pre.sessions@.insert(id, s)
    &&& s.id@ == id
    &&& s.active == first_on_seat(pre.seats@, seat)
    &&& s.state == if s.active {
        SessionState::Active
    } else {
        SessionState::Online
    }
    &&& post.pid_to_session@.dom() == pre.pid_to_session@.dom().insert(s.leader_pid)
    &&& post.pid_to_session@[s.leader_pid]@ == id
    &&& forall|p: u32| pre.pid_to_session@.contains_key(p) && p != s.leader_pid
        ==> #[trigger] post.pid_to_session@[p] == pre.pid_to_session@[p]
    &&& post.seats@.dom() == pre.seats@.dom()
    &&& forall|q: Seq<char>| #[trigger]
        pre.seats@.contains_key(q) ==> if seat == Some(q) {
            seat_joined(pre.seats@[q], post.seats@[q], id, first_on_seat(pre.seats@, seat))
        } else {
            post.seats@[q] == pre.seats@[q]
        }
    &&& user_joined(
        pre.users@,
        post.users@,
        s.uid,
        s.user_name@,
        id,
        first_on_seat(pre.seats@, seat),
    )
    &&& post.inhibitors == pre.inhibitors
    &&& post.config == pre.config
    &&& post.pending_user_cleanups == pre.pending_user_cleanups
    &&& post.counters.next_session == (pre.counters.next_session + 1) % 0x1_0000_0000_0000_0000
    &&& post.counters.next_cookie == pre.counters.next_cookie
}

/// Whether `post` is `pre` without a session.
pub open spec fn seat_left(pre: Seat, post: Seat, id: Seq<char>) -> bool {
    let rest = without(texts(pre.sessions@), id);
    &&& texts(post.sessions@) == rest
    &&& opt_text(post.active_session) == if opt_text(pre.active_session) == Some(id) {
        first_of(rest)
    } else {
        opt_text(pre.active_session)
    }
    &&& post == (Seat {
        sessions: post.sessions,
        active_session: post.active_session,
        ..pre
    })
}

/// The session that comes to the foreground when `id` is removed.
pub open spec fn promoted(pre: LoginState, id: Seq<char>) -> Option<Seq<char>> {
    match opt_text(pre.sessions@[id].seat) {
        Some(q) if pre.seats@.contains_key(q) && opt_text(pre.seats@[q].active_session) == Some(
            id,
        ) => first_of(without(texts(pre.seats@[q].sessions@), id)),
        _ => None,
    }
}

/// The sessions after `id`, where it is one, came to the foreground or left
/// it.
pub open spec fn put(sessions: Sessions, id: Option<Seq<char>>, front: bool) -> Sessions {
    match id {
        Some(k) if sessions.contains_key(k) => sessions.insert(
            k,
            Session {
                active: front,
                state: if front {
                    SessionState::Active
                } else {
                    SessionState::Online
                },
                ..sessions[k]
            },
        ),
        _ => sessions,
    }
}

/// Whether one of `ids` is a session in the foreground.
pub open spec fn any_active(sessions: Sessions, ids: Seq<Seq<char>>) -> bool {
    exists|i: int|
        0 <= i < ids.len() && sessions.contains_key(#[trigger] ids[i])
            && sessions[ids[i]].state == SessionState::Active
}

/// Whether `post` is `pre` without a session, with others left.
pub open spec fn user_left(pre: User, post: User, id: Seq<char>, sessions: Sessions) -> bool {
    let rest = without(texts(pre.sessions@), id);
    &&& texts(post.sessions@) == rest
    &&& opt_text(post.display_session) == if opt_text(pre.display_session) == Some(id) {
        first_of(rest)
    } else {
        opt_text(pre.display_session)
    }
    &&& post == (User {
        sessions: post.sessions,
        display_session: post.display_session,
        state: if any_active(sessions, rest) {
            UserState::Active
        } else {
            UserState::Online
        },
        ..pre
    })
}

/// What removing a session does. A session that is not there is passed over.
pub open spec fn session_removed(pre: LoginState, post: LoginState, id: Seq<char>) -> bool {
    if !pre.sessions@.contains_key(id) {
        &&& post.sessions@ == pre.sessions@
        &&& post.seats@ == pre.seats@
        &&& post.users@ == pre.users@
        &&& post.pid_to_session@ == pre.pid_to_session@
        &&& rest_kept(pre, post)
    } else {
        let s = pre.sessions@[id];
        &&& post.sessions@ == put(pre.sessions@.remove(id), promoted(pre, id), true)
        &&& post.pid_to_session@ == pre.pid_to_session@.remove(s.leader_pid)
        &&& post.seats@.dom() == pre.seats@.dom()
        &&& forall|q: Seq<char>| #[trigger]
            pre.seats@.contains_key(q) ==> if opt_text(s.seat) == Some(q) {
                seat_left(pre.seats@[q], post.seats@[q], id)
            } else {
                post.seats@[q] == pre.seats@[q]
            }
        &&& if !pre.users@.contains_key(s.uid) {
            post.users@ == pre.users@
        } else if without(texts(pre.users@[s.uid].sessions@), id).len() == 0 {
            post.users@ == pre.users@.remove(s.uid)
        } else {
            &&& post.users@ == pre.users@.insert(s.uid, post.users@[s.uid])
            &&& user_left(pre.users@[s.uid], post.users@[s.uid], id, post.sessions@)
        }
        &&& rest_kept(pre, post)
    }
}

/// What changes to sessions leave alone.
pub open spec fn rest_kept(pre: LoginState, post: LoginState) -> bool {
    &&& post.inhibitors == pre.inhibitors
    &&& post.config == pre.config
    &&& post.pending_user_cleanups == pre.pending_user_cleanups
    &&& post.counters == pre.counters
}

/// The session that leaves the foreground when `id` comes to it.
pub open spec fn displaced(pre: LoginState, id: Seq<char>) -> Option<Seq<char>> {
    match opt_text(pre.sessions@[id].seat) {
        Some(q) if pre.seats@.contains_key(q) && opt_text(pre.seats@[q].active_session) != Some(
            id,
        ) => opt_text(pre.seats@[q].active_session),
        _ => None,
    }
}

/// What bringing a session to the foreground of its seat does. A session that
/// is not there, or on no seat, is passed over.
pub open spec fn session_activated(pre: LoginState, post: LoginState, id: Seq<char>) -> bool {
    &&& post.users@ == pre.users@
    &&& post.pid_to_session@ == pre.pid_to_session@
    &&& rest_kept(pre, post)
    &&& if !pre.sessions@.contains_key(id) || pre.sessions@[id].seat is None {
        post.sessions@ == pre.sessions@ && post.seats@ == pre.seats@
    } else {
        &&& post.sessions@ == put(
            put(pre.sessions@, displaced(pre, id), false),
            Some(id),
            true,
        )
        &&& post.seats@.dom() == pre.seats@.dom()
        &&& forall|q: Seq<char>| #[trigger]
            pre.seats@.contains_key(q) ==> if opt_text(pre.sessions@[id].seat) == Some(q) {
                &&& opt_text(post.seats@[q].active_session) == Some(id)
                &&& post.seats@[q] == (Seat {
                    active_session: post.seats@[q].active_session,
                    ..pre.seats@[q]
                })
            } else {
                post.seats@[q] == pre.seats@[q]
            }
    }
}

impl LoginState {
    /// Brings a session to the foreground, or takes it from there.
    fn put_session(&mut self, id: &str, front: bool)
        requires
            old(self).wf(),
        ensures
            final(self).wf(),
            *final(self) == (LoginState { sessions: final(self).sessions, ..*old(self) }),
            final(self).sessions@ == put(old(self).sessions@, Some(id@), front),
    {
        if let Some(s) = self.sessions.get_mut(id) {
            s.active = front;
            s.state = if front {
                SessionState::Active
            } else {
                SessionState::Online
            };
        }
        proof {
            if !old(self).sessions@.contains_key(id@) {
                assert(self.sessions@ =~= old(self).sessions@);
            }
        }
    }

    /// Whether one of `ids` is a session in the foreground.
    fn has_active(&self, ids: &Vec<String>) -> (r: bool)
        requires
            self.wf(),
        ensures
            r == any_active(self.sessions@, texts(ids@)),
    {
        let ghost o = texts(ids@);
        let mut i: usize = 0;
        while i < ids.len()
            invariant
                i <= ids.len(),
                self.wf(),
                o == texts(ids@),
                forall|k: int|
                    0 <= k < i ==> !(self.sessions@.contains_key(#[trigger] o[k])
                        && self.sessions@[o[k]].state == SessionState::Active),
            decreases ids.len() - i,
        {
            assert(o[i as int] == ids@[i as int]@);
            if let Some(s) = self.sessions.get(ids[i].as_str()) {
                if s.state == SessionState::Active {
                    return true;
                }
            }
            i += 1;
        }
        false
    }

    /// Removes a session and all that refers to it. Where it was in the
    /// foreground, the first that is left on its seat comes there.
    pub fn remove_session(&mut self, session_id: &str)
        requires
            old(self).wf(),
        ensures
            final(self).wf(),
            session_removed(*old(self), *final(self), session_id@),
    {
        let ghost pre = *self;
        let session = match self.sessions.remove(session_id) {
            Some(s) => s,
            None => {
                assert(self.sessions@ =~= pre.sessions@);
                return;
            },
        };
        self.pid_to_session.remove(&session.leader_pid);
        let mut next: Option<String> = None;
        if let Some(q) = &session.seat {
            if let Some(seat) = self.seats.get_mut(q.as_str()) {
                let rest = retain_not(&seat.sessions, session_id);
                if opt_is(&seat.active_session, session_id) {
                    next = first_string(&rest);
                    seat.active_session = first_string(&rest);
                }
                seat.sessions = rest;
            }
        }
        proof {
            assert(opt_text(next) == promoted(pre, session_id@));
            assert(self.seats@.dom() =~= pre.seats@.dom());
        }
        if let Some(n) = &next {
            self.put_session(n.as_str(), true);
        }
        let uid = session.uid;
        let ghost mid = *self;
        let mut left: Vec<String> = Vec::new();
        let mut known = false;
        if let Some(user) = self.users.get(uid) {
            left = retain_not(&user.sessions, session_id);
            known = true;
        }
        if known {
            if left.len() == 0 {
                let u = self.users.remove(uid);
                assert(texts(left@).len() == 0);
            } else {
                let active = self.has_active(&left);
                if let Some(user) = self.users.get_mut(uid) {
                    if opt_is(&user.display_session, session_id) {
                        user.display_session = first_string(&left);
                    }
                    user.sessions = left;
                    user.state = if active {
                        UserState::Active
                    } else {
                        UserState::Online
                    };
                }
                assert(self.users@ =~= pre.users@.insert(uid, self.users@[uid]));
            }
        }
    }

    /// The session that a process leads.
    pub fn session_for_pid(&self, pid: u32) -> (r: Option<&str>)
        ensures
            match r {
                Some(s) => self.pid_to_session@.contains_key(pid) && s@
                    == self.pid_to_session@[pid]@,
                None => !self.pid_to_session@.contains_key(pid),
            },
    {
        match self.pid_to_session.get(&pid) {
            Some(s) => Some(s.as_str()),
            None => None,
        }
    }

    /// Brings a session to the foreground of its seat.
    pub fn activate_session(&mut self, session_id: &str)
        requires
            old(self).wf(),
        ensures
            final(self).wf(),
            session_activated(*old(self), *final(self), session_id@),
    {
        let ghost pre = *self;
        let seat_id = match self.sessions.get(session_id) {
            Some(s) => match &s.seat {
                Some(q) => q.clone(),
                None => {
                    return;
                },
            },
            None => {
                return;
            },
        };
        let mut old_id: Option<String> = None;
        if let Some(seat) = self.seats.get(seat_id.as_str()) {
            if !opt_is(&seat.active_session, session_id) {
                old_id = clone_opt(&seat.active_session);
            }
        }
        assert(opt_text(old_id) == displaced(pre, session_id@));
        if let Some(o) = &old_id {
            self.put_session(o.as_str(), false);
        }
        self.put_session(session_id, true);
        if let Some(seat) = self.seats.get_mut(seat_id.as_str()) {
            seat.active_session = Some(owned(session_id));
        }
        assert(self.seats@.dom() =~= pre.seats@.dom());
    }

    /// The locks of a mode whose text mentions `what`.
    fn mentioning(&self, what: &str, mode: &str) -> (r: Vec<&Inhibitor>)
        ensures
            r@.map_values(|i: &Inhibitor| *i) == selected(self.inhibitors@, what@, mode@),
    {
        let mut r: Vec<&Inhibitor> = Vec::new();
        let ghost all = self.inhibitors@;
        let mut i: usize = 0;
        assert(r@.map_values(|i: &Inhibitor| *i) =~= Seq::<Inhibitor>::empty());
        while i < self.inhibitors.len()
            invariant
                i <= self.inhibitors.len(),
                all == self.inhibitors@,
                r@.map_values(|i: &Inhibitor| *i) == selected(
                    all.take(i as int),
                    what@,
                    mode@,
                ),
            decreases self.inhibitors.len() - i,
        {
            let inh = &self.inhibitors[i];
            let ghost before = r@.map_values(|i: &Inhibitor| *i);
            assert(all.take(i + 1).drop_last() =~= all.take(i as int));
            assert(all.take(i + 1).last() == *inh);
            if inh.mentions(what) && inh.has_mode(mode) {
                r.push(inh);
                assert(r@.map_values(|i: &Inhibitor| *i) =~= before.push(*inh));
            }
            i += 1;
        }
        assert(all.take(all.len() as int) =~= all);
        r
    }

    /// The locks that block `what`.
    pub fn active_block_inhibitors(&self, what: &str) -> (r: Vec<&Inhibitor>)
        ensures
            r@.map_values(|i: &Inhibitor| *i) == selected(self.inhibitors@, what@, "block"@),
    {
        self.mentioning(what, "block")
    }

    /// The locks that delay `what`.
    pub fn active_delay_inhibitors(&self, what: &str) -> (r: Vec<&Inhibitor>)
        ensures
            r@.map_values(|i: &Inhibitor| *i) == selected(self.inhibitors@, what@, "delay"@),
    {
        self.mentioning(what, "delay")
    }
}

/// The locks of a mode whose text mentions `what`, in order.
pub open spec fn selected(v: Seq<Inhibitor>, what: Seq<char>, mode: Seq<char>) -> Seq<Inhibitor>
    decreases v.len(),
{
    if v.len() == 0 {
        Seq::empty()
    } else {
        let rest = selected(v.drop_last(), what, mode);
        if has_part(v.last().what@, what) && v.last().mode@ == mode {
            rest.push(v.last())
        } else {
            rest
        }
    }
}

/// Whether a session fits its user and its seat: it is in the foreground just
/// where its seat says so, or where it is on no known seat.
pub open spec fn session_ok(st: LoginState, k: Seq<char>) -> bool {
    let s = st.sessions@[k];
    &&& s.id@ == k
    &&& s.active == (s.state == SessionState::Active)
    &&& st.users@.contains_key(s.uid)
    &&& texts(st.users@[s.uid].sessions@).contains(k)
    &&& match opt_text(s.seat) {
        Some(q) if st.seats@.contains_key(q) => {
            &&& texts(st.seats@[q].sessions@).contains(k)
            &&& s.active <==> opt_text(st.seats@[q].active_session) == Some(k)
        },
        _ => s.active,
    }
}

/// Whether a seat fits its sessions: each is there and on the seat, none is
/// listed twice, and one of them is in the foreground where there is one.
pub open spec fn seat_ok(st: LoginState, q: Seq<char>) -> bool {
    let s = st.seats@[q];
    &&& s.id@ == q
    &&& texts(s.sessions@).no_duplicates()
    &&& forall|x: Seq<char>| #[trigger]
        texts(s.sessions@).contains(x) ==> st.sessions@.contains_key(x) && opt_text(
            st.sessions@[x].seat,
        ) == Some(q)
    &&& match opt_text(s.active_session) {
        Some(a) => texts(s.sessions@).contains(a),
        None => s.sessions@.len() == 0,
    }
}

/// Whether a user fits their sessions: there is one, each is there and theirs,
/// none is listed twice, and the one that is displayed is one of them.
pub open spec fn user_ok(st: LoginState, u: u32) -> bool {
    let user = st.users@[u];
    &&& user.uid == u
    &&& texts(user.sessions@).no_duplicates()
    &&& user.sessions@.len() > 0
    &&& forall|x: Seq<char>| #[trigger]
        texts(user.sessions@).contains(x) ==> st.sessions@.contains_key(x)
            && st.sessions@[x].uid == u
    &&& match opt_text(user.display_session) {
        Some(d) => texts(user.sessions@).contains(d),
        None => true,
    }
}

/// Whether a process leads the session that it is said to lead.
pub open spec fn leader_ok(st: LoginState, p: u32) -> bool {
    let k = st.pid_to_session@[p]@;
    st.sessions@.contains_key(k) && st.sessions@[k].leader_pid == p
}

/// Whether what is held about sessions, seats and users fits together.
pub open spec fn consistent(st: LoginState) -> bool {
    &&& forall|k: Seq<char>| #[trigger] st.sessions@.contains_key(k) ==> session_ok(st, k)
    &&& forall|q: Seq<char>| #[trigger] st.seats@.contains_key(q) ==> seat_ok(st, q)
    &&& forall|u: u32| #[trigger] st.users@.contains_key(u) ==> user_ok(st, u)
    &&& forall|p: u32| #[trigger] st.pid_to_session@.contains_key(p) ==> leader_ok(st, p)
}

/// Whether no session says that it is on the seat `q`.
pub open spec fn nobody_on(st: LoginState, q: Seq<char>) -> bool {
    forall|k: Seq<char>| #[trigger]
        st.sessions@.contains_key(k) ==> opt_text(st.sessions@[k].seat) != Some(q)
}

/// What adding the seat that every machine has does: it is there with no
/// session on it, and all else is as it was.
pub open spec fn seat0_added(pre: LoginState, post: LoginState) -> bool {
    &&& post == (LoginState { seats: post.seats, ..pre })
    &&& post.seats@.dom() == pre.seats@.dom().insert("seat0"@)
    &&& forall|q: Seq<char>| pre.seats@.contains_key(q) && q != "seat0"@
        ==> #[trigger] post.seats@[q] == pre.seats@[q]
    &&& ({
        let s = post.seats@["seat0"@];
        &&& s.id@ == "seat0"@
        &&& s.sessions@.len() == 0
        &&& s.active_session is None
        &&& s.can_graphical
        &&& s.can_tty
        &&& !s.idle_hint
        &&& s.idle_since_usec == 0
        &&& s.idle_since_monotonic == 0
    })
}

proof fn lemma_seat0_keeps_consistent(pre: LoginState, post: LoginState)
    requires
        consistent(pre),
        nobody_on(pre, "seat0"@),
        seat0_added(pre, post),
    ensures
        consistent(post),
{
    assert forall|k: Seq<char>| #[trigger] post.sessions@.contains_key(k) implies session_ok(
        post,
        k,
    ) by {
        assert(session_ok(pre, k));
        assert(opt_text(pre.sessions@[k].seat) != Some("seat0"@));
    }
    assert forall|q: Seq<char>| #[trigger] post.seats@.contains_key(q) implies seat_ok(post, q) by {
        if q == "seat0"@ {
            assert(texts(post.seats@[q].sessions@).len() == 0);
        } else {
            assert(pre.seats@.contains_key(q));
            assert(seat_ok(pre, q));
        }
    }
    assert forall|u: u32| #[trigger] post.users@.contains_key(u) implies user_ok(post, u) by {
        assert(user_ok(pre, u));
    }
    assert forall|p: u32| #[trigger] post.pid_to_session@.contains_key(p) implies leader_ok(
        post,
        p,
    ) by {
        assert(leader_ok(pre, p));
    }
}

/// The state that a machine starts with, in which nobody is logged in and the
/// seat that every machine has was added, is consistent, and its sessions have
/// names that were given out.
pub proof fn first_state_is_consistent(empty: LoginState, first: LoginState)
    requires
        empty.sessions@ == Map::<Seq<char>, Session>::empty(),
        empty.seats@ == Map::<Seq<char>, Seat>::empty(),
        empty.users@ == Map::<u32, User>::empty(),
        empty.pid_to_session@ == Map::<u32, SessionId>::empty(),
        seat0_added(empty, first),
    ensures
        consistent(first),
        named_by_counter(first),
        first.seats@.contains_key("seat0"@),
        first.seats@["seat0"@].can_graphical,
        first.seats@["seat0"@].can_tty,
        first.seats@["seat0"@].sessions@.len() == 0,
        first.seats@["seat0"@].active_session is None,
{
    lemma_seat0_keeps_consistent(empty, first);
}

/// Whether all sessions have names that were given out.
pub open spec fn named_by_counter(st: LoginState) -> bool {
    forall|k: Seq<char>| #[trigger]
        st.sessions@.contains_key(k) ==> exists|n: nat|
            n < st.counters.next_session && k == #[trigger] dec(n)
}

/// The locks of a mode for an action are those of all locks that have that mode
/// and mention it.
pub proof fn locks_are_selected_by_mode_and_action(
    v: Seq<Inhibitor>,
    what: Seq<char>,
    mode: Seq<char>,
    x: Inhibitor,
)
    ensures
        selected(v, what, mode).contains(x) <==> v.contains(x) && x.mode@ == mode && has_part(
            x.what@,
            what,
        ),
    decreases v.len(),
{
    let s = selected(v, what, mode);
    if v.len() > 0 {
        let front = v.drop_last();
        let t = selected(front, what, mode);
        locks_are_selected_by_mode_and_action(front, what, mode, x);
        vstd::seq_lib::lemma_seq_contains_after_push(t, v.last(), x);
        if v.contains(x) {
            let i = choose|i: int| 0 <= i < v.len() && v[i] == x;
            if i < front.len() {
                assert(front[i] == x);
            }
        }
        if front.contains(x) {
            let i = choose|i: int| 0 <= i < front.len() && front[i] == x;
            assert(v[i] == x);
        }
        if v.last() == x {
            assert(v[v.len() - 1] == x);
        }
    }
}

} // verus!
