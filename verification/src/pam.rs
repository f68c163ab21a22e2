//! The module that opens and closes sessions on login.

use crate::logind::manager::or_empty;
use crate::text::num::{dec, parse_nat, parsed_nat, u64_text, written_number_is_read_back};
use crate::text::scan::{has_prefix, starts_with};
use crate::text::{cat3, chars_of, opt_text, owned, str_eq, string_of, texts};
use vstd::prelude::*;
use vstd::slice::slice_subrange;

verus! {

/// The call succeeded.
pub const PAM_SUCCESS: i32 = 0;

/// The call counts for nothing.
pub const PAM_IGNORE: i32 = 25;

/// Nobody is authenticated here, and nobody is kept from it.
pub fn pam_sm_authenticate() -> (r: i32)
    ensures
        r == PAM_SUCCESS,
{
    PAM_SUCCESS
}

/// No credentials are set here.
pub fn pam_sm_setcred() -> (r: i32)
    ensures
        r == PAM_SUCCESS,
{
    PAM_SUCCESS
}

/// No accounts are managed here.
pub fn pam_sm_acct_mgmt() -> (r: i32)
    ensures
        r == PAM_IGNORE,
{
    PAM_IGNORE
}

/// What opening a session returns, whatever came of it: a login is never held
/// up.
pub fn pam_sm_open_session(_opened: bool) -> (r: i32)
    ensures
        r == PAM_SUCCESS,
{
    PAM_SUCCESS
}

/// What closing a session returns, whatever came of it.
pub fn pam_sm_close_session(_closed: bool) -> (r: i32)
    ensures
        r == PAM_SUCCESS,
{
    PAM_SUCCESS
}

/// What the module is configured with.
#[derive(Debug)]
pub struct ModuleArgs {
    pub class: Option<String>,
    pub type_: Option<String>,
    pub desktop: Option<String>,
}

/// The value of the last argument that starts with `p`.
pub open spec fn last_value(args: Seq<Seq<char>>, p: Seq<char>) -> Option<Seq<char>>
    decreases args.len(),
{
    if args.len() == 0 {
        None
    } else if has_prefix(args.last(), p) {
        Some(args.last().skip(p.len() as int))
    } else {
        last_value(args.drop_last(), p)
    }
}

proof fn lemma_starts_differ(s: Seq<char>)
    ensures
        !(has_prefix(s, "class="@) && has_prefix(s, "type="@)),
        !(has_prefix(s, "class="@) && has_prefix(s, "desktop="@)),
        !(has_prefix(s, "type="@) && has_prefix(s, "desktop="@)),
{
    reveal_strlit("class=");
    reveal_strlit("type=");
    reveal_strlit("desktop=");
    if has_prefix(s, "class="@) {
        assert(s.take(6)[0] == s[0]);
    }
    if has_prefix(s, "type="@) {
        assert(s.take(5)[0] == s[0]);
    }
    if has_prefix(s, "desktop="@) {
        assert(s.take(8)[0] == s[0]);
    }
}

fn value_behind(arg: &Vec<char>, start: &Vec<char>) -> (r: Option<String>)
    ensures
        opt_text(r) == if has_prefix(arg@, start@) {
            Some(arg@.skip(start@.len() as int))
        } else {
            None
        },
{
    if starts_with(arg, start) {
        let rest = string_of(slice_subrange(arg.as_slice(), start.len(), arg.len()));
        assert(rest@ =~= arg@.skip(start@.len() as int));
        Some(rest)
    } else {
        None
    }
}

/// What arguments configure.
pub open spec fn configured(
    args: Seq<Seq<char>>,
    r: ModuleArgs,
) -> bool {
    &&& opt_text(r.class) == last_value(args, "class="@)
    &&& opt_text(r.type_) == last_value(args, "type="@)
    &&& opt_text(r.desktop) == last_value(args, "desktop="@)
}

/// What the module is configured with, by those of its arguments that are
/// text. Of several for one thing the last counts.
pub fn parse_args(args: &Vec<String>) -> (r: ModuleArgs)
    ensures
        configured(texts(args@), r),
{
    let ghost o = texts(args@);
    let class_start = chars_of("class=");
    let type_start = chars_of("type=");
    let desktop_start = chars_of("desktop=");
    let mut class: Option<String> = None;
    let mut type_: Option<String> = None;
    let mut desktop: Option<String> = None;
    let mut i: usize = 0;
    while i < args.len()
        invariant
            i <= args.len(),
            o == texts(args@),
            class_start@ == "class="@,
            type_start@ == "type="@,
            desktop_start@ == "desktop="@,
            opt_text(class) == last_value(o.take(i as int), "class="@),
            opt_text(type_) == last_value(o.take(i as int), "type="@),
            opt_text(desktop) == last_value(o.take(i as int), "desktop="@),
        decreases args.len() - i,
    {
        let a = chars_of(args[i].as_str());
        proof {
            assert(o.take(i + 1).drop_last() =~= o.take(i as int));
            assert(o.take(i + 1).last() == args@[i as int]@);
            lemma_starts_differ(a@);
        }
        if let Some(v) = value_behind(&a, &class_start) {
            class = Some(v);
        } else if let Some(v) = value_behind(&a, &type_start) {
            type_ = Some(v);
        } else if let Some(v) = value_behind(&a, &desktop_start) {
            desktop = Some(v);
        }
        i += 1;
    }
    assert(o.take(o.len() as int) =~= o);
    ModuleArgs { class, type_, desktop }
}

/// A terminal without the places before its name.
pub open spec fn bare_tty(tty: Seq<char>) -> Seq<char>
    decreases tty.len(),
{
    if tty.len() >= 5 && has_prefix(tty, "/dev/"@) {
        bare_tty(tty.skip(5))
    } else {
        tty
    }
}

/// The number of a virtual terminal; zero where a terminal is none.
pub open spec fn vt_number(tty: Seq<char>) -> nat {
    if has_prefix(tty, "tty"@) {
        match parsed_nat(tty.skip(3), u32::MAX as nat) {
            Some(n) => n,
            None => 0,
        }
    } else {
        0
    }
}

/// The number of the virtual terminal, the terminal and the display of a
/// login. What is given as the terminal may be a display.
pub open spec fn login_place(tty: Seq<char>, display: Seq<char>) -> (nat, Seq<char>, Seq<char>) {
    if tty.len() > 0 && tty[0] == ':' {
        (0, Seq::empty(), tty)
    } else {
        (vt_number(bare_tty(tty)), bare_tty(tty), display)
    }
}

/// The number of the virtual terminal, the terminal and the display of a
/// login.
pub fn classify_tty(tty: &str, display: &str) -> (r: (u32, String, String))
    ensures
        (r.0 as nat, r.1@, r.2@) == login_place(tty@, display@),
{
    let c = chars_of(tty);
    if c.len() > 0 && c[0] == ':' {
        return (0, String::new(), owned(tty));
    }
    let dev = chars_of("/dev/");
    proof {
        reveal_strlit("/dev/");
        reveal_strlit("tty");
    }
    let mut rest: Vec<char> = c;
    while starts_with(&rest, &dev)
        invariant
            dev@ == "/dev/"@,
            dev@.len() == 5,
            bare_tty(rest@) == bare_tty(tty@),
        decreases rest@.len(),
    {
        let next = crate::text::scan::copy(slice_subrange(rest.as_slice(), 5, rest.len()));
        assert(next@ =~= rest@.skip(5));
        rest = next;
    }
    let word = chars_of("tty");
    let vtnr: u32 = if starts_with(&rest, &word) {
        let digits = slice_subrange(rest.as_slice(), 3, rest.len());
        assert(digits@ =~= rest@.skip(3));
        match parse_nat(digits, 0xffff_ffff) {
            Some(n) => n as u32,
            None => 0,
        }
    } else {
        0
    };
    (vtnr, string_of(&rest), owned(display))
}

/// The type of a session by where it is.
pub open spec fn inferred_type(display: Seq<char>, tty: Seq<char>) -> Seq<char> {
    if display.len() > 0 {
        "x11"@
    } else if tty.len() == 0 {
        "unspecified"@
    } else {
        "tty"@
    }
}

/// The type of a session by where it is.
pub fn infer_type(display: &str, tty: &str) -> (r: String)
    ensures
        r@ == inferred_type(display@, tty@),
{
    if chars_of(display).len() > 0 {
        owned("x11")
    } else if chars_of(tty).len() == 0 {
        owned("unspecified")
    } else {
        owned("tty")
    }
}

/// What is known about a login.
#[derive(Debug)]
pub struct LoginItems {
    pub service: Option<String>,
    pub tty: Option<String>,
    pub rhost: Option<String>,
    pub ruser: Option<String>,
    pub display: Option<String>,
}

/// What the login manager is asked for.
#[derive(Debug)]
pub struct OpenRequest {
    pub uid: u32,
    pub pid: u32,
    pub service: String,
    pub session_type: String,
    pub class: String,
    pub desktop: String,
    pub seat: String,
    pub vtnr: u32,
    pub tty: String,
    pub display: String,
    pub remote: bool,
    pub remote_user: String,
    pub remote_host: String,
}

/// Whether a login comes from another machine.
pub open spec fn is_remote(rhost: Seq<char>) -> bool {
    rhost.len() > 0 && rhost != "localhost"@
}

/// The text, or another where there is none.
pub open spec fn or_else_text(s: Option<Seq<char>>, d: Seq<char>) -> Seq<char> {
    match s {
        Some(t) => t,
        None => d,
    }
}

fn take_or(s: &Option<String>, d: &str) -> (r: String)
    ensures
        r@ == or_else_text(opt_text(*s), d@),
{
    match s {
        Some(t) => t.clone(),
        None => owned(d),
    }
}

/// Whether `q` asks for the session of a login.
pub open spec fn asks_for(
    q: OpenRequest,
    uid: u32,
    pid: u32,
    items: LoginItems,
    args: ModuleArgs,
) -> bool {
    let rhost = or_empty(opt_text(items.rhost));
    let place = login_place(or_empty(opt_text(items.tty)), or_empty(opt_text(items.display)));
    &&& q.uid == uid
    &&& q.pid == pid
    &&& q.service@ == or_empty(opt_text(items.service))
    &&& q.session_type@ == or_else_text(
        opt_text(args.type_),
        inferred_type(place.2, place.1),
    )
    &&& q.class@ == or_else_text(opt_text(args.class), "user"@)
    &&& q.desktop@ == or_empty(opt_text(args.desktop))
    &&& q.seat@ == if is_remote(rhost) || place.0 == 0 {
        Seq::empty()
    } else {
        "seat0"@
    }
    &&& q.vtnr == place.0
    &&& q.tty@ == place.1
    &&& q.display@ == place.2
    &&& q.remote == is_remote(rhost)
    &&& q.remote_user@ == or_empty(opt_text(items.ruser))
    &&& q.remote_host@ == rhost
}

/// What the login manager is asked for when a user logs in.
pub open spec fn login_asks(
    user: Option<&str>,
    uid: Option<u32>,
    pid: u32,
    items: LoginItems,
    args: ModuleArgs,
    r: Result<OpenRequest, String>,
) -> bool {
    match r {
        Ok(q) => user is Some && (uid matches Some(u) && asks_for(q, u, pid, items, args)),
        Err(e) => match user {
            None => e@ == "no PAM_USER"@,
            Some(n) => uid is None && e@ == "no passwd entry for '"@ + n@ + "'"@,
        },
    }
}

/// What the login manager is asked for when a user logs in. `uid` is the
/// number that the system has for the user.
pub fn open_request(
    user: Option<&str>,
    uid: Option<u32>,
    pid: u32,
    items: &LoginItems,
    args: &ModuleArgs,
) -> (r: Result<OpenRequest, String>)
    ensures
        login_asks(user, uid, pid, *items, *args, r),
{
    let name = match user {
        Some(n) => n,
        None => {
            return Err(owned("no PAM_USER"));
        },
    };
    let uid = match uid {
        Some(u) => u,
        None => {
            return Err(cat3("no passwd entry for '", name, "'"));
        },
    };
    proof {
        reveal_strlit("");
    }
    let rhost = take_or(&items.rhost, "");
    let tty = take_or(&items.tty, "");
    let display = take_or(&items.display, "");
    let (vtnr, tty, display) = classify_tty(tty.as_str(), display.as_str());
    let remote = chars_of(rhost.as_str()).len() > 0 && !str_eq(rhost.as_str(), "localhost");
    let seat = if remote || vtnr == 0 {
        String::new()
    } else {
        owned("seat0")
    };
    let session_type = match &args.type_ {
        Some(t) => t.clone(),
        None => infer_type(display.as_str(), tty.as_str()),
    };
    let q = OpenRequest {
        uid,
        pid,
        service: take_or(&items.service, ""),
        session_type,
        class: take_or(&args.class, "user"),
        desktop: take_or(&args.desktop, ""),
        seat,
        vtnr,
        tty,
        display,
        remote,
        remote_user: take_or(&items.ruser, ""),
        remote_host: rhost,
    };
    proof {
        assert(""@ =~= Seq::<char>::empty());
        assert(asks_for(q, uid, pid, *items, *args));
    }
    Ok(q)
}

/// A variable and its value.
pub open spec fn pairs(v: Seq<(&'static str, String)>) -> Seq<(Seq<char>, Seq<char>)> {
    Seq::new(v.len(), |i: int| (v[i].0@, v[i].1@))
}

/// One pair, unless it is left out.
pub open spec fn pair_if(b: bool, name: Seq<char>, value: Seq<char>) -> Seq<
    (Seq<char>, Seq<char>),
> {
    if b {
        seq![(name, value)]
    } else {
        Seq::empty()
    }
}

/// The environment of a new session.
pub open spec fn environment(
    id: Seq<char>,
    runtime_path: Seq<char>,
    seat: Seq<char>,
    vtnr: nat,
    q: OpenRequest,
) -> Seq<(Seq<char>, Seq<char>)> {
    seq![("XDG_SESSION_ID"@, id), ("XDG_RUNTIME_DIR"@, runtime_path)] + pair_if(
        seat.len() > 0,
        "XDG_SEAT"@,
        seat,
    ) + pair_if(vtnr > 0, "XDG_VTNR"@, dec(vtnr)) + seq![
        ("XDG_SESSION_TYPE"@, q.session_type@),
        ("XDG_SESSION_CLASS"@, q.class@),
    ] + pair_if(q.desktop@.len() > 0, "XDG_SESSION_DESKTOP"@, q.desktop@)
}

/// The environment of a session that the login manager opened.
pub fn session_environment(
    id: &str,
    runtime_path: &str,
    seat: &str,
    vtnr: u32,
    q: &OpenRequest,
) -> (r: Vec<(&'static str, String)>)
    ensures
        pairs(r@) == environment(id@, runtime_path@, seat@, vtnr as nat, *q),
{
    let mut r: Vec<(&'static str, String)> = Vec::new();
    r.push(("XDG_SESSION_ID", owned(id)));
    r.push(("XDG_RUNTIME_DIR", owned(runtime_path)));
    if chars_of(seat).len() > 0 {
        r.push(("XDG_SEAT", owned(seat)));
    }
    if vtnr > 0 {
        r.push(("XDG_VTNR", u64_text(vtnr as u64)));
    }
    r.push(("XDG_SESSION_TYPE", q.session_type.clone()));
    r.push(("XDG_SESSION_CLASS", q.class.clone()));
    if chars_of(q.desktop.as_str()).len() > 0 {
        r.push(("XDG_SESSION_DESKTOP", q.desktop.clone()));
    }
    assert(pairs(r@) =~= environment(id@, runtime_path@, seat@, vtnr as nat, *q));
    r
}

/// The session that is given up on logout, by what the environment says it
/// is.
pub open spec fn given_up(session_id: Option<Seq<char>>) -> Option<Seq<char>> {
    match session_id {
        Some(s) if s.len() > 0 => Some(s),
        _ => None,
    }
}

/// The session that is given up on logout, by the environment.
pub fn close_request(session_id: &Option<String>) -> (r: Option<String>)
    ensures
        opt_text(r) == given_up(opt_text(*session_id)),
{
    match session_id {
        Some(s) => {
            if chars_of(s.as_str()).len() > 0 {
                Some(s.clone())
            } else {
                None
            }
        },
        None => None,
    }
}

/// A terminal is found whatever places stand before its name.
pub proof fn tty_is_found_below_dev(tty: Seq<char>)
    ensures
        bare_tty("/dev/"@ + tty) == bare_tty(tty),
{
    reveal_strlit("/dev/");
    let s = "/dev/"@ + tty;
    assert(s.take(5) =~= "/dev/"@);
    assert(s.skip(5) =~= tty);
}

/// A login from another machine is on no seat.
pub proof fn remote_login_has_no_seat(
    q: OpenRequest,
    uid: u32,
    pid: u32,
    items: LoginItems,
    args: ModuleArgs,
)
    requires
        asks_for(q, uid, pid, items, args),
        q.remote,
    ensures
        q.seat@.len() == 0,
{
}

/// The session that logging out gives up is the one that logging in opened:
/// the environment keeps its name.
pub proof fn closing_gives_up_what_was_opened(
    id: Seq<char>,
    runtime_path: Seq<char>,
    seat: Seq<char>,
    vtnr: nat,
    q: OpenRequest,
    k: int,
)
    requires
        0 <= k < environment(id, runtime_path, seat, vtnr, q).len(),
    ensures
        environment(id, runtime_path, seat, vtnr, q)[k].0 == "XDG_SESSION_ID"@ <==> k == 0,
        environment(id, runtime_path, seat, vtnr, q)[0] == ("XDG_SESSION_ID"@, id),
        id.len() > 0 ==> given_up(Some(environment(id, runtime_path, seat, vtnr, q)[0].1)) == Some(
            id,
        ),
{
    reveal_strlit("XDG_SESSION_ID");
    reveal_strlit("XDG_RUNTIME_DIR");
    reveal_strlit("XDG_SEAT");
    reveal_strlit("XDG_VTNR");
    reveal_strlit("XDG_SESSION_TYPE");
    reveal_strlit("XDG_SESSION_CLASS");
    reveal_strlit("XDG_SESSION_DESKTOP");
    assert("XDG_SESSION_ID"@.len() == 14);
    assert("XDG_SESSION_TYPE"@.len() == 16);
    assert("XDG_SESSION_CLASS"@.len() == 17);
    assert("XDG_SESSION_DESKTOP"@.len() == 19);
    assert("XDG_RUNTIME_DIR"@.len() == 15);
    assert("XDG_SEAT"@.len() == 8);
    assert("XDG_VTNR"@.len() == 8);
}

/// A login is carried on just where the user is named and known. It asks for a
/// session of that user, led by that process, of the type and the class that
/// are configured. Where none is, the class is `user`, and the type is `x11` on
/// a display, `tty` on a terminal and `unspecified` on neither.
pub proof fn login_asks_for_its_session(
    user: Option<&str>,
    uid: Option<u32>,
    pid: u32,
    items: LoginItems,
    args: ModuleArgs,
    r: Result<OpenRequest, String>,
)
    requires
        login_asks(user, uid, pid, items, args, r),
    ensures
        r is Ok <==> user is Some && uid is Some,
        r matches Ok(q) ==> {
            &&& q.uid == uid->0
            &&& q.pid == pid
            &&& args.type_ matches Some(t) ==> q.session_type@ == t@
            &&& args.type_ is None && q.display@.len() > 0 ==> q.session_type@ == "x11"@
            &&& args.type_ is None && q.display@.len() == 0 && q.tty@.len() > 0
                ==> q.session_type@ == "tty"@
            &&& args.type_ is None && q.display@.len() == 0 && q.tty@.len() == 0
                ==> q.session_type@ == "unspecified"@
            &&& args.class matches Some(t) ==> q.class@ == t@
            &&& args.class is None ==> q.class@ == "user"@
            &&& args.desktop matches Some(t) ==> q.desktop@ == t@
            &&& args.desktop is None ==> q.desktop@.len() == 0
            &&& items.service matches Some(t) ==> q.service@ == t@
            &&& items.ruser matches Some(t) ==> q.remote_user@ == t@
            &&& items.rhost matches Some(t) ==> q.remote_host@ == t@
        },
{
}

/// A login comes from another machine just where that is named and is not
/// `localhost`. It is on the first seat just where it does not, and is on a
/// virtual terminal.
pub proof fn login_is_placed(
    user: Option<&str>,
    uid: Option<u32>,
    pid: u32,
    items: LoginItems,
    args: ModuleArgs,
    q: OpenRequest,
)
    requires
        login_asks(user, uid, pid, items, args, Ok(q)),
    ensures
        q.remote <==> items.rhost is Some && items.rhost->0@.len() > 0 && items.rhost->0@
            != "localhost"@,
        q.seat@ == "seat0"@ <==> !q.remote && q.vtnr > 0,
        q.seat@ != "seat0"@ ==> q.seat@.len() == 0,
{
    reveal_strlit("seat0");
    assert("seat0"@.len() == 5);
}

/// A terminal such as `tty3`, with or without its place before it, is the
/// virtual terminal of that number; a display that stands in for a terminal is
/// no terminal; and another terminal has no number.
pub proof fn terminal_has_its_number(n: nat, tty: Seq<char>, display: Seq<char>)
    requires
        n <= u32::MAX,
    ensures
        login_place("tty"@ + dec(n), display) == (n, "tty"@ + dec(n), display),
        login_place("/dev/"@ + ("tty"@ + dec(n)), display) == (n, "tty"@ + dec(n), display),
        tty.len() > 0 && tty[0] == ':' ==> login_place(tty, display) == (0nat, Seq::<char>::empty(), tty),
        tty.len() > 0 && tty[0] == 'p' ==> login_place(tty, display) == (0nat, tty, display),
{
    reveal_strlit("tty");
    reveal_strlit("/dev/");
    let t = "tty"@ + dec(n);
    written_number_is_read_back(n, u32::MAX as nat);
    assert(t[0] == 't');
    assert(t.take(5)[0] == 't' || t.len() < 5);
    assert(!has_prefix(t, "/dev/"@)) by {
        if has_prefix(t, "/dev/"@) {
            assert(t.take(5)[0] == "/dev/"@[0]);
        }
    }
    assert(bare_tty(t) == t);
    assert(t.take(3) =~= "tty"@);
    assert(t.skip(3) =~= dec(n));
    tty_is_found_below_dev(t);
    let d = "/dev/"@ + t;
    assert(d[0] == '/');
    if tty.len() > 0 && tty[0] == 'p' {
        assert(!has_prefix(tty, "/dev/"@)) by {
            if has_prefix(tty, "/dev/"@) {
                assert(tty.take(5)[0] == "/dev/"@[0]);
            }
        }
        assert(!has_prefix(tty, "tty"@)) by {
            if has_prefix(tty, "tty"@) {
                assert(tty.take(3)[0] == "tty"@[0]);
            }
        }
    }
}

proof fn lemma_last_value(args: Seq<Seq<char>>, p: Seq<char>, v: Seq<char>)
    ensures
        last_value(args.push(p + v), p) == Some(v),
{
    let a = args.push(p + v);
    assert(a.last() == p + v);
    assert((p + v).take(p.len() as int) =~= p);
    assert((p + v).skip(p.len() as int) =~= v);
}

/// The last argument for a thing is the one that counts, and each is for its
/// own thing.
pub proof fn last_argument_counts(
    args: Seq<Seq<char>>,
    v: Seq<char>,
    a: ModuleArgs,
    b: ModuleArgs,
    c: ModuleArgs,
    none: ModuleArgs,
)
    requires
        configured(args.push("class="@ + v), a),
        configured(args.push("type="@ + v), b),
        configured(args.push("desktop="@ + v), c),
        configured(Seq::empty(), none),
    ensures
        opt_text(a.class) == Some(v),
        opt_text(b.type_) == Some(v),
        opt_text(c.desktop) == Some(v),
        none.class is None && none.type_ is None && none.desktop is None,
{
    lemma_last_value(args, "class="@, v);
    lemma_last_value(args, "type="@, v);
    lemma_last_value(args, "desktop="@, v);
}

/// The environment of a session names the session, the directory of its user,
/// its type and its class; and its seat, its terminal and its desktop where it
/// has them.
pub proof fn environment_tells_of_the_session(
    id: Seq<char>,
    runtime_path: Seq<char>,
    seat: Seq<char>,
    vtnr: nat,
    q: OpenRequest,
)
    ensures
        ({
            let e = environment(id, runtime_path, seat, vtnr, q);
            &&& e.contains(("XDG_SESSION_ID"@, id))
            &&& e.contains(("XDG_RUNTIME_DIR"@, runtime_path))
            &&& seat.len() > 0 ==> e.contains(("XDG_SEAT"@, seat))
            &&& vtnr > 0 ==> e.contains(("XDG_VTNR"@, dec(vtnr)))
            &&& e.contains(("XDG_SESSION_TYPE"@, q.session_type@))
            &&& e.contains(("XDG_SESSION_CLASS"@, q.class@))
            &&& q.desktop@.len() > 0 ==> e.contains(("XDG_SESSION_DESKTOP"@, q.desktop@))
        }),
{
    let e = environment(id, runtime_path, seat, vtnr, q);
    let a: int = if seat.len() > 0 {
        3
    } else {
        2
    };
    let b: int = if vtnr > 0 {
        a + 1
    } else {
        a
    };
    assert(e[0] == ("XDG_SESSION_ID"@, id));
    assert(e[1] == ("XDG_RUNTIME_DIR"@, runtime_path));
    if seat.len() > 0 {
        assert(e[2] == ("XDG_SEAT"@, seat));
    }
    if vtnr > 0 {
        assert(e[a] == ("XDG_VTNR"@, dec(vtnr)));
    }
    assert(e[b] == ("XDG_SESSION_TYPE"@, q.session_type@));
    assert(e[b + 1] == ("XDG_SESSION_CLASS"@, q.class@));
    if q.desktop@.len() > 0 {
        assert(e[b + 2] == ("XDG_SESSION_DESKTOP"@, q.desktop@));
    }
}

} // verus!
