//! Notifications to the service manager, sockets that it hands on, messages
//! to the journal, and questions about sessions.

use crate::svmgr::config::service::{ReadinessType, ServiceDef};
use crate::svmgr::process::readiness::notify_path;
use crate::svmgr::process::spawn::environment;
use crate::text::num::{
    dec, dec_int, digit, lemma_parse_dec_int, parse_int, parse_nat, parsed_int, parsed_nat,
    written_number_is_read_back,
};
use crate::text::scan::{has_prefix, starts_with, stripped, trim};
use crate::text::{cat, chars_of, opt_text, owned, same, string_of};
use vstd::prelude::*;
use vstd::slice::slice_subrange;

verus! {

/// The number of the error about an argument.
pub const EINVAL: i32 = 22;

/// The number of the error about memory.
pub const ENOMEM: i32 = 12;

/// The number of the error about missing data.
pub const ENODATA: i32 = 61;

/// The number of the error about a connection.
pub const ECONNREFUSED: i32 = 111;

/// The first socket that is handed on.
pub const SD_LISTEN_FDS_START: i32 = 3;

/// The address of a socket: a name with an at sign before it lies outside the
/// file system, and has a zero there.
pub open spec fn address_of(path: Seq<char>) -> Seq<char> {
    if path.len() > 0 && path[0] == '@' {
        seq!['\0'] + path.skip(1)
    } else {
        path
    }
}

/// The address of a socket.
pub fn notify_target(path: &str) -> (r: String)
    ensures
        r@ == address_of(path@),
{
    let c = chars_of(path);
    if c.len() > 0 && c[0] == '@' {
        let rest = string_of(slice_subrange(c.as_slice(), 1, c.len()));
        proof {
            reveal_strlit("\0");
            assert("\0"@ =~= seq!['\0']);
            assert(rest@ =~= path@.skip(1));
        }
        cat("\0", rest.as_str())
    } else {
        owned(path)
    }
}

/// What a notification comes to before anything is sent.
#[derive(Debug)]
pub enum Notify {
    /// Nothing is sent, and this is returned.
    Return(i32),
    /// This text goes to this address.
    Send { target: String, text: String },
}

/// What a notification leads to.
pub open spec fn notified(
    state: Option<&str>,
    socket: Option<&str>,
    r: Notify,
) -> bool {
    match state {
        None => r == Notify::Return((-EINVAL) as i32),
        Some(s) => match socket {
            Some(p) if p@.len() > 0 => r matches Notify::Send { target, text } && target@
                == address_of(p@) && text@ == s@,
            _ => r == Notify::Return(0),
        },
    }
}

/// A notification, of a state that is text, to the socket that the
/// environment names.
pub fn sd_notify(state: Option<&str>, socket: Option<&str>) -> (r: Notify)
    ensures
        notified(state, socket, r),
{
    let text = match state {
        Some(s) => s,
        None => {
            return Notify::Return(-EINVAL);
        },
    };
    match socket {
        Some(p) => {
            let c = chars_of(p);
            if c.len() == 0 {
                Notify::Return(0)
            } else {
                Notify::Send { target: notify_target(p), text: owned(text) }
            }
        },
        None => Notify::Return(0),
    }
}

/// What a notification returns, and whether the environment is to forget the
/// socket.
pub open spec fn notify_returns(
    sent: bool,
    unset_environment: i32,
    r: (i32, bool),
) -> bool {
    &&& r.0 == if sent {
            1
        } else {
            -ECONNREFUSED
        }
    &&& r.1 == (sent && unset_environment != 0)
}

/// What a notification returns after it was sent, or could not be, and
/// whether the environment is to forget the socket.
pub fn sd_notify_sent(sent: bool, unset_environment: i32) -> (r: (i32, bool))
    ensures
        notify_returns(sent, unset_environment, r),
{
    if sent {
        (1, unset_environment != 0)
    } else {
        (-ECONNREFUSED, false)
    }
}

/// The sockets that were handed on to the process `my_pid`, by the
/// environment; none where they are meant for another.
pub open spec fn sockets_for(
    listen_pid: Option<&str>,
    my_pid: u32,
    listen_fds: Option<&str>,
) -> Option<int> {
    match (listen_pid, listen_fds) {
        (Some(p), Some(f)) => if parsed_nat(p@, u32::MAX as nat) == Some(my_pid as nat) {
            parsed_int(f@, i32::MIN as int, i32::MAX as int)
        } else {
            None
        },
        _ => None,
    }
}

/// How many sockets were handed on, and whether the environment is to forget
/// them.
pub open spec fn sockets_told(
    listen_pid: Option<&str>,
    my_pid: u32,
    listen_fds: Option<&str>,
    unset_environment: i32,
    r: (i32, bool),
) -> bool {
    &&& r.0 == match sockets_for(listen_pid, my_pid, listen_fds) {
            Some(n) => n,
            None => 0,
        }
    &&& r.1 == (sockets_for(listen_pid, my_pid, listen_fds) is Some && unset_environment != 0)
}

/// How many sockets were handed on, and whether the environment is to forget
/// about them.
pub fn sd_listen_fds(
    listen_pid: Option<&str>,
    my_pid: u32,
    listen_fds: Option<&str>,
    unset_environment: i32,
) -> (r: (i32, bool))
    ensures
        sockets_told(listen_pid, my_pid, listen_fds, unset_environment, r),
{
    let pid = match listen_pid {
        Some(p) => {
            let c = chars_of(p);
            parse_nat(&c, 0xffff_ffff)
        },
        None => None,
    };
    let meant = match pid {
        Some(p) => p == my_pid as u64,
        None => false,
    };
    if !meant {
        return (0, false);
    }
    match listen_fds {
        Some(f) => {
            let c = chars_of(f);
            match parse_int(&c, -0x8000_0000, 0x7fff_ffff) {
                Some(n) => (n as i32, unset_environment != 0),
                None => (0, false),
            }
        },
        None => (0, false),
    }
}

/// Whether the system runs under this init system, or claims to.
pub open spec fn booted_told(
    own_dir: bool,
    marker: bool,
    r: i32,
) -> bool {
    r == if own_dir || marker {
        1int
    } else {
        0
    }
}

/// Whether the system runs under this init system, or claims to.
pub fn sd_booted(own_dir: bool, marker: bool) -> (r: i32)
    ensures
        booted_told(own_dir, marker, r),
{
    if own_dir || marker {
        1
    } else {
        0
    }
}

/// The mark of a priority at the start of a message; unknown ones count as
/// information.
pub open spec fn priority_mark(priority: int) -> Seq<char> {
    if priority == 0 {
        "<0>"@
    } else if priority == 1 {
        "<1>"@
    } else if priority == 2 {
        "<2>"@
    } else if priority == 3 {
        "<3>"@
    } else if priority == 4 {
        "<4>"@
    } else if priority == 5 {
        "<5>"@
    } else if priority == 7 {
        "<7>"@
    } else {
        "<6>"@
    }
}

/// A message to the journal with its priority.
pub open spec fn printed(
    priority: int,
    msg: Seq<char>,
    r: Seq<char>,
) -> bool {
    r == priority_mark(priority) + msg
}

/// A message to the journal with its priority.
pub fn sd_journal_print(priority: i32, msg: &str) -> (r: String)
    ensures
        printed(priority as int, msg@, r@),
{
    let prefix = match priority {
        0 => "<0>",
        1 => "<1>",
        2 => "<2>",
        3 => "<3>",
        4 => "<4>",
        5 => "<5>",
        6 => "<6>",
        7 => "<7>",
        _ => "<6>",
    };
    cat(prefix, msg)
}

/// The message in the first field of an entry.
pub open spec fn message_in(first: Seq<char>) -> Seq<char> {
    if has_prefix(first, "MESSAGE="@) {
        first.skip(8)
    } else {
        first
    }
}

/// An entry for the journal.
pub open spec fn sent_as(
    first: Seq<char>,
    r: Seq<char>,
) -> bool {
    r == "<6>"@ + message_in(first)
}

/// An entry for the journal, of which only the first field counts.
pub fn sd_journal_send(first: &str) -> (r: String)
    ensures
        sent_as(first@, r@),
{
    let c = chars_of(first);
    let key = chars_of("MESSAGE=");
    proof {
        reveal_strlit("MESSAGE=");
    }
    if starts_with(&c, &key) {
        let rest = string_of(slice_subrange(c.as_slice(), 8, c.len()));
        assert(rest@ =~= first@.skip(8));
        sd_journal_print(6, rest.as_str())
    } else {
        sd_journal_print(6, first)
    }
}

/// The session of a process, by the kernel's file about it.
pub open spec fn session_read(
    content: Option<&str>,
    r: Option<Seq<char>>,
) -> bool {
    r == match content {
        Some(c) if stripped(c@) != "4294967295"@ => Some(stripped(c@)),
        _ => None,
    }
}

/// The session of a process, by the kernel's file about it. The highest
/// number stands for none.
pub fn read_session_id(content: Option<&str>) -> (r: Option<String>)
    ensures
        session_read(content, opt_text(r)),
{
    match content {
        Some(c) => {
            let t = chars_of(c);
            let id = trim(&t);
            let unset = chars_of("4294967295");
            if same(id, &unset) {
                None
            } else {
                Some(string_of(id))
            }
        },
        None => None,
    }
}

/// What is returned about the session of a process: its name, or an error.
pub fn sd_pid_get_session(can_return: bool, content: Option<&str>) -> (r: Result<String, i32>)
    ensures
        match r {
            Ok(s) => can_return && content is Some && stripped(content->0@) != "4294967295"@
                && s@ == stripped(content->0@),
            Err(e) => if !can_return {
                e == -EINVAL
            } else {
                e == -ENODATA && (content is None || stripped(content->0@) == "4294967295"@)
            },
        },
{
    if !can_return {
        return Err(-EINVAL);
    }
    match read_session_id(content) {
        Some(id) => Ok(id),
        None => Err(-ENODATA),
    }
}

/// The type of every session.
pub fn sd_session_get_type(has_session: bool, can_return: bool) -> (r: Result<&'static str, i32>)
    ensures
        match r {
            Ok(t) => has_session && can_return && t@ == "tty"@,
            Err(e) => !(has_session && can_return) && e == -EINVAL,
        },
{
    if has_session && can_return {
        Ok("tty")
    } else {
        Err(-EINVAL)
    }
}

/// The seat of every session.
pub fn sd_session_get_seat(has_session: bool, can_return: bool) -> (r: Result<&'static str, i32>)
    ensures
        match r {
            Ok(t) => has_session && can_return && t@ == "seat0"@,
            Err(e) => !(has_session && can_return) && e == -EINVAL,
        },
{
    if has_session && can_return {
        Ok("seat0")
    } else {
        Err(-EINVAL)
    }
}

/// Every session is active.
pub fn sd_session_is_active(has_session: bool) -> (r: i32)
    ensures
        r == if has_session {
            1
        } else {
            -EINVAL
        },
{
    if has_session {
        1
    } else {
        -EINVAL
    }
}

/// The active session of every seat.
pub fn sd_seat_get_active() -> (r: &'static str)
    ensures
        r@ == "1"@,
{
    "1"
}

/// A service that announces itself reaches the socket that its readiness is
/// awaited at: the environment names it.
pub proof fn announcement_reaches_the_manager(
    def: ServiceDef,
    inherited: Map<Seq<char>, Seq<char>>,
    file: Option<Seq<char>>,
    ready_fd: Option<i32>,
)
    requires
        def.readiness.readiness_type == ReadinessType::Notify,
    ensures
        ({
            let env = environment(def, inherited, file, ready_fd);
            &&& env.contains_key("NOTIFY_SOCKET"@)
            &&& address_of(env["NOTIFY_SOCKET"@]) == notify_path(def.service.name@)
        }),
{
    reveal_strlit("/run/dynamod/notify-");
    let path = notify_path(def.service.name@);
    assert(path[0] == '/');
}

/// A state is sent, as it is, to the socket that the environment names; where it
/// names none nothing is sent, and what is no text is refused. A socket whose
/// name has an at sign before it lies outside the file system.
pub proof fn state_is_sent_to_the_named_socket(
    state: Option<&str>,
    socket: Option<&str>,
    r: Notify,
    name: Seq<char>,
)
    requires
        notified(state, socket, r),
    ensures
        state is None ==> r is Return && r->Return_0 == -22,
        state is Some && (socket is None || socket->0@.len() == 0) ==> r is Return && r->Return_0 == 0,
        state is Some && socket is Some && socket->0@.len() > 0 ==> r is Send && r->text@
            == state->0@,
        r is Send && socket->0@[0] != '@' ==> r->target@ == socket->0@,
        r is Send && socket->0@ == seq!['@'] + name ==> r->target@ == seq!['\0'] + name,
{
    if r is Send && socket->0@ == seq!['@'] + name {
        assert(socket->0@.skip(1) =~= name);
    }
}

/// A notification returns one where it was sent, and the error of a refused
/// connection where it could not be; the environment forgets the socket just
/// where it was sent and that was asked for.
pub proof fn notification_returns_whether_it_was_sent(sent: bool, unset: i32, r: (i32, bool))
    requires
        notify_returns(sent, unset, r),
    ensures
        sent ==> r.0 == 1,
        !sent ==> r.0 == -111,
        r.1 <==> sent && unset != 0,
{
}

/// Sockets are handed on to the process that they are meant for, as many as the
/// environment says, and to no other.
pub proof fn sockets_go_to_their_process(
    pid: &str,
    fds: &str,
    n: u32,
    my_pid: u32,
    k: int,
    unset: i32,
    r: (i32, bool),
)
    requires
        sockets_told(Some(pid), my_pid, Some(fds), unset, r),
        pid@ == dec(n as nat),
        fds@ == dec_int(k),
        i32::MIN <= k <= i32::MAX,
    ensures
        n == my_pid ==> r.0 == k && (r.1 <==> unset != 0),
        n != my_pid ==> r.0 == 0 && !r.1,
{
    written_number_is_read_back(n as nat, u32::MAX as nat);
    lemma_parse_dec_int(k, i32::MIN as int, i32::MAX as int);
}

/// The system counts as booted with either of its two marks; a session is told
/// by the file of the kernel, unless that holds the highest number.
pub proof fn marks_and_sessions_are_told(
    own: bool,
    marker: bool,
    b: i32,
    content: Option<&str>,
    s: Option<Seq<char>>,
)
    requires
        booted_told(own, marker, b),
        session_read(content, s),
    ensures
        b == 1 <==> own || marker,
        b == 0 <==> !own && !marker,
        s is Some <==> content is Some && stripped(content->0@) != "4294967295"@,
        s is Some ==> s->0 == stripped(content->0@),
{
}

/// A message goes to the journal with its priority before it, from zero to
/// seven, and as information where there is no such priority. Of an entry the
/// first field goes, without its name.
pub proof fn message_carries_its_priority(
    priority: int,
    msg: Seq<char>,
    r: Seq<char>,
    first: Seq<char>,
    s: Seq<char>,
)
    requires
        printed(priority, msg, r),
        sent_as(first, s),
    ensures
        0 <= priority <= 7 ==> r == seq!['<', digit(priority as nat), '>'] + msg,
        !(0 <= priority <= 7) ==> r == seq!['<', '6', '>'] + msg,
        first == "MESSAGE="@ + msg ==> s == seq!['<', '6', '>'] + msg,
        !has_prefix(first, "MESSAGE="@) ==> s == seq!['<', '6', '>'] + first,
{
    reveal_strlit("<0>");
    reveal_strlit("<1>");
    reveal_strlit("<2>");
    reveal_strlit("<3>");
    reveal_strlit("<4>");
    reveal_strlit("<5>");
    reveal_strlit("<6>");
    reveal_strlit("<7>");
    reveal_strlit("MESSAGE=");
    assert("<0>"@ =~= seq!['<', '0', '>']);
    assert("<1>"@ =~= seq!['<', '1', '>']);
    assert("<2>"@ =~= seq!['<', '2', '>']);
    assert("<3>"@ =~= seq!['<', '3', '>']);
    assert("<4>"@ =~= seq!['<', '4', '>']);
    assert("<5>"@ =~= seq!['<', '5', '>']);
    assert("<6>"@ =~= seq!['<', '6', '>']);
    assert("<7>"@ =~= seq!['<', '7', '>']);
    if first == "MESSAGE="@ + msg {
        assert(first.take(8) =~= "MESSAGE="@);
        assert(first.skip(8) =~= msg);
    }
}

} // verus!
