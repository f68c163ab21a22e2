//! The command line tool: what it asks the service manager, and what it
//! prints about the answer.

use crate::common::protocol::{
    refusal, refused, DecodeError, Message, MessageBody, MessageKind, ServiceEntry, ShutdownKind,
};
use crate::text::num::{dec, dec_int, i64_text, usize_text};
use crate::text::order::{every_place_occurs, sort_places, sorted_places};
use crate::text::scan::{has_part, has_prefix, part_of_a_part_is_found};
use crate::text::{cat, cat3, cat4, chars_of, owned, repeat, repeated, str_eq, texts};
use vstd::prelude::*;

verus! {

/// Whether `r` is a request of that content.
pub open spec fn requested(
    body: MessageBody,
    r: Message,
) -> bool {
    r == (Message { id: 1, kind: MessageKind::Request, body })
}

/// A request. There is only one on a connection.
pub fn request(body: MessageBody) -> (r: Message)
    ensures
        requested(body, r),
{
    Message { id: 1, kind: MessageKind::Request, body }
}

/// What is taken for an answer.
pub open spec fn response_taken(
    received: usize,
    decoded: Result<Message, DecodeError>,
    r: Result<MessageBody, String>,
) -> bool {
    match r {
        Ok(b) => received > 0 && (decoded matches Ok(m) && b == m.body),
        Err(e) => if received == 0 {
            e@ == "empty response from server"@
        } else {
            decoded matches Err(d) && e@ == d.text()
        },
    }
}

/// What came back: `received` bytes, which were taken for `decoded`.
pub fn response(received: usize, decoded: Result<Message, DecodeError>) -> (r: Result<
    MessageBody,
    String,
>)
    ensures
        response_taken(received, decoded, r),
{
    if received == 0 {
        return Err(owned("empty response from server"));
    }
    match decoded {
        Ok(m) => Ok(m.body),
        Err(d) => Err(d.message()),
    }
}

/// Whether `r` prints `line` where the answer is that it was done, and else
/// gives the reason.
pub open spec fn prints_if_done(
    reply: MessageBody,
    r: Result<String, String>,
    line: Seq<char>,
) -> bool {
    match r {
        Ok(t) => reply is Ack && t@ == line + "\n"@,
        Err(e) => !(reply is Ack) && e@ == refusal(reply),
    }
}

fn if_done(reply: MessageBody, line: String) -> (r: Result<String, String>)
    ensures
        prints_if_done(reply, r, line@),
{
    match reply {
        MessageBody::Ack => Ok(cat(line.as_str(), "\n")),
        other => Err(refused(other)),
    }
}

/// What is printed after a request to start a service.
pub open spec fn start_printed(
    name: Seq<char>,
    reply: MessageBody,
    r: Result<String, String>,
) -> bool {
    prints_if_done(reply, r, "Starting service '"@ + name + "'..."@)
}

/// What is printed after a request to start a service.
pub fn start(name: &str, reply: MessageBody) -> (r: Result<String, String>)
    ensures
        start_printed(name@, reply, r),
{
    if_done(reply, cat3("Starting service '", name, "'..."))
}

/// What is printed after a request to stop a service.
pub open spec fn stop_printed(
    name: Seq<char>,
    reply: MessageBody,
    r: Result<String, String>,
) -> bool {
    prints_if_done(reply, r, "Stopping service '"@ + name + "'..."@)
}

/// What is printed after a request to stop a service.
pub fn stop(name: &str, reply: MessageBody) -> (r: Result<String, String>)
    ensures
        stop_printed(name@, reply, r),
{
    if_done(reply, cat3("Stopping service '", name, "'..."))
}

/// What is printed after a request to restart a service.
pub open spec fn restart_printed(
    name: Seq<char>,
    reply: MessageBody,
    r: Result<String, String>,
) -> bool {
    prints_if_done(reply, r, "Restarting service '"@ + name + "'..."@)
}

/// What is printed after a request to restart a service.
pub fn restart(name: &str, reply: MessageBody) -> (r: Result<String, String>)
    ensures
        restart_printed(name@, reply, r),
{
    if_done(reply, cat3("Restarting service '", name, "'..."))
}

/// What is printed after a request to read the configuration again.
pub open spec fn reload_printed(
    reply: MessageBody,
    r: Result<String, String>,
) -> bool {
    prints_if_done(reply, r, "Reloading service definitions..."@)
}

/// What is printed after a request to read the configuration again.
pub fn reload(reply: MessageBody) -> (r: Result<String, String>)
    ensures
        reload_printed(reply, r),
{
    if_done(reply, owned("Reloading service definitions..."))
}

/// The line about the process of a service.
pub open spec fn pid_line(pid: Option<i32>) -> Seq<char> {
    match pid {
        Some(p) => "  PID:        "@ + dec_int(p as int) + "\n"@,
        None => Seq::empty(),
    }
}

/// What is printed about a service.
pub open spec fn status_text(
    name: Seq<char>,
    status: Seq<char>,
    pid: Option<i32>,
    supervisor: Seq<char>,
) -> Seq<char> {
    "Service: "@ + name + "\n"@ + "  Status:     "@ + status + "\n"@ + pid_line(pid)
        + "  Supervisor: "@ + supervisor + "\n"@
}

/// What is printed about the status of a service.
pub open spec fn status_printed(
    reply: MessageBody,
    r: Result<String, String>,
) -> bool {
    match r {
        Ok(t) => reply matches MessageBody::ServiceInfo { name, status, pid, supervisor }
            && t@ == status_text(name@, status@, pid, supervisor@),
        Err(e) => !(reply is ServiceInfo) && e@ == refusal(reply),
    }
}

/// What is printed about the status of a service.
pub fn status(reply: MessageBody) -> (r: Result<String, String>)
    ensures
        status_printed(reply, r),
{
    match reply {
        MessageBody::ServiceInfo { name, status, pid, supervisor } => {
            let a = cat3("Service: ", name.as_str(), "\n");
            let b = cat3("  Status:     ", status.as_str(), "\n");
            let c = match pid {
                Some(p) => {
                    let n = i64_text(p as i64);
                    cat3("  PID:        ", n.as_str(), "\n")
                },
                None => String::new(),
            };
            let d = cat3("  Supervisor: ", supervisor.as_str(), "\n");
            let r = cat4(a.as_str(), b.as_str(), c.as_str(), d.as_str());
            assert(r@ =~= status_text(name@, status@, pid, supervisor@));
            Ok(r)
        },
        other => Err(refused(other)),
    }
}

/// A text with spaces behind it, up to a width.
pub open spec fn padded(s: Seq<char>, width: nat) -> Seq<char> {
    if s.len() < width {
        s + repeated(" "@, (width - s.len()) as nat)
    } else {
        s
    }
}

fn pad(s: &str, width: usize) -> (r: String)
    ensures
        r@ == padded(s@, width as nat),
{
    let n = chars_of(s).len();
    if n < width {
        let fill = repeat(" ", width - n);
        cat(s, fill.as_str())
    } else {
        owned(s)
    }
}

/// A row of the table of services.
pub open spec fn row(a: Seq<char>, b: Seq<char>, c: Seq<char>) -> Seq<char> {
    padded(a, 30) + " "@ + padded(b, 15) + " "@ + padded(c, 10) + "\n"@
}

fn row_text(a: &str, b: &str, c: &str) -> (r: String)
    ensures
        r@ == row(a@, b@, c@),
{
    let a = pad(a, 30);
    let b = pad(b, 15);
    let c = pad(c, 10);
    let start = cat4(a.as_str(), " ", b.as_str(), " ");
    cat3(start.as_str(), c.as_str(), "\n")
}

/// The number of a process, or a dash.
pub open spec fn pid_text(pid: Option<i32>) -> Seq<char> {
    match pid {
        Some(p) => dec_int(p as int),
        None => "-"@,
    }
}

/// The row of a service.
pub open spec fn service_row(s: ServiceEntry) -> Seq<char> {
    row(s.name@, s.status@, pid_text(s.pid))
}

/// The rows of services, in the order of `p`.
pub open spec fn rows(services: Seq<ServiceEntry>, p: Seq<usize>) -> Seq<char>
    decreases p.len(),
{
    if p.len() == 0 {
        Seq::empty()
    } else {
        rows(services, p.drop_last()) + service_row(services[p.last() as int])
    }
}

/// The names of services.
pub open spec fn names_of(services: Seq<ServiceEntry>) -> Seq<Seq<char>> {
    Seq::new(services.len(), |i: int| services[i].name@)
}

/// The table of services, in the order of `p`.
pub open spec fn table(services: Seq<ServiceEntry>, p: Seq<usize>) -> Seq<char> {
    row("SERVICE"@, "STATUS"@, "PID"@) + repeated("-"@, 55) + "\n"@ + rows(services, p) + "\n"@
        + dec(services.len()) + " service(s) total\n"@
}

/// Whether `t` is what is printed about services: the table, in which they
/// are sorted by name, and those of one name stay in their order.
pub open spec fn lists(t: Seq<char>, services: Seq<ServiceEntry>) -> bool {
    if services.len() == 0 {
        t == "No services configured.\n"@
    } else {
        exists|p: Seq<usize>| #[trigger]
            sorted_places(names_of(services), p) && t == table(services, p)
    }
}

fn entry_names(services: &Vec<ServiceEntry>) -> (r: Vec<String>)
    ensures
        texts(r@) == names_of(services@),
{
    let mut r: Vec<String> = Vec::new();
    let mut i: usize = 0;
    while i < services.len()
        invariant
            i <= services.len(),
            r@.len() == i,
            forall|k: int| 0 <= k < i ==> (#[trigger] r@[k])@ == services@[k].name@,
        decreases services.len() - i,
    {
        r.push(services[i].name.clone());
        i += 1;
    }
    assert(texts(r@) =~= names_of(services@));
    r
}

fn list_text(services: &Vec<ServiceEntry>) -> (r: String)
    ensures
        lists(r@, services@),
{
    if services.len() == 0 {
        return owned("No services configured.\n");
    }
    let names = entry_names(services);
    let p = sort_places(&names);
    let mut body = String::new();
    let mut i: usize = 0;
    assert(p@.take(0) =~= Seq::<usize>::empty());
    while i < p.len()
        invariant
            i <= p.len(),
            sorted_places(names_of(services@), p@),
            body@ == rows(services@, p@.take(i as int)),
        decreases p.len() - i,
    {
        proof {
            assert(p@.take(i + 1).drop_last() =~= p@.take(i as int));
            assert(p@.take(i + 1).last() == p@[i as int]);
            assert(p@[i as int] < names_of(services@).len());
        }
        let s = &services[p[i]];
        let pid = match s.pid {
            Some(n) => i64_text(n as i64),
            None => owned("-"),
        };
        let line = row_text(s.name.as_str(), s.status.as_str(), pid.as_str());
        body = cat(body.as_str(), line.as_str());
        i += 1;
    }
    assert(p@.take(p@.len() as int) =~= p@);
    let head = row_text("SERVICE", "STATUS", "PID");
    let rule = repeat("-", 55);
    let top = cat4(head.as_str(), rule.as_str(), "\n", body.as_str());
    let n = usize_text(services.len());
    let r = cat4(top.as_str(), "\n", n.as_str(), " service(s) total\n");
    proof {
        assert(r@ =~= table(services@, p@));
        assert(sorted_places(names_of(services@), p@));
    }
    r
}

/// What is printed about all services.
pub open spec fn list_printed(
    reply: MessageBody,
    r: Result<String, String>,
) -> bool {
    match r {
        Ok(t) => reply matches MessageBody::ServiceList { services } && lists(t@, services@),
        Err(e) => !(reply is ServiceList) && e@ == refusal(reply),
    }
}

/// What is printed about all services.
pub fn list(reply: MessageBody) -> (r: Result<String, String>)
    ensures
        list_printed(reply, r),
{
    match reply {
        MessageBody::ServiceList { services } => Ok(list_text(&services)),
        other => Err(refused(other)),
    }
}

/// What is printed about the supervisor tree.
pub open spec fn tree_printed(
    reply: MessageBody,
    r: Result<String, String>,
) -> bool {
    match r {
        Ok(t) => reply matches MessageBody::Tree { text } && t == text,
        Err(e) => !(reply is Tree) && e@ == refusal(reply),
    }
}

/// What is printed about the supervisor tree: the text of the answer.
pub fn tree(reply: MessageBody) -> (r: Result<String, String>)
    ensures
        tree_printed(reply, r),
{
    match reply {
        MessageBody::Tree { text } => Ok(text),
        other => Err(refused(other)),
    }
}

/// The way to go down of that name.
pub open spec fn kind_named(kind: Seq<char>) -> Option<ShutdownKind> {
    if kind == "poweroff"@ || kind == "off"@ {
        Some(ShutdownKind::Poweroff)
    } else if kind == "reboot"@ {
        Some(ShutdownKind::Reboot)
    } else if kind == "halt"@ {
        Some(ShutdownKind::Halt)
    } else {
        None
    }
}

/// Which way down a name stands for.
pub open spec fn way_down(
    kind: Seq<char>,
    r: Result<ShutdownKind, String>,
) -> bool {
    match r {
        Ok(k) => kind_named(kind) == Some(k),
        Err(e) => kind_named(kind) is None && e@ == "unknown shutdown kind: "@ + kind
            + " (use poweroff, reboot, or halt)"@,
    }
}

/// The way to go down of that name.
pub fn shutdown_kind(kind: &str) -> (r: Result<ShutdownKind, String>)
    ensures
        way_down(kind@, r),
{
    if str_eq(kind, "poweroff") || str_eq(kind, "off") {
        Ok(ShutdownKind::Poweroff)
    } else if str_eq(kind, "reboot") {
        Ok(ShutdownKind::Reboot)
    } else if str_eq(kind, "halt") {
        Ok(ShutdownKind::Halt)
    } else {
        Err(cat3("unknown shutdown kind: ", kind, " (use poweroff, reboot, or halt)"))
    }
}

/// What is printed after a request to shut the system down.
pub open spec fn shutdown_printed(
    kind: Seq<char>,
    reply: MessageBody,
    r: Result<String, String>,
) -> bool {
    prints_if_done(reply, r, "System "@ + kind + " initiated."@)
}

/// What is printed after a request to shut the system down.
pub fn shutdown(kind: &str, reply: MessageBody) -> (r: Result<String, String>)
    ensures
        shutdown_printed(kind@, reply, r),
{
    if_done(reply, cat3("System ", kind, " initiated."))
}

/// The ways to go down are told by their names, and by no other.
pub proof fn ways_down_have_their_names(kind: Seq<char>)
    ensures
        kind_named(kind) == Some(ShutdownKind::Poweroff) <==> kind == "poweroff"@ || kind
            == "off"@,
        kind_named(kind) == Some(ShutdownKind::Reboot) <==> kind == "reboot"@,
        kind_named(kind) == Some(ShutdownKind::Halt) <==> kind == "halt"@,
{
    reveal_strlit("poweroff");
    reveal_strlit("off");
    reveal_strlit("reboot");
    reveal_strlit("halt");
    assert("poweroff"@.len() == 8 && "off"@.len() == 3 && "reboot"@.len() == 6 && "halt"@.len()
        == 4);
}

proof fn lemma_row_printed(services: Seq<ServiceEntry>, p: Seq<usize>, i: int)
    requires
        0 <= i < p.len(),
    ensures
        has_part(rows(services, p), service_row(services[p[i] as int])),
    decreases p.len(),
{
    let a = rows(services, p.drop_last());
    let b = service_row(services[p.last() as int]);
    let part = service_row(services[p[i] as int]);
    if i < p.len() - 1 {
        assert(p.drop_last()[i] == p[i]);
        lemma_row_printed(services, p.drop_last(), i);
        let k = choose|k: int| 0 <= k <= a.len() && #[trigger] has_prefix(a.skip(k), part);
        assert((a + b).skip(k).take(part.len() as int) =~= a.skip(k).take(part.len() as int));
        assert(has_prefix((a + b).skip(k), part));
    } else {
        assert((a + b).skip(a.len() as int) =~= b);
        assert(b.take(b.len() as int) =~= b);
        assert(has_prefix((a + b).skip(a.len() as int), part));
    }
}

/// The table of services has a row for each service, with its name, its status
/// and its process, where it has one.
pub proof fn every_service_has_a_row(t: Seq<char>, services: Seq<ServiceEntry>, i: int)
    requires
        lists(t, services),
        0 <= i < services.len(),
    ensures
        has_part(
            t,
            padded(services[i].name@, 30) + " "@ + padded(services[i].status@, 15) + " "@ + padded(
                match services[i].pid {
                    Some(p) => dec_int(p as int),
                    None => "-"@,
                },
                10,
            ) + "\n"@,
        ),
{
    let p = choose|p: Seq<usize>| #[trigger]
        sorted_places(names_of(services), p) && t == table(services, p);
    let part = service_row(services[i]);
    let head = row("SERVICE"@, "STATUS"@, "PID"@) + repeated("-"@, 55) + "\n"@;
    let body = rows(services, p);
    let tail = "\n"@ + dec(services.len()) + " service(s) total\n"@;
    assert(names_of(services).len() == services.len());
    every_place_occurs(names_of(services), p, i);
    let k = choose|k: int| 0 <= k < p.len() && #[trigger] p[k] == i;
    lemma_row_printed(services, p, k);
    assert(t =~= head + body + tail);
    part_of_a_part_is_found(head, body, tail, part);
}

/// A text is filled up with spaces to its width, and never cut.
pub proof fn cells_are_filled_up(s: Seq<char>, width: nat, i: int)
    ensures
        padded(s, width).len() == if s.len() < width {
            width
        } else {
            s.len()
        },
        0 <= i < s.len() ==> padded(s, width)[i] == s[i],
        s.len() <= i < padded(s, width).len() ==> padded(s, width)[i] == ' ',
{
    if s.len() < width {
        lemma_spaces((width - s.len()) as nat, i - s.len());
    }
}

proof fn lemma_spaces(n: nat, i: int)
    ensures
        repeated(" "@, n).len() == n,
        0 <= i < n ==> repeated(" "@, n)[i] == ' ',
    decreases n,
{
    reveal_strlit(" ");
    if n > 0 {
        lemma_spaces((n - 1) as nat, i);
    }
}

/// A command that was acknowledged is printed with what it does and to whom; any
/// other answer is an error, which gives the reason where the answer gives one.
pub proof fn commands_are_printed_as_done(
    name: Seq<char>,
    reply: MessageBody,
    a: Result<String, String>,
    b: Result<String, String>,
    c: Result<String, String>,
    d: Result<String, String>,
    e: Result<String, String>,
)
    requires
        start_printed(name, reply, a),
        stop_printed(name, reply, b),
        restart_printed(name, reply, c),
        shutdown_printed(name, reply, d),
        reload_printed(reply, e),
    ensures
        a is Ok <==> reply is Ack,
        b is Ok <==> reply is Ack,
        c is Ok <==> reply is Ack,
        d is Ok <==> reply is Ack,
        e is Ok <==> reply is Ack,
        a is Ok ==> a->Ok_0@ == "Starting service '"@ + name + "'..."@ + "\n"@,
        b is Ok ==> b->Ok_0@ == "Stopping service '"@ + name + "'..."@ + "\n"@,
        c is Ok ==> c->Ok_0@ == "Restarting service '"@ + name + "'..."@ + "\n"@,
        d is Ok ==> d->Ok_0@ == "System "@ + name + " initiated."@ + "\n"@,
        reply matches MessageBody::Error { message } ==> a->Err_0@ == message@ && b->Err_0@
            == message@ && c->Err_0@ == message@ && d->Err_0@ == message@ && e->Err_0@ == message@,
{
}

/// What is printed about a service, the services or the tree is what the answer
/// says, and any other answer is an error.
pub proof fn answers_are_printed_as_they_are(
    reply: MessageBody,
    s: Result<String, String>,
    l: Result<String, String>,
    t: Result<String, String>,
)
    requires
        status_printed(reply, s),
        list_printed(reply, l),
        tree_printed(reply, t),
    ensures
        s is Ok <==> reply is ServiceInfo,
        s is Ok ==> {
            let pid = match reply->ServiceInfo_pid {
                Some(p) => "  PID:        "@ + dec_int(p as int) + "\n"@,
                None => Seq::empty(),
            };
            s->Ok_0@ == "Service: "@ + reply->ServiceInfo_name@ + "\n"@ + "  Status:     "@
                + reply->ServiceInfo_status@ + "\n"@ + pid + "  Supervisor: "@
                + reply->ServiceInfo_supervisor@ + "\n"@
        },
        l is Ok <==> reply is ServiceList,
        l is Ok ==> lists(l->Ok_0@, reply->ServiceList_services@),
        t is Ok <==> reply is Tree,
        t is Ok ==> t->Ok_0 == reply->Tree_text,
{
}

/// A message that came is taken for the answer, and only where bytes came that
/// make one; a request is one request, of the content that it is made for.
pub proof fn request_and_answer_are_carried(
    body: MessageBody,
    q: Message,
    received: usize,
    decoded: Result<Message, DecodeError>,
    r: Result<MessageBody, String>,
)
    requires
        requested(body, q),
        response_taken(received, decoded, r),
    ensures
        q.body == body,
        q.kind is Request,
        r is Ok <==> received > 0 && decoded is Ok,
        r is Ok ==> r->Ok_0 == decoded->Ok_0.body,
{
}

/// A way down is accepted just by one of its names.
pub proof fn way_down_is_named(kind: Seq<char>, r: Result<ShutdownKind, String>)
    requires
        way_down(kind, r),
    ensures
        r is Ok && r->Ok_0 is Poweroff <==> kind == "poweroff"@ || kind == "off"@,
        r is Ok && r->Ok_0 is Reboot <==> kind == "reboot"@,
        r is Ok && r->Ok_0 is Halt <==> kind == "halt"@,
{
    ways_down_have_their_names(kind);
}

} // verus!
