//! When a service is ready.
//!
//! - no check: at once
//! - notify: when it sends `READY=1` to its socket
//! - port: when the port takes connections
//! - command: when the command succeeds
//! - descriptor: when it writes to the descriptor

use crate::svmgr::config::service::{
    duration_fits, duration_secs, parse_duration_secs, ReadinessSection, ReadinessType,
};
use crate::text::scan::{contains, has_part};
use crate::text::{cat, cat3, chars_of, clone_strings, opt_text, owned, texts};
use crate::time::{Duration, Instant};
use vstd::prelude::*;

verus! {

/// The outcome of a check.
#[derive(Debug, Clone, PartialEq, Eq)]
pub enum ReadinessResult {
    /// Ready.
    Ready,
    /// Not yet.
    NotReady,
    /// Not in time.
    TimedOut,
    /// It never will be, for the reason given.
    Failed(String),
}

/// What has to be tried to learn whether a service is ready.
#[derive(Debug)]
pub enum Probe<'a> {
    /// Nothing: the outcome is known.
    Known(ReadinessResult),
    /// Connect to a port of this machine.
    Connect(u16),
    /// Run a command.
    Run(&'a Vec<String>),
    /// Receive from the notification socket.
    Receive,
    /// Read from a descriptor.
    Read(i32),
}

/// The wait for one service to become ready.
#[derive(Debug)]
pub struct ReadinessTracker {
    readiness_type: ReadinessType,
    port: Option<u16>,
    check_exec: Option<Vec<String>>,
    timeout: Duration,
    started_at: Instant,
    notify_socket: Option<String>,
    notify_bound: bool,
    ready_fd: Option<i32>,
}

/// The socket to which a service sends its notifications.
pub open spec fn notify_path(service: Seq<char>) -> Seq<char> {
    "/run/dynamod/notify-"@ + service + ".sock"@
}

/// The socket to which a service sends its notifications.
pub fn notify_socket_for(service: &str) -> (r: String)
    ensures
        r@ == notify_path(service@),
{
    cat3("/run/dynamod/notify-", service, ".sock")
}

/// The time that a section gives, or half a minute.
pub open spec fn readiness_timeout(text: Seq<char>) -> nat {
    match duration_secs(text) {
        Some(n) => n,
        None => 30,
    }
}

impl ReadinessTracker {
    /// The kind of check.
    pub closed spec fn kind(self) -> ReadinessType {
        self.readiness_type
    }

    /// The port to check.
    pub closed spec fn port_checked(self) -> Option<u16> {
        self.port
    }

    /// The command to run.
    pub closed spec fn command(self) -> Option<Seq<Seq<char>>> {
        match self.check_exec {
            Some(c) => Some(texts(c@)),
            None => None,
        }
    }

    /// How long to wait.
    pub closed spec fn limit(self) -> Duration {
        self.timeout
    }

    /// When the wait began.
    pub closed spec fn began(self) -> Instant {
        self.started_at
    }

    /// The notification socket.
    pub closed spec fn socket(self) -> Option<Seq<char>> {
        opt_text(self.notify_socket)
    }

    /// Whether the notification socket could be bound.
    pub closed spec fn bound(self) -> bool {
        self.notify_bound
    }

    /// The descriptor to read from.
    pub closed spec fn fd(self) -> Option<i32> {
        self.ready_fd
    }

    /// The wait for a service that started at `now`. `notify_bound` says
    /// whether its notification socket could be bound.
    pub fn new(
        config: &ReadinessSection,
        service_name: &str,
        now: Instant,
        notify_bound: bool,
    ) -> (r: Self)
        requires
            duration_fits(config.timeout@),
        ensures
            tracks(*config, service_name@, now, notify_bound, r),
    {
        let secs = match parse_duration_secs(config.timeout.as_str()) {
            Some(n) => n,
            None => 30,
        };
        let notify = config.readiness_type == ReadinessType::Notify;
        let notify_socket = if notify {
            Some(notify_socket_for(service_name))
        } else {
            None
        };
        ReadinessTracker {
            readiness_type: config.readiness_type,
            port: config.port,
            check_exec: match &config.check_exec {
                Some(c) => Some(clone_strings(c)),
                None => None,
            },
            timeout: Duration::from_secs(secs),
            started_at: now,
            notify_socket,
            notify_bound: notify_bound && notify,
            ready_fd: None,
        }
    }

    /// The notification socket.
    pub fn notify_socket_path(&self) -> (r: Option<&String>)
        ensures
            match r {
                Some(p) => self.socket() == Some(p@),
                None => self.socket() is None,
            },
    {
        match &self.notify_socket {
            Some(p) => Some(p),
            None => None,
        }
    }

    /// Sets the descriptor to read from.
    pub fn set_ready_fd(&mut self, fd: i32)
        ensures
            final(self).fd() == Some(fd),
            final(self).kind() == old(self).kind(),
            final(self).port_checked() == old(self).port_checked(),
            final(self).command() == old(self).command(),
            final(self).limit() == old(self).limit(),
            final(self).began() == old(self).began(),
            final(self).socket() == old(self).socket(),
            final(self).bound() == old(self).bound(),
    {
        self.ready_fd = Some(fd);
    }

    /// Whether the service is ready at once.
    pub fn is_immediate(&self) -> (r: bool)
        ensures
            r == (self.kind() == ReadinessType::NoCheck),
    {
        self.readiness_type == ReadinessType::NoCheck
    }

    /// What has to be tried at `now` to learn whether the service is ready.
    pub fn check(&self, now: Instant) -> (r: Probe)
        requires
            i128::MIN <= now.nanos - self.began().nanos <= i128::MAX,
        ensures
            probes(*self, now, r),
    {
        if now.nanos - self.started_at.nanos > self.timeout.as_nanos() {
            return Probe::Known(ReadinessResult::TimedOut);
        }
        match self.readiness_type {
            ReadinessType::NoCheck => Probe::Known(ReadinessResult::Ready),
            ReadinessType::TcpPort => match self.port {
                Some(p) => Probe::Connect(p),
                None => Probe::Known(ReadinessResult::Failed(owned("no port configured"))),
            },
            ReadinessType::Exec => match &self.check_exec {
                Some(c) => {
                    assert(texts(c@).len() == c@.len());
                    if c.len() > 0 {
                        Probe::Run(c)
                    } else {
                        Probe::Known(ReadinessResult::Failed(owned("no check-exec configured")))
                    }
                },
                None => Probe::Known(ReadinessResult::Failed(owned("no check-exec configured"))),
            },
            ReadinessType::Notify => if self.notify_bound {
                Probe::Receive
            } else {
                Probe::Known(ReadinessResult::Failed(owned("no notify socket")))
            },
            ReadinessType::Fd => match self.ready_fd {
                Some(f) => Probe::Read(f),
                None => Probe::Known(ReadinessResult::Failed(owned("no ready fd configured"))),
            },
        }
    }

    /// Begins the wait anew.
    pub fn reset(&mut self, now: Instant)
        ensures
            final(self).began() == now,
            final(self).fd() == old(self).fd(),
            final(self).kind() == old(self).kind(),
            final(self).port_checked() == old(self).port_checked(),
            final(self).command() == old(self).command(),
            final(self).limit() == old(self).limit(),
            final(self).socket() == old(self).socket(),
            final(self).bound() == old(self).bound(),
    {
        self.started_at = now;
    }
}

/// What a connection to the port means.
pub open spec fn connection_means(
    connected: bool,
    r: ReadinessResult,
) -> bool {
    r == if connected {
        ReadinessResult::Ready
    } else {
        ReadinessResult::NotReady
    }
}

/// The outcome of a connection to the port.
pub fn connect_result(connected: bool) -> (r: ReadinessResult)
    ensures
        connection_means(connected, r),
{
    if connected {
        ReadinessResult::Ready
    } else {
        ReadinessResult::NotReady
    }
}

/// What the outcome of the command means.
pub open spec fn command_means(
    ran: Result<bool, String>,
    r: ReadinessResult,
) -> bool {
    match ran {
        Ok(true) => r is Ready,
        Ok(false) => r is NotReady,
        Err(e) => r matches ReadinessResult::Failed(m) && m@ == "check-exec error: "@ + e@,
    }
}

/// The outcome of the command: whether it succeeded, or why it could not run.
pub fn run_result(ran: Result<bool, String>) -> (r: ReadinessResult)
    ensures
        command_means(ran, r),
{
    match ran {
        Ok(success) => if success {
            ReadinessResult::Ready
        } else {
            ReadinessResult::NotReady
        },
        Err(e) => ReadinessResult::Failed(cat("check-exec error: ", e.as_str())),
    }
}

/// What came to the notification socket means.
pub open spec fn notification_means(
    received: Option<&str>,
    r: ReadinessResult,
) -> bool {
    r == if received matches Some(m) && has_part(m@, "READY=1"@) {
        ReadinessResult::Ready
    } else {
        ReadinessResult::NotReady
    }
}

/// The outcome of receiving from the notification socket: the text that came,
/// if any.
pub fn receive_result(received: Option<&str>) -> (r: ReadinessResult)
    ensures
        notification_means(received, r),
{
    match received {
        Some(m) => {
            let c = chars_of(m);
            let p = chars_of("READY=1");
            if contains(&c, &p) {
                ReadinessResult::Ready
            } else {
                ReadinessResult::NotReady
            }
        },
        None => ReadinessResult::NotReady,
    }
}

/// What came of reading from the descriptor.
#[derive(Debug)]
pub enum FdRead {
    /// Something was written.
    Byte,
    /// The other end was closed.
    End,
    /// Nothing was written yet.
    WouldBlock,
    /// It could not be read, for the reason given.
    Error(String),
}

/// What was read from the descriptor means.
pub open spec fn byte_means(
    read: FdRead,
    r: (ReadinessResult, bool),
) -> bool {
    match read {
        FdRead::Byte => r.0 is Ready && r.1,
        FdRead::End => (r.0 matches ReadinessResult::Failed(m) && m@
            == "ready fd closed without signal"@) && r.1,
        FdRead::WouldBlock => r.0 is NotReady && !r.1,
        FdRead::Error(e) => (r.0 matches ReadinessResult::Failed(m) && m@
            == "ready fd read error: "@ + e@) && !r.1,
    }
}

/// The outcome of reading from the descriptor, and whether the descriptor is
/// to be closed.
pub fn read_result(read: FdRead) -> (r: (ReadinessResult, bool))
    ensures
        byte_means(read, r),
{
    match read {
        FdRead::Byte => (ReadinessResult::Ready, true),
        FdRead::End => {
            (ReadinessResult::Failed(owned("ready fd closed without signal")), true)
        },
        FdRead::WouldBlock => (ReadinessResult::NotReady, false),
        FdRead::Error(e) => {
            (ReadinessResult::Failed(cat("ready fd read error: ", e.as_str())), false)
        },
    }
}

/// Whether `r` is the wait for a service that started at `now`.
pub open spec fn tracks(
    config: ReadinessSection,
    name: Seq<char>,
    now: Instant,
    notify_bound: bool,
    r: ReadinessTracker,
) -> bool {
    &&& r.kind() == config.readiness_type
    &&& r.port_checked() == config.port
    &&& r.command() == match config.check_exec {
            Some(c) => Some(texts(c@)),
            None => None,
        }
    &&& r.limit().total() == readiness_timeout(config.timeout@) * 1_000_000_000
    &&& r.began() == now
    &&& r.socket() == if config.readiness_type == ReadinessType::Notify {
            Some(notify_path(name))
        } else {
            None
        }
    &&& r.bound() == (notify_bound && config.readiness_type == ReadinessType::Notify)
    &&& r.fd() is None
}

/// Whether `r` is what has to be tried at `now`.
pub open spec fn probes(
    t: ReadinessTracker,
    now: Instant,
    r: Probe,
) -> bool {
    if now.nanos - t.began().nanos > t.limit().total() {
        r matches Probe::Known(ReadinessResult::TimedOut)
    } else {
        match t.kind() {
            ReadinessType::NoCheck => r matches Probe::Known(ReadinessResult::Ready),
            ReadinessType::TcpPort => match t.port_checked() {
                Some(p) => r matches Probe::Connect(q) && q == p,
                None => r matches Probe::Known(ReadinessResult::Failed(m)) && m@
                    == "no port configured"@,
            },
            ReadinessType::Exec => match t.command() {
                Some(c) if c.len() > 0 => r matches Probe::Run(d) && texts(d@) == c,
                _ => r matches Probe::Known(ReadinessResult::Failed(m)) && m@
                    == "no check-exec configured"@,
            },
            ReadinessType::Notify => if t.bound() {
                r matches Probe::Receive
            } else {
                r matches Probe::Known(ReadinessResult::Failed(m)) && m@
                    == "no notify socket"@
            },
            ReadinessType::Fd => match t.fd() {
                Some(f) => r matches Probe::Read(g) && g == f,
                None => r matches Probe::Known(ReadinessResult::Failed(m)) && m@
                    == "no ready fd configured"@,
            },
        }
    }
}

/// A service is waited for until the time that its section gives is over; for
/// half a minute where that is no duration. Until then its own kind of check is
/// made: a service without one is ready at once, else its port is connected to,
/// its command is run, its notifications are received, or its descriptor is
/// read.
pub proof fn readiness_is_checked_by_its_kind(
    config: ReadinessSection,
    name: Seq<char>,
    began: Instant,
    bound: bool,
    t: ReadinessTracker,
    now: Instant,
    r: Probe,
)
    requires
        tracks(config, name, began, bound, t),
        probes(t, now, r),
    ensures
        ({
            let secs: int = match duration_secs(config.timeout@) {
                Some(n) => n as int,
                None => 30,
            };
            let kind = config.readiness_type;
            if now.nanos - began.nanos > secs * 1_000_000_000 {
                r is Known && r->Known_0 is TimedOut
            } else {
                &&& kind is NoCheck ==> r is Known && r->Known_0 is Ready
                &&& kind is TcpPort && config.port is Some ==> r is Connect && r->Connect_0
                    == config.port->0
                &&& kind is TcpPort && config.port is None ==> r is Known && r->Known_0 is Failed
                &&& kind is Exec && config.check_exec is Some && config.check_exec->0@.len() > 0
                    ==> r is Run && texts(r->Run_0@) == texts(config.check_exec->0@)
                &&& kind is Exec && (config.check_exec is None || config.check_exec->0@.len() == 0)
                    ==> r is Known && r->Known_0 is Failed
                &&& kind is Notify && bound ==> r is Receive
                &&& kind is Notify && !bound ==> r is Known && r->Known_0 is Failed
                &&& kind is Fd ==> r is Known && r->Known_0 is Failed
            }
        }),
        t.socket() == if config.readiness_type is Notify {
            Some("/run/dynamod/notify-"@ + name + ".sock"@)
        } else {
            None
        },
{
    if config.check_exec is Some {
        assert(texts(config.check_exec->0@).len() == config.check_exec->0@.len());
    }
}

/// A service with a descriptor is read from it while it is waited for.
pub proof fn descriptor_is_read(t: ReadinessTracker, now: Instant, r: Probe)
    requires
        probes(t, now, r),
        t.kind() is Fd,
        t.fd() is Some,
    ensures
        now.nanos - t.began().nanos <= t.limit().total() ==> r is Read && r->Read_0 == t.fd()->0,
        now.nanos - t.began().nanos > t.limit().total() ==> r is Known && r->Known_0 is TimedOut,
{
}

/// A service is ready just where its port takes a connection, its command
/// succeeds, a notification says so, or a byte comes from its descriptor. The
/// descriptor is closed once it gave a byte or ended.
pub proof fn ready_means_that_the_check_succeeded(
    connected: bool,
    a: ReadinessResult,
    ran: Result<bool, String>,
    b: ReadinessResult,
    received: Option<&str>,
    c: ReadinessResult,
    read: FdRead,
    d: (ReadinessResult, bool),
)
    requires
        connection_means(connected, a),
        command_means(ran, b),
        notification_means(received, c),
        byte_means(read, d),
    ensures
        a is Ready <==> connected,
        !connected ==> a is NotReady,
        b is Ready <==> ran is Ok && ran->Ok_0,
        b is NotReady <==> ran is Ok && !ran->Ok_0,
        b is Failed <==> ran is Err,
        c is Ready <==> received is Some && has_part(received->0@, "READY=1"@),
        !(c is Ready) ==> c is NotReady,
        d.0 is Ready <==> read is Byte,
        d.0 is NotReady <==> read is WouldBlock,
        d.0 is Failed <==> read is End || read is Error,
        d.1 <==> read is Byte || read is End,
{
}

} // verus!
