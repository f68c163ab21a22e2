//! Requests to the service manager, and what its answers say.

use crate::common::protocol::{
    refusal, refused, DecodeError, Message, MessageBody, MessageKind, ServiceEntry, ShutdownKind,
};
use crate::text::{cat, owned};
use vstd::prelude::*;

verus! {

/// Numbers the requests.
#[derive(Debug)]
pub struct SvmgrClient {
    pub next_id: u64,
}

/// The status of a service.
#[derive(Debug)]
pub struct ServiceInfo {
    pub name: String,
    pub status: String,
    pub pid: Option<i32>,
    pub supervisor: String,
}

impl SvmgrClient {
    /// The first request has the number 1.
    pub fn new() -> (r: Self)
        ensures
            r.next_id == 1,
    {
        SvmgrClient { next_id: 1 }
    }

    /// The next number, while there is one.
    pub fn next_id(&mut self) -> (r: u64)
        requires
            old(self).next_id < u64::MAX,
        ensures
            r == old(self).next_id,
            final(self).next_id == old(self).next_id + 1,
    {
        let id = self.next_id;
        self.next_id = id + 1;
        id
    }

    /// A request.
    pub fn request(&mut self, body: MessageBody) -> (r: Message)
        requires
            old(self).next_id < u64::MAX,
        ensures
            r == (Message { id: old(self).next_id, kind: MessageKind::Request, body }),
            final(self).next_id == old(self).next_id + 1,
    {
        let id = self.next_id();
        Message { id, kind: MessageKind::Request, body }
    }

    /// The request to start a service.
    pub fn start_service(&mut self, name: &str) -> (r: Message)
        requires
            old(self).next_id < u64::MAX,
        ensures
            start_asked(*old(self), *final(self), name@, r),
    {
        self.request(MessageBody::StartService { name: owned(name) })
    }

    /// The request to stop a service.
    pub fn stop_service(&mut self, name: &str) -> (r: Message)
        requires
            old(self).next_id < u64::MAX,
        ensures
            stop_asked(*old(self), *final(self), name@, r),
    {
        self.request(MessageBody::StopService { name: owned(name) })
    }

    /// The request to restart a service.
    pub fn restart_service(&mut self, name: &str) -> (r: Message)
        requires
            old(self).next_id < u64::MAX,
        ensures
            restart_asked(*old(self), *final(self), name@, r),
    {
        self.request(MessageBody::RestartService { name: owned(name) })
    }

    /// The request for the status of a service.
    pub fn service_status(&mut self, name: &str) -> (r: Message)
        requires
            old(self).next_id < u64::MAX,
        ensures
            status_asked(*old(self), *final(self), name@, r),
    {
        self.request(MessageBody::ServiceStatus { name: owned(name) })
    }

    /// The request for all services.
    pub fn list_services(&mut self) -> (r: Message)
        requires
            old(self).next_id < u64::MAX,
        ensures
            list_asked(*old(self), *final(self), r),
    {
        self.request(MessageBody::ListServices)
    }

    /// The request for the service that a process belongs to.
    pub fn service_by_pid(&mut self, pid: i32) -> (r: Message)
        requires
            old(self).next_id < u64::MAX,
        ensures
            pid_asked(*old(self), *final(self), pid, r),
    {
        self.request(MessageBody::GetServiceByPid { pid })
    }

    /// The request to read the configuration again.
    pub fn reload(&mut self) -> (r: Message)
        requires
            old(self).next_id < u64::MAX,
        ensures
            reload_asked(*old(self), *final(self), r),
    {
        self.request(MessageBody::Reload)
    }

    /// The request to shut the system down.
    pub fn shutdown(&mut self, kind: ShutdownKind) -> (r: Message)
        requires
            old(self).next_id < u64::MAX,
        ensures
            shutdown_asked(*old(self), *final(self), kind, r),
    {
        self.request(MessageBody::Shutdown { kind })
    }
}

/// What is taken for a reply.
pub open spec fn reply_taken(
    received: usize,
    decoded: Result<Message, DecodeError>,
    r: Result<MessageBody, String>,
) -> bool {
    match r {
        Ok(b) => received > 0 && (decoded matches Ok(m) && b == m.body),
        Err(e) => if received == 0 {
            e@ == "empty response"@
        } else {
            decoded matches Err(d) && e@ == "decode: "@ + d.text()
        },
    }
}

/// What came back: `received` bytes, which were taken for `decoded`.
pub fn reply_body(received: usize, decoded: Result<Message, DecodeError>) -> (r: Result<
    MessageBody,
    String,
>)
    ensures
        reply_taken(received, decoded, r),
{
    if received == 0 {
        return Err(owned("empty response"));
    }
    match decoded {
        Ok(m) => Ok(m.body),
        Err(d) => {
            let t = d.message();
            Err(cat("decode: ", t.as_str()))
        },
    }
}

/// What a reply says of whether a request was carried out.
pub open spec fn acked(
    reply: Result<MessageBody, String>,
    r: Result<(), String>,
) -> bool {
    match (reply, r) {
        (Err(e), Err(f)) => f == e,
        (Ok(b), Ok(_)) => b is Ack,
        (Ok(b), Err(f)) => !(b is Ack) && f@ == refusal(b),
        _ => false,
    }
}

/// Whether a request was carried out.
pub fn ack_result(reply: Result<MessageBody, String>) -> (r: Result<(), String>)
    ensures
        acked(reply, r),
{
    match reply {
        Err(e) => Err(e),
        Ok(b) => match b {
            MessageBody::Ack => Ok(()),
            other => Err(refused(other)),
        },
    }
}

/// What a reply says of a service.
pub open spec fn status_told(
    reply: Result<MessageBody, String>,
    r: Result<ServiceInfo, String>,
) -> bool {
    match (reply, r) {
        (Err(e), Err(f)) => f == e,
        (Ok(b), Ok(i)) => b == (MessageBody::ServiceInfo {
            name: i.name,
            status: i.status,
            pid: i.pid,
            supervisor: i.supervisor,
        }),
        (Ok(b), Err(f)) => !(b is ServiceInfo) && f@ == refusal(b),
        _ => false,
    }
}

/// The status in an answer.
pub fn status_result(reply: Result<MessageBody, String>) -> (r: Result<ServiceInfo, String>)
    ensures
        status_told(reply, r),
{
    match reply {
        Err(e) => Err(e),
        Ok(b) => match b {
            MessageBody::ServiceInfo { name, status, pid, supervisor } => Ok(
                ServiceInfo { name, status, pid, supervisor },
            ),
            other => Err(refused(other)),
        },
    }
}

/// What a reply says of the services.
pub open spec fn list_told(
    reply: Result<MessageBody, String>,
    r: Result<Vec<ServiceEntry>, String>,
) -> bool {
    match (reply, r) {
        (Err(e), Err(f)) => f == e,
        (Ok(b), Ok(v)) => b == (MessageBody::ServiceList { services: v }),
        (Ok(b), Err(f)) => !(b is ServiceList) && f@ == refusal(b),
        _ => false,
    }
}

/// The services in an answer.
pub fn list_result(reply: Result<MessageBody, String>) -> (r: Result<Vec<ServiceEntry>, String>)
    ensures
        list_told(reply, r),
{
    match reply {
        Err(e) => Err(e),
        Ok(b) => match b {
            MessageBody::ServiceList { services } => Ok(services),
            other => Err(refused(other)),
        },
    }
}

/// What a reply says of a process.
pub open spec fn pid_told(
    reply: Result<MessageBody, String>,
    r: Result<Option<String>, String>,
) -> bool {
    match (reply, r) {
        (Err(e), Err(f)) => f == e,
        (Ok(b), Ok(n)) => b matches MessageBody::ServiceByPid { name, pid } && n == name,
        (Ok(b), Err(f)) => !(b is ServiceByPid) && f@ == refusal(b),
        _ => false,
    }
}

/// The name in an answer about a process.
pub fn pid_result(reply: Result<MessageBody, String>) -> (r: Result<Option<String>, String>)
    ensures
        pid_told(reply, r),
{
    match reply {
        Err(e) => Err(e),
        Ok(b) => match b {
            MessageBody::ServiceByPid { name, pid: _ } => Ok(name),
            other => Err(refused(other)),
        },
    }
}

/// Whether `r` is a request to start a service.
pub open spec fn start_asked(
    pre: SvmgrClient,
    post: SvmgrClient,
    name: Seq<char>,
    r: Message,
) -> bool {
    &&& r.id == pre.next_id
    &&& r.kind == MessageKind::Request
    &&& r.body matches MessageBody::StartService { name: n } && n@ == name
    &&& post.next_id == pre.next_id + 1
}

/// Whether `r` is a request to stop a service.
pub open spec fn stop_asked(
    pre: SvmgrClient,
    post: SvmgrClient,
    name: Seq<char>,
    r: Message,
) -> bool {
    &&& r.id == pre.next_id
    &&& r.kind == MessageKind::Request
    &&& r.body matches MessageBody::StopService { name: n } && n@ == name
    &&& post.next_id == pre.next_id + 1
}

/// Whether `r` is a request to restart a service.
pub open spec fn restart_asked(
    pre: SvmgrClient,
    post: SvmgrClient,
    name: Seq<char>,
    r: Message,
) -> bool {
    &&& r.id == pre.next_id
    &&& r.kind == MessageKind::Request
    &&& r.body matches MessageBody::RestartService { name: n } && n@ == name
    &&& post.next_id == pre.next_id + 1
}

/// Whether `r` is a request to tell of a service.
pub open spec fn status_asked(
    pre: SvmgrClient,
    post: SvmgrClient,
    name: Seq<char>,
    r: Message,
) -> bool {
    &&& r.id == pre.next_id
    &&& r.kind == MessageKind::Request
    &&& r.body matches MessageBody::ServiceStatus { name: n } && n@ == name
    &&& post.next_id == pre.next_id + 1
}

/// Whether `r` is a request to list the services.
pub open spec fn list_asked(
    pre: SvmgrClient,
    post: SvmgrClient,
    r: Message,
) -> bool {
    &&& r.id == pre.next_id
    &&& r.kind == MessageKind::Request
    &&& r.body is ListServices
    &&& post.next_id == pre.next_id + 1
}

/// Whether `r` is a request to tell of a process.
pub open spec fn pid_asked(
    pre: SvmgrClient,
    post: SvmgrClient,
    pid: i32,
    r: Message,
) -> bool {
    &&& r.id == pre.next_id
    &&& r.kind == MessageKind::Request
    &&& r.body == (MessageBody::GetServiceByPid { pid })
    &&& post.next_id == pre.next_id + 1
}

/// Whether `r` is a request to read the configuration again.
pub open spec fn reload_asked(
    pre: SvmgrClient,
    post: SvmgrClient,
    r: Message,
) -> bool {
    &&& r.id == pre.next_id
    &&& r.kind == MessageKind::Request
    &&& r.body is Reload
    &&& post.next_id == pre.next_id + 1
}

/// Whether `r` is a request to shut the system down.
pub open spec fn shutdown_asked(
    pre: SvmgrClient,
    post: SvmgrClient,
    kind: ShutdownKind,
    r: Message,
) -> bool {
    &&& r.id == pre.next_id
    &&& r.kind == MessageKind::Request
    &&& r.body == (MessageBody::Shutdown { kind })
    &&& post.next_id == pre.next_id + 1
}

} // verus!
