//! Requests of the login manager to the service manager.

use crate::common::protocol::{DecodeError, Message, MessageBody, MessageKind, ShutdownKind};
use crate::svmgr::ipc::control::{answers, ControlAction};
use crate::svmgr::supervisor::tree::SupervisorTree;
use crate::text::{cat, owned};
use vstd::prelude::*;

verus! {

/// Why a request failed.
#[derive(Debug)]
pub enum SvmgrError {
    Connect(String),
    Send(String),
    Recv(String),
    Protocol(String),
}

impl SvmgrError {
    /// The error in words.
    pub open spec fn text(self) -> Seq<char> {
        match self {
            SvmgrError::Connect(e) => "failed to connect to control socket: "@ + e@,
            SvmgrError::Send(e) => "failed to send message: "@ + e@,
            SvmgrError::Recv(e) => "failed to read response: "@ + e@,
            SvmgrError::Protocol(e) => "protocol error: "@ + e@,
        }
    }

    /// The error in words.
    pub fn message(&self) -> (r: String)
        ensures
            r@ == self.text(),
    {
        match self {
            SvmgrError::Connect(e) => cat("failed to connect to control socket: ", e.as_str()),
            SvmgrError::Send(e) => cat("failed to send message: ", e.as_str()),
            SvmgrError::Recv(e) => cat("failed to read response: ", e.as_str()),
            SvmgrError::Protocol(e) => cat("protocol error: ", e.as_str()),
        }
    }
}

/// Whether `r` is the request to shut the system down.
pub open spec fn shutdown_message(
    kind: ShutdownKind,
    r: Message,
) -> bool {
    &&& r.id == 1
    &&& r.kind == MessageKind::Request
    &&& r.body == (MessageBody::Shutdown { kind })
}

/// The request to shut the system down.
pub fn request_shutdown(kind: ShutdownKind) -> (r: Message)
    ensures
        shutdown_message(kind, r),
{
    Message { id: 1, kind: MessageKind::Request, body: MessageBody::Shutdown { kind } }
}

/// What the answer to a request says.
pub open spec fn command_answered(
    received: usize,
    decoded: Result<Message, DecodeError>,
    r: Result<(), SvmgrError>,
) -> bool {
    match r {
        Ok(_) => received > 0 && (decoded matches Ok(m) && m.body is Ack),
        Err(SvmgrError::Protocol(e)) => if received == 0 {
            e@ == "empty response"@
        } else {
            match decoded {
                Err(d) => e@ == d.text(),
                Ok(m) => match m.body {
                    MessageBody::Ack => false,
                    MessageBody::Error { message } => e@ == message@,
                    _ => e@ == "unexpected response"@,
                },
            }
        },
        Err(_) => false,
    }
}

/// What the answer to a request says: `received` bytes came, which were taken
/// for `decoded`.
pub fn command_result(received: usize, decoded: Result<Message, DecodeError>) -> (r: Result<
    (),
    SvmgrError,
>)
    ensures
        command_answered(received, decoded, r),
{
    if received == 0 {
        return Err(SvmgrError::Protocol(owned("empty response")));
    }
    match decoded {
        Err(d) => Err(SvmgrError::Protocol(d.message())),
        Ok(m) => match m.body {
            MessageBody::Ack => Ok(()),
            MessageBody::Error { message } => Err(SvmgrError::Protocol(message)),
            _ => Err(SvmgrError::Protocol(owned("unexpected response"))),
        },
    }
}

/// The service manager that gets the request shuts the system down in just that
/// way, and acknowledges it; and a request was carried out just where it was
/// acknowledged.
pub proof fn shutdown_reaches_the_service_manager(
    kind: ShutdownKind,
    q: Message,
    tree: SupervisorTree,
    reply: MessageBody,
    action: Option<ControlAction>,
    received: usize,
    decoded: Result<Message, DecodeError>,
    r: Result<(), SvmgrError>,
)
    requires
        shutdown_message(kind, q),
        answers(tree, q.body, reply, action),
        command_answered(received, decoded, r),
    ensures
        action == Some(ControlAction::Shutdown(kind)),
        reply is Ack,
        r is Ok <==> received > 0 && decoded is Ok && decoded->Ok_0.body is Ack,
{
}

} // verus!
