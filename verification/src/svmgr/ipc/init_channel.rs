//! The channel to init: numbering of messages, and the bytes that came in.

use crate::common::protocol::{
    decode, frame, frame_round_trip, partial_frame_is_incomplete, unframed, DecodeError, Message,
    MessageBody, MessageKind, ShutdownKind, MAX_MESSAGE_SIZE,
};
use crate::text::cat;
use vstd::prelude::*;

verus! {

/// The numbers of messages.
#[derive(Debug)]
pub struct MessageIds {
    next: u64,
}

impl MessageIds {
    /// The number that comes next.
    pub closed spec fn upcoming(self) -> u64 {
        self.next
    }

    /// Numbers from one on.
    pub fn new() -> (r: Self)
        ensures
            r.upcoming() == 1,
    {
        MessageIds { next: 1 }
    }

    /// Gives out a number. After the largest comes zero.
    pub fn next_id(&mut self) -> (r: u64)
        ensures
            r == old(self).upcoming(),
            final(self).upcoming() == (old(self).upcoming() + 1) % 0x1_0000_0000_0000_0000,
    {
        let r = self.next;
        self.next = r.wrapping_add(1);
        r
    }

    /// A request with a number of its own.
    pub fn request(&mut self, body: MessageBody) -> (r: Message)
        ensures
            r == (Message { id: old(self).upcoming(), kind: MessageKind::Request, body }),
            final(self).upcoming() == (old(self).upcoming() + 1) % 0x1_0000_0000_0000_0000,
    {
        let id = self.next_id();
        Message { id, kind: MessageKind::Request, body }
    }

    /// The request that tells init that the service manager is alive.
    pub fn heartbeat(&mut self) -> (r: Message)
        ensures
            r == (Message {
                id: old(self).upcoming(),
                kind: MessageKind::Request,
                body: MessageBody::Heartbeat,
            }),
            final(self).upcoming() == (old(self).upcoming() + 1) % 0x1_0000_0000_0000_0000,
    {
        self.request(MessageBody::Heartbeat)
    }

    /// The request to shut the system down.
    pub fn request_shutdown(&mut self, kind: ShutdownKind) -> (r: Message)
        ensures
            r == (Message {
                id: old(self).upcoming(),
                kind: MessageKind::Request,
                body: MessageBody::RequestShutdown { kind },
            }),
            final(self).upcoming() == (old(self).upcoming() + 1) % 0x1_0000_0000_0000_0000,
    {
        self.request(MessageBody::RequestShutdown { kind })
    }

    /// The request to write to the kernel log.
    pub fn log_to_kmsg(&mut self, level: u8, message: String) -> (r: Message)
        ensures
            r == (Message {
                id: old(self).upcoming(),
                kind: MessageKind::Request,
                body: MessageBody::LogToKmsg { level, message },
            }),
            final(self).upcoming() == (old(self).upcoming() + 1) % 0x1_0000_0000_0000_0000,
    {
        self.request(MessageBody::LogToKmsg { level, message })
    }
}

/// Why a message could not be sent.
#[derive(Debug)]
pub enum SendError {
    /// It could not be put into a frame, for the reason given.
    Encode(String),
    /// It could not be written, for the reason given.
    Io(String),
}

impl SendError {
    /// The error in words.
    pub open spec fn text(self) -> Seq<char> {
        match self {
            SendError::Encode(why) => "encode error: "@ + why@,
            SendError::Io(why) => "I/O error: "@ + why@,
        }
    }

    /// The error in words.
    pub fn message(&self) -> (r: String)
        ensures
            r@ == self.text(),
    {
        match self {
            SendError::Encode(why) => cat("encode error: ", why.as_str()),
            SendError::Io(why) => cat("I/O error: ", why.as_str()),
        }
    }
}

/// The bytes that came in and have not been taken as messages yet.
#[derive(Debug)]
pub struct ReadBuffer {
    bytes: Vec<u8>,
}

impl View for ReadBuffer {
    type V = Seq<u8>;

    closed spec fn view(&self) -> Seq<u8> {
        self.bytes@
    }
}

impl ReadBuffer {
    /// An empty buffer.
    pub fn new() -> (r: Self)
        ensures
            r@ == Seq::<u8>::empty(),
    {
        ReadBuffer { bytes: Vec::new() }
    }

    /// Adds bytes that came in.
    pub fn feed(&mut self, data: &[u8])
        ensures
            final(self)@ == old(self)@ + data@,
    {
        let mut i: usize = 0;
        assert(self.bytes@ =~= old(self)@ + data@.take(0));
        while i < data.len()
            invariant
                i <= data.len(),
                self.bytes@ == old(self)@ + data@.take(i as int),
            decreases data.len() - i,
        {
            self.bytes.push(data[i]);
            assert(self.bytes@ =~= old(self)@ + data@.take(i + 1));
            i += 1;
        }
        assert(data@.take(data@.len() as int) == data@);
    }

    /// The payload of the frame at the start of the buffer and the length of
    /// the frame, where it has come in whole. Bytes that start no frame are
    /// thrown away, and all behind them.
    pub fn next_payload(&mut self) -> (r: Option<(Vec<u8>, usize)>)
        ensures
            payload_looked_for(old(self)@, final(self)@, r),
    {
        match decode(&self.bytes) {
            Ok((payload, n)) => Some((payload, n)),
            Err(DecodeError::Incomplete) => None,
            Err(_) => {
                self.bytes.clear();
                None
            },
        }
    }

    /// Takes the frame of `consumed` bytes out of the buffer, once its payload
    /// was parsed. Where that failed, all bytes are thrown away.
    pub fn settle(&mut self, parsed: Result<Message, String>, consumed: usize) -> (r: Option<
        Message,
    >)
        requires
            consumed <= old(self)@.len(),
        ensures
            payload_settled(old(self)@, final(self)@, parsed, consumed, r),
    {
        match parsed {
            Ok(msg) => {
                let rest = self.bytes.split_off(consumed);
                self.bytes = rest;
                assert(self.bytes@ =~= old(self)@.skip(consumed as int));
                Some(msg)
            },
            Err(_) => {
                self.bytes.clear();
                None
            },
        }
    }
}

/// What looking for a payload does and gives.
pub open spec fn payload_looked_for(
    pre: Seq<u8>,
    post: Seq<u8>,
    r: Option<(Vec<u8>, usize)>,
) -> bool {
    match unframed(pre) {
        Ok((payload, n)) => {
            &&& r matches Some((p, k)) && p@ == payload && k == n
            &&& n <= pre.len()
            &&& post == pre
        },
        Err(DecodeError::Incomplete) => r is None && post == pre,
        Err(_) => r is None && post == Seq::<u8>::empty(),
    }
}

/// What settling a payload does and gives.
pub open spec fn payload_settled(
    pre: Seq<u8>,
    post: Seq<u8>,
    parsed: Result<Message, String>,
    consumed: usize,
    r: Option<Message>,
) -> bool {
    match parsed {
        Ok(msg) => r == Some(msg) && post == pre.skip(consumed as int),
        Err(_) => r is None && post == Seq::<u8>::empty(),
    }
}

/// A message that came in whole at the start of the buffer is found, and once it
/// was parsed it is handed out and what came behind it is left.
pub proof fn whole_message_is_handed_out(
    payload: Seq<u8>,
    rest: Seq<u8>,
    mid: Seq<u8>,
    found: Option<(Vec<u8>, usize)>,
    post: Seq<u8>,
    m: Message,
    out: Option<Message>,
)
    requires
        payload.len() <= MAX_MESSAGE_SIZE,
        payload_looked_for(frame(payload) + rest, mid, found),
        found is Some ==> payload_settled(mid, post, Ok(m), (found->0).1, out),
    ensures
        found is Some,
        (found->0).0@ == payload,
        out == Some(m),
        post == rest,
{
    frame_round_trip(payload, rest);
}

/// A message that has not come in whole is waited for, and no byte is lost.
/// Bytes that start no message are thrown away.
pub proof fn partial_message_is_waited_for(
    payload: Seq<u8>,
    n: int,
    post: Seq<u8>,
    found: Option<(Vec<u8>, usize)>,
)
    requires
        payload.len() <= MAX_MESSAGE_SIZE,
        0 <= n < frame(payload).len(),
        payload_looked_for(frame(payload).take(n), post, found),
    ensures
        found is None,
        post == frame(payload).take(n),
{
    partial_frame_is_incomplete(payload, n);
}

} // verus!
