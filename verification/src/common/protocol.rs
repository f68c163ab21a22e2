//! Messages between the components, and their frames on the wire.
//!
//! A frame is two magic bytes, the length of the payload as four bytes with
//! the lowest first, and the payload.

use crate::text::num::{dec, usize_text};
use crate::text::{cat, cat3, owned};
use vstd::prelude::*;
use vstd::slice::slice_subrange;

verus! {

/// The first byte of a frame.
pub const MAGIC_FIRST: u8 = 0x44;

/// The second byte of a frame.
pub const MAGIC_SECOND: u8 = 0x4D;

/// The longest payload, in bytes.
pub const MAX_MESSAGE_SIZE: u32 = 65536;

/// The bytes of a frame before its payload.
pub const HEADER_SIZE: usize = 6;

/// The version of the protocol, which no frame holds.
pub const PROTOCOL_VERSION: u8 = 1;

/// A message.
#[derive(Debug, Clone)]
pub struct Message {
    pub id: u64,
    pub kind: MessageKind,
    pub body: MessageBody,
}

/// Whether a message asks, answers or tells.
#[derive(Debug, Clone, Copy, PartialEq, Eq, Structural)]
pub enum MessageKind {
    Request,
    Response { in_reply_to: u64 },
    Event,
}

/// What a message says.
#[allow(inconsistent_fields)]
#[derive(Debug, Clone)]
pub enum MessageBody {
    /// To init: shut the system down.
    RequestShutdown { kind: ShutdownKind },
    /// To init: the service manager is alive.
    Heartbeat,
    /// From init: the heartbeat came.
    HeartbeatAck,
    /// From init: the kernel asked for a shutdown.
    ShutdownSignal { signal: String },
    /// To init: write to the kernel log.
    LogToKmsg { level: u8, message: String },
    /// Start a service.
    StartService { name: String },
    /// Stop a service.
    StopService { name: String },
    /// Restart a service.
    RestartService { name: String },
    /// Ask for the status of a service.
    ServiceStatus { name: String },
    /// Ask for all services and their statuses.
    ListServices,
    /// Ask for the supervisor tree.
    TreeStatus,
    /// Read the configuration again.
    Reload,
    /// Shut the system down.
    Shutdown { kind: ShutdownKind },
    /// Ask for the service that a process belongs to.
    GetServiceByPid { pid: i32 },
    /// Done, or about to be done.
    Ack,
    /// Refused.
    Error { message: String },
    /// The status of a service.
    ServiceInfo { name: String, status: String, pid: Option<i32>, supervisor: String },
    /// All services.
    ServiceList { services: Vec<ServiceEntry> },
    /// The supervisor tree.
    Tree { text: String },
    /// The service that a process belongs to.
    ServiceByPid { name: Option<String>, pid: i32 },
}

/// A service in a list.
#[derive(Debug, Clone)]
pub struct ServiceEntry {
    pub name: String,
    pub status: String,
    pub pid: Option<i32>,
}

/// How the system goes down.
#[derive(Debug, Clone, Copy, PartialEq, Eq, Structural)]
pub enum ShutdownKind {
    Poweroff,
    Reboot,
    Halt,
}

/// Why a message could not be put into a frame.
#[derive(Debug)]
pub enum EncodeError {
    /// The message could not be serialized, for the reason given.
    Serialize(String),
    /// The payload is too long.
    TooLarge(usize),
}

/// Why a message could not be taken from a buffer.
#[derive(Debug)]
pub enum DecodeError {
    /// The frame has not come in whole.
    Incomplete,
    /// The buffer does not start with a frame.
    BadMagic,
    /// The frame claims a payload that is too long.
    TooLarge(usize),
    /// The payload is no message, for the reason given.
    Deserialize(String),
}

impl EncodeError {
    /// The error in words.
    pub open spec fn text(self) -> Seq<char> {
        match self {
            EncodeError::Serialize(e) => "serialization failed: "@ + e@,
            EncodeError::TooLarge(n) => "message too large: "@ + dec(n as nat) + " bytes"@,
        }
    }

    /// The error in words.
    pub fn message(&self) -> (r: String)
        ensures
            r@ == self.text(),
    {
        match self {
            EncodeError::Serialize(e) => cat("serialization failed: ", e.as_str()),
            EncodeError::TooLarge(n) => {
                cat3("message too large: ", usize_text(*n).as_str(), " bytes")
            },
        }
    }
}

impl DecodeError {
    /// The error in words.
    pub open spec fn text(self) -> Seq<char> {
        match self {
            DecodeError::Incomplete => "incomplete message"@,
            DecodeError::BadMagic => "bad magic bytes"@,
            DecodeError::TooLarge(n) => "message too large: "@ + dec(n as nat) + " bytes"@,
            DecodeError::Deserialize(e) => "deserialization failed: "@ + e@,
        }
    }

    /// The error in words.
    pub fn message(&self) -> (r: String)
        ensures
            r@ == self.text(),
    {
        match self {
            DecodeError::Incomplete => owned("incomplete message"),
            DecodeError::BadMagic => owned("bad magic bytes"),
            DecodeError::TooLarge(n) => {
                cat3("message too large: ", usize_text(*n).as_str(), " bytes")
            },
            DecodeError::Deserialize(e) => cat("deserialization failed: ", e.as_str()),
        }
    }
}

/// The four bytes of a number, the lowest first.
pub open spec fn le_bytes(n: nat) -> Seq<u8> {
    seq![
        (n % 256) as u8,
        (n / 256 % 256) as u8,
        (n / 65536 % 256) as u8,
        (n / 16777216 % 256) as u8,
    ]
}

/// The number that four bytes make, the lowest first.
pub open spec fn le_value(b: Seq<u8>) -> nat {
    (b[0] + 256 * b[1] + 65536 * b[2] + 16777216 * b[3]) as nat
}

/// The bytes of a number make the number.
pub proof fn lemma_le_bytes(n: nat)
    requires
        n <= u32::MAX,
    ensures
        le_bytes(n).len() == 4,
        le_value(le_bytes(n)) == n,
{
    let a = n / 256;
    let b = n / 65536;
    let c = n / 16777216;
    assert(a / 256 == b);
    assert(b / 256 == c);
    assert(n == 256 * a + n % 256);
    assert(a == 256 * b + a % 256);
    assert(b == 256 * c + b % 256);
    assert(c < 256);
    assert(c % 256 == c);
}

/// The frame of a payload.
pub open spec fn frame(payload: Seq<u8>) -> Seq<u8> {
    seq![MAGIC_FIRST, MAGIC_SECOND] + le_bytes(payload.len()) + payload
}

/// The payload of the frame at the start of a buffer and the length of the
/// frame, or why there is none.
pub open spec fn unframed(buf: Seq<u8>) -> Result<(Seq<u8>, nat), DecodeError> {
    if buf.len() < HEADER_SIZE {
        Err(DecodeError::Incomplete)
    } else if buf[0] != MAGIC_FIRST || buf[1] != MAGIC_SECOND {
        Err(DecodeError::BadMagic)
    } else {
        let len = le_value(buf.subrange(2, 6));
        if len > MAX_MESSAGE_SIZE {
            Err(DecodeError::TooLarge(len as usize))
        } else if buf.len() < HEADER_SIZE + len {
            Err(DecodeError::Incomplete)
        } else {
            Ok((buf.subrange(6, 6 + len as int), 6 + len))
        }
    }
}

fn push_all(buf: &mut Vec<u8>, bytes: &[u8])
    ensures
        final(buf)@ == old(buf)@ + bytes@,
{
    let mut i: usize = 0;
    assert(buf@ =~= old(buf)@ + bytes@.take(0));
    while i < bytes.len()
        invariant
            i <= bytes.len(),
            buf@ == old(buf)@ + bytes@.take(i as int),
        decreases bytes.len() - i,
    {
        buf.push(bytes[i]);
        assert(buf@ =~= old(buf)@ + bytes@.take(i + 1));
        i += 1;
    }
    assert(bytes@.take(bytes@.len() as int) == bytes@);
}

/// What putting a payload into a frame gives.
pub open spec fn framed(
    payload: Seq<u8>,
    r: Result<Vec<u8>, EncodeError>,
) -> bool {
    match r {
        Ok(buf) => payload.len() <= MAX_MESSAGE_SIZE && buf@ == frame(payload),
        Err(e) => payload.len() > MAX_MESSAGE_SIZE && e == EncodeError::TooLarge(
            payload.len() as usize,
        ),
    }
}

/// Puts a payload into a frame.
pub fn encode(payload: &[u8]) -> (r: Result<Vec<u8>, EncodeError>)
    ensures
        framed(payload@, r),
{
    let n = payload.len();
    if n > MAX_MESSAGE_SIZE as usize {
        return Err(EncodeError::TooLarge(n));
    }
    let mut buf: Vec<u8> = Vec::new();
    buf.push(MAGIC_FIRST);
    buf.push(MAGIC_SECOND);
    buf.push((n % 256) as u8);
    buf.push((n / 256 % 256) as u8);
    buf.push((n / 65536 % 256) as u8);
    buf.push((n / 16777216 % 256) as u8);
    push_all(&mut buf, payload);
    assert(buf@ =~= frame(payload@));
    Ok(buf)
}

/// Puts a serialized message into a frame.
pub fn encode_serialized(serialized: Result<Vec<u8>, String>) -> (r: Result<Vec<u8>, EncodeError>)
    ensures
        match serialized {
            Ok(payload) => match r {
                Ok(buf) => payload@.len() <= MAX_MESSAGE_SIZE && buf@ == frame(payload@),
                Err(e) => payload@.len() > MAX_MESSAGE_SIZE && e == EncodeError::TooLarge(
                    payload@.len() as usize,
                ),
            },
            Err(why) => r == Err::<Vec<u8>, EncodeError>(EncodeError::Serialize(why)),
        },
{
    match serialized {
        Ok(payload) => encode(&payload),
        Err(why) => Err(EncodeError::Serialize(why)),
    }
}

/// What taking a payload from a buffer gives.
pub open spec fn taken(
    buf: Seq<u8>,
    r: Result<(Vec<u8>, usize), DecodeError>,
) -> bool {
    match r {
        Ok((payload, n)) => unframed(buf) == Ok::<(Seq<u8>, nat), DecodeError>(
            (payload@, n as nat),
        ),
        Err(e) => unframed(buf) == Err::<(Seq<u8>, nat), DecodeError>(e),
    }
}

/// Takes the payload of the frame at the start of `buf`, and says how many
/// bytes the frame has.
pub fn decode(buf: &[u8]) -> (r: Result<(Vec<u8>, usize), DecodeError>)
    ensures
        taken(buf@, r),
{
    if buf.len() < HEADER_SIZE {
        return Err(DecodeError::Incomplete);
    }
    if buf[0] != MAGIC_FIRST || buf[1] != MAGIC_SECOND {
        return Err(DecodeError::BadMagic);
    }
    let len: u32 = buf[2] as u32 + 256 * buf[3] as u32 + 65536 * buf[4] as u32 + 16777216
        * buf[5] as u32;
    assert(len == le_value(buf@.subrange(2, 6)));
    if len > MAX_MESSAGE_SIZE {
        return Err(DecodeError::TooLarge(len as usize));
    }
    let total: usize = HEADER_SIZE + len as usize;
    if buf.len() < total {
        return Err(DecodeError::Incomplete);
    }
    let mut payload: Vec<u8> = Vec::new();
    push_all(&mut payload, slice_subrange(buf, HEADER_SIZE, total));
    assert(payload@ =~= buf@.subrange(6, 6 + len));
    Ok((payload, total))
}

/// What became of a payload of a frame of `consumed` bytes, once it was
/// parsed.
pub fn decode_parsed(parsed: Result<Message, String>, consumed: usize) -> (r: Result<
    (Message, usize),
    DecodeError,
>)
    ensures
        match parsed {
            Ok(msg) => r == Ok::<(Message, usize), DecodeError>((msg, consumed)),
            Err(why) => r == Err::<(Message, usize), DecodeError>(DecodeError::Deserialize(why)),
        },
{
    match parsed {
        Ok(msg) => Ok((msg, consumed)),
        Err(why) => Err(DecodeError::Deserialize(why)),
    }
}

/// What was put into a frame is taken from it again, whatever follows.
pub proof fn frame_round_trip(payload: Seq<u8>, rest: Seq<u8>)
    requires
        payload.len() <= MAX_MESSAGE_SIZE,
    ensures
        unframed(frame(payload) + rest) == Ok::<(Seq<u8>, nat), DecodeError>(
            (payload, frame(payload).len()),
        ),
        (frame(payload) + rest).skip(frame(payload).len() as int) == rest,
{
    let buf = frame(payload) + rest;
    lemma_le_bytes(payload.len());
    assert(buf.subrange(2, 6) =~= le_bytes(payload.len()));
    assert(buf.subrange(6, 6 + payload.len() as int) =~= payload);
    assert(buf.skip(frame(payload).len() as int) =~= rest);
}

/// A frame that has not come in whole is waited for.
pub proof fn partial_frame_is_incomplete(payload: Seq<u8>, n: int)
    requires
        payload.len() <= MAX_MESSAGE_SIZE,
        0 <= n < frame(payload).len(),
    ensures
        unframed(frame(payload).take(n)) == Err::<(Seq<u8>, nat), DecodeError>(
            DecodeError::Incomplete,
        ),
{
    let buf = frame(payload).take(n);
    if n >= HEADER_SIZE {
        lemma_le_bytes(payload.len());
        assert(buf.subrange(2, 6) =~= le_bytes(payload.len()));
    }
}

/// A buffer whose bytes are taken as a frame held just that frame.
pub proof fn decoded_bytes_are_the_frame(buf: Seq<u8>, payload: Seq<u8>, n: nat)
    requires
        unframed(buf) == Ok::<(Seq<u8>, nat), DecodeError>((payload, n)),
    ensures
        n <= buf.len(),
        n == frame(payload).len(),
        buf.take(n as int) == frame(payload),
{
    let len = le_value(buf.subrange(2, 6));
    let b = buf.subrange(2, 6);
    assert(payload.len() == len);
    lemma_le_bytes(len);
    assert(b =~= le_bytes(len));
    assert(buf.take(n as int) =~= frame(payload));
}

/// The reason given by an answer that does not hold what was asked for.
pub open spec fn refusal(body: MessageBody) -> Seq<char> {
    match body {
        MessageBody::Error { message } => message@,
        _ => "unexpected response"@,
    }
}

/// The reason given by an answer that does not hold what was asked for.
pub fn refused(body: MessageBody) -> (r: String)
    ensures
        r@ == refusal(body),
{
    match body {
        MessageBody::Error { message } => message,
        _ => owned("unexpected response"),
    }
}

/// A payload of up to 65536 bytes gets a frame: the letters `D` and `M`, its
/// length in four bytes, the lowest first, and the payload itself. A longer one
/// gets none.
pub proof fn frame_is_letters_length_and_payload(
    payload: Seq<u8>,
    r: Result<Vec<u8>, EncodeError>,
    i: int,
)
    requires
        framed(payload, r),
    ensures
        r is Ok <==> payload.len() <= 65536,
        r matches Ok(f) ==> {
            &&& f@.len() == payload.len() + 6
            &&& f@[0] == 0x44
            &&& f@[1] == 0x4d
            &&& f@[2] + 256 * f@[3] + 65536 * f@[4] + 16777216 * f@[5] == payload.len()
            &&& 0 <= i < payload.len() ==> f@[i + 6] == payload[i]
        },
{
    if r is Ok {
        let f = r->Ok_0@;
        lemma_le_bytes(payload.len());
        let l = le_bytes(payload.len());
        assert(f[2] == l[0] && f[3] == l[1] && f[4] == l[2] && f[5] == l[3]);
    }
}

/// What one end puts into a frame, the other end takes from it, however much
/// follows; and it takes just the bytes of the frame.
pub proof fn framed_payload_arrives(
    payload: Seq<u8>,
    sent: Vec<u8>,
    rest: Seq<u8>,
    r: Result<(Vec<u8>, usize), DecodeError>,
)
    requires
        framed(payload, Ok(sent)),
        taken(sent@ + rest, r),
    ensures
        r is Ok,
        r->Ok_0.0@ == payload,
        r->Ok_0.1 == sent@.len(),
{
    frame_round_trip(payload, rest);
}

} // verus!
