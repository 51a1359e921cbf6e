//! Framing of the AppLoad socket protocol spoken between the QML frontend and the backend.
//!
//! Every message is sent as two SEQPACKET datagrams: an 8-byte header holding the message
//! type and the payload length as little-endian `u32`s, then the payload itself. System
//! messages (types from `SYS_NEW_FRONTEND` up) carry no payload the backend reads.
use vstd::prelude::*;

verus! {

/// Frontend to backend: a request.
pub const MSG_REQUEST: u32 = 1;

/// Backend to frontend: the response to a request.
pub const MSG_RESPONSE: u32 = 2;

/// Backend to frontend: an unsolicited event.
pub const MSG_EVENT: u32 = 3;

/// System message: a new frontend connected.
pub const SYS_NEW_FRONTEND: u32 = 0xFFFF_FFFE;

/// System message: the backend should terminate.
pub const SYS_TERMINATE: u32 = 0xFFFF_FFFF;

/// Size of a message header in bytes.
pub const HEADER_SIZE: usize = 8;

/// The little-endian number held by the four bytes of `b` starting at `at`.
pub open spec fn le_u32(b: Seq<u8>, at: int) -> int {
    b[at] + 256 * b[at + 1] + 65536 * b[at + 2] + 16777216 * b[at + 3]
}

/// The four little-endian bytes of `v`.
pub open spec fn le_bytes(v: u32) -> Seq<u8> {
    seq![(v % 256) as u8, ((v / 256) % 256) as u8, ((v / 65536) % 256) as u8, (v / 16777216) as u8]
}

/// Reads the little-endian `u32` at byte offset `at`.
pub fn read_u32_le(buf: &[u8], at: usize) -> (r: u32)
    requires
        at + 4 <= buf@.len(),
    ensures
        r == le_u32(buf@, at as int),
{
    let b0 = buf[at] as u32;
    let b1 = buf[at + 1] as u32;
    let b2 = buf[at + 2] as u32;
    let b3 = buf[at + 3] as u32;
    b0 + b1 * 256 + b2 * 65536 + b3 * 16777216
}

/// The four little-endian bytes of `v`.
pub fn u32_le_bytes(v: u32) -> (r: Vec<u8>)
    ensures
        r@ == le_bytes(v),
{
    let mut r: Vec<u8> = Vec::new();
    r.push((v % 256) as u8);
    r.push(((v / 256) % 256) as u8);
    r.push(((v / 65536) % 256) as u8);
    r.push((v / 16777216) as u8);
    r
}

/// Decodes a message header: `(message type, payload length)`, or `None` when fewer than
/// `HEADER_SIZE` bytes were received.
pub fn decode_header(buf: &[u8]) -> (r: Option<(u32, u32)>)
    ensures
        r is None <==> buf@.len() < HEADER_SIZE,
        r matches Some((t, l)) ==> t == le_u32(buf@, 0) && l == le_u32(buf@, 4),
{
    if buf.len() < HEADER_SIZE {
        return None;
    }
    Some((read_u32_le(buf, 0), read_u32_le(buf, 4)))
}

/// Encodes a message header: the type's four little-endian bytes, then the length's.
pub fn encode_header(msg_type: u32, length: u32) -> (r: Vec<u8>)
    ensures
        r@ == le_bytes(msg_type) + le_bytes(length),
{
    let mut r = u32_le_bytes(msg_type);
    let mut l = u32_le_bytes(length);
    r.append(&mut l);
    r
}

/// Whether a message type is a system message (`SYS_NEW_FRONTEND` or above).
pub open spec fn is_system_type(msg_type: u32) -> bool {
    msg_type >= SYS_NEW_FRONTEND
}

/// Whether a message type is a system message, which carries no payload for the backend.
pub fn is_system_message(msg_type: u32) -> (r: bool)
    ensures
        r == is_system_type(msg_type),
{
    msg_type >= SYS_NEW_FRONTEND
}

/// What one received header datagram means to the receiver.
#[derive(Debug, Clone, Copy, PartialEq, Eq, Structural)]
pub enum Incoming {
    /// Nothing was received: the peer closed the connection.
    Closed,
    /// A datagram too short to be a header (a stray system payload): skip it and read on.
    Stray,
    /// A system message; a payload datagram follows, to be discarded, when `length > 0`.
    System { msg_type: u32, length: u32 },
    /// An application message; its payload datagram follows when `length > 0`.
    App { msg_type: u32, length: u32 },
}

/// The meaning of a received datagram of `n` bytes (the first `n` of `buf`).
pub open spec fn incoming_of(b: Seq<u8>) -> Incoming {
    if b.len() == 0 {
        Incoming::Closed
    } else if b.len() < HEADER_SIZE {
        Incoming::Stray
    } else {
        let t = le_u32(b, 0) as u32;
        let l = le_u32(b, 4) as u32;
        if is_system_type(t) {
            Incoming::System { msg_type: t, length: l }
        } else {
            Incoming::App { msg_type: t, length: l }
        }
    }
}

/// Classifies a received datagram, of which the first `n` bytes of `buf` were filled.
pub fn classify_datagram(buf: &[u8], n: usize) -> (r: Incoming)
    requires
        n <= buf@.len(),
    ensures
        r == incoming_of(buf@.subrange(0, n as int)),
{
    if n == 0 {
        return Incoming::Closed;
    }
    if n < HEADER_SIZE {
        return Incoming::Stray;
    }
    let t = read_u32_le(buf, 0);
    let l = read_u32_le(buf, 4);
    assert(le_u32(buf@.subrange(0, n as int), 0) == le_u32(buf@, 0));
    assert(le_u32(buf@.subrange(0, n as int), 4) == le_u32(buf@, 4));
    if is_system_message(t) {
        Incoming::System { msg_type: t, length: l }
    } else {
        Incoming::App { msg_type: t, length: l }
    }
}

/// How many payload bytes are read as the message: what arrived, at most the announced
/// length.
pub fn payload_span(length: u32, received: usize) -> (r: usize)
    ensures
        r as int == if received < length { received as int } else { length as int },
{
    if (received as u64) < (length as u64) {
        received
    } else {
        length as usize
    }
}

/// The header that frames a payload of `body_len` bytes; the length field holds `body_len`
/// cut to 32 bits.
pub fn frame_header(msg_type: u32, body_len: usize) -> (r: Vec<u8>)
    ensures
        r@ == le_bytes(msg_type) + le_bytes(body_len as u32),
{
    encode_header(msg_type, body_len as u32)
}

/// What the backend's main loop does with a received message.
#[derive(Debug, Clone, Copy, PartialEq, Eq, Structural)]
pub enum Dispatch {
    /// Send the new frontend the initial state.
    SendInitialState,
    /// Stop the loop.
    Terminate,
    /// Handle the request payload.
    HandleRequest,
    /// Do nothing (an unknown type, or a request without a payload).
    Ignore,
}

/// The main loop's decision for a message of `msg_type`, with or without a parsed payload.
pub open spec fn dispatch_of(msg_type: u32, has_payload: bool) -> Dispatch {
    if msg_type == SYS_NEW_FRONTEND {
        Dispatch::SendInitialState
    } else if msg_type == SYS_TERMINATE {
        Dispatch::Terminate
    } else if msg_type == MSG_REQUEST && has_payload {
        Dispatch::HandleRequest
    } else {
        Dispatch::Ignore
    }
}

/// Decides what the backend's main loop does with a received message.
pub fn dispatch(msg_type: u32, has_payload: bool) -> (r: Dispatch)
    ensures
        r == dispatch_of(msg_type, has_payload),
{
    if msg_type == SYS_NEW_FRONTEND {
        Dispatch::SendInitialState
    } else if msg_type == SYS_TERMINATE {
        Dispatch::Terminate
    } else if msg_type == MSG_REQUEST && has_payload {
        Dispatch::HandleRequest
    } else {
        Dispatch::Ignore
    }
}

proof fn lemma_le_bytes_value(v: u32)
    ensures
        le_u32(le_bytes(v), 0) == v,
{
    let b = le_bytes(v);
    assert(b[0] == (v % 256) as u8);
    assert(b[1] == ((v / 256) % 256) as u8);
    assert(b[2] == ((v / 65536) % 256) as u8);
    assert(b[3] == (v / 16777216) as u8);
    assert((v % 256) as u8 + 256 * (((v / 256) % 256) as u8) + 65536 * (((v / 65536)
        % 256) as u8) + 16777216 * ((v / 16777216) as u8) == v) by (bit_vector);
}

/// A header read back gives the type and length it was written with.
pub proof fn law_header_roundtrip(msg_type: u32, length: u32)
    ensures
        ({
            let h = le_bytes(msg_type) + le_bytes(length);
            &&& h.len() == HEADER_SIZE
            &&& le_u32(h, 0) == msg_type
            &&& le_u32(h, 4) == length
        }),
{
    let h = le_bytes(msg_type) + le_bytes(length);
    lemma_le_bytes_value(msg_type);
    lemma_le_bytes_value(length);
    assert(h.subrange(0, 4) == le_bytes(msg_type));
    assert(h.subrange(4, 8) == le_bytes(length));
    assert(le_u32(h, 0) == le_u32(le_bytes(msg_type), 0));
    assert(le_u32(h, 4) == le_u32(le_bytes(length), 0));
}

/// A datagram holding exactly a written header is classified as a message of the type and
/// length written: a system message exactly when the type is a system type.
pub proof fn law_written_header_is_classified(msg_type: u32, length: u32)
    ensures
        incoming_of(le_bytes(msg_type) + le_bytes(length)) == if is_system_type(msg_type) {
            Incoming::System { msg_type, length }
        } else {
            Incoming::App { msg_type, length }
        },
{
    law_header_roundtrip(msg_type, length);
}

} // verus!
