//! A framed message protocol: two magic bytes, a version, a type, a
//! big-endian identifier, a status for responses and errors, and a payload
//! behind its big-endian length.

use vstd::prelude::*;
use vstd::slice::slice_subrange;
use vstd::utf8::encode_utf8;
use crate::bytes::{copy_bytes, push_bytes};
use crate::text::{decimal, from_chars, hex, push_decimal, push_hex, push_str, text_of};

verus! {

/// The two bytes every message starts with.
pub const MAGIC: [u8; 2] = [0x54, 0x55];

/// The protocol version that is spoken.
pub const VERSION: u8 = 1;

/// The longest payload, in bytes.
pub const MAX_PAYLOAD_SIZE: usize = 1048576;

/// The kind of a message.
#[derive(Debug, Clone, Copy, PartialEq, Eq, Structural)]
pub enum MessageType {
    /// Sent by a client.
    Request,
    /// Sent by a server.
    Response,
    /// Reports a failure.
    Error,
}

/// The byte that stands for a message type.
pub open spec fn type_code(t: MessageType) -> u8 {
    match t {
        MessageType::Request => 0x01,
        MessageType::Response => 0x02,
        MessageType::Error => 0xff,
    }
}

/// The message type that a byte stands for.
pub open spec fn type_of_code(code: u8) -> Option<MessageType> {
    if code == 0x01 {
        Some(MessageType::Request)
    } else if code == 0x02 {
        Some(MessageType::Response)
    } else if code == 0xff {
        Some(MessageType::Error)
    } else {
        None
    }
}

impl MessageType {
    /// The byte that stands for this type.
    pub fn code(self) -> (r: u8)
        ensures
            r == type_code(self),
    {
        match self {
            MessageType::Request => 0x01,
            MessageType::Response => 0x02,
            MessageType::Error => 0xff,
        }
    }

    /// The type that `value` stands for.
    pub fn try_from(value: u8) -> (r: Result<MessageType, ProtocolError>)
        ensures
            match r {
                Ok(t) => type_of_code(value) == Some(t),
                Err(e) => type_of_code(value) is None && e == ProtocolError::UnknownType(value),
            },
    {
        if value == 0x01 {
            Ok(MessageType::Request)
        } else if value == 0x02 {
            Ok(MessageType::Response)
        } else if value == 0xff {
            Ok(MessageType::Error)
        } else {
            Err(ProtocolError::UnknownType(value))
        }
    }
}

/// Why bytes are no message, or a message cannot be framed.
#[derive(Debug, Clone, PartialEq, Eq)]
pub enum ProtocolError {
    /// The first two bytes are not the magic bytes.
    InvalidMagic([u8; 2]),
    /// The version is not the one spoken.
    UnsupportedVersion(u8),
    /// The type byte stands for no type.
    UnknownType(u8),
    /// The payload is longer than allowed.
    PayloadTooLarge(usize),
    /// The bytes end before the message does.
    IncompleteMessage,
    /// Reading or writing failed.
    Io(String),
}

/// The mathematical value of a `ProtocolError`.
pub enum Fault {
    InvalidMagic(u8, u8),
    UnsupportedVersion(u8),
    UnknownType(u8),
    PayloadTooLarge(usize),
    IncompleteMessage,
    Io(Seq<char>),
}

impl View for ProtocolError {
    type V = Fault;

    open spec fn view(&self) -> Fault {
        match *self {
            ProtocolError::InvalidMagic(m) => Fault::InvalidMagic(m@[0], m@[1]),
            ProtocolError::UnsupportedVersion(v) => Fault::UnsupportedVersion(v),
            ProtocolError::UnknownType(t) => Fault::UnknownType(t),
            ProtocolError::PayloadTooLarge(n) => Fault::PayloadTooLarge(n),
            ProtocolError::IncompleteMessage => Fault::IncompleteMessage,
            ProtocolError::Io(s) => Fault::Io(s@),
        }
    }
}

/// The one-line description of a fault.
pub open spec fn fault_text(f: Fault) -> Seq<char> {
    match f {
        Fault::InvalidMagic(a, b) => "invalid magic: "@ + hex(a as nat, 2) + hex(b as nat, 2),
        Fault::UnsupportedVersion(v) => "unsupported version: "@ + decimal(v as nat),
        Fault::UnknownType(t) => "unknown message type: "@ + hex(t as nat, 2),
        Fault::PayloadTooLarge(n) => "payload too large: "@ + decimal(n as nat) + " bytes"@,
        Fault::IncompleteMessage => "incomplete message"@,
        Fault::Io(s) => "I/O error: "@ + s,
    }
}

impl ProtocolError {
    /// The one-line description of the error.
    pub fn to_string(&self) -> (r: String)
        ensures
            r@ == fault_text(self@),
    {
        let mut out: Vec<char> = Vec::new();
        match self {
            ProtocolError::InvalidMagic(m) => {
                push_str(&mut out, "invalid magic: ");
                assert(out@ == "invalid magic: "@);
                push_hex(&mut out, m[0] as u64, 2);
                push_hex(&mut out, m[1] as u64, 2);
            },
            ProtocolError::UnsupportedVersion(v) => {
                push_str(&mut out, "unsupported version: ");
                assert(out@ == "unsupported version: "@);
                push_decimal(&mut out, *v as u128);
            },
            ProtocolError::UnknownType(t) => {
                push_str(&mut out, "unknown message type: ");
                assert(out@ == "unknown message type: "@);
                push_hex(&mut out, *t as u64, 2);
            },
            ProtocolError::PayloadTooLarge(n) => {
                push_str(&mut out, "payload too large: ");
                assert(out@ == "payload too large: "@);
                push_decimal(&mut out, *n as u128);
                push_str(&mut out, " bytes");
            },
            ProtocolError::IncompleteMessage => {
                push_str(&mut out, "incomplete message");
                assert(out@ == "incomplete message"@);
            },
            ProtocolError::Io(s) => {
                push_str(&mut out, "I/O error: ");
                assert(out@ == "I/O error: "@);
                push_str(&mut out, s.as_str());
            },
        }
        from_chars(&out)
    }
}

/// A message.
#[derive(Debug, Clone, PartialEq, Eq)]
pub struct Message {
    /// The protocol version.
    pub version: u8,
    /// The kind of the message.
    pub message_type: MessageType,
    /// What pairs a response with its request.
    pub id: u32,
    /// The status of a response, the code of an error; a request has none.
    pub status: Option<u8>,
    /// The payload.
    pub payload: Vec<u8>,
}

/// The mathematical value of a `Message`.
pub struct Packet {
    pub version: u8,
    pub message_type: MessageType,
    pub id: u32,
    pub status: Option<u8>,
    pub payload: Seq<u8>,
}

impl View for Message {
    type V = Packet;

    open spec fn view(&self) -> Packet {
        Packet {
            version: self.version,
            message_type: self.message_type,
            id: self.id,
            status: self.status,
            payload: self.payload@,
        }
    }
}

impl Message {
    /// A request.
    pub fn request(id: u32, payload: &[u8]) -> (r: Self)
        ensures
            r@ == (Packet {
                version: VERSION,
                message_type: MessageType::Request,
                id,
                status: None,
                payload: payload@,
            }),
    {
        Message {
            version: VERSION,
            message_type: MessageType::Request,
            id,
            status: None,
            payload: copy_bytes(payload),
        }
    }

    /// A response with the given status.
    pub fn response(id: u32, status: u8, payload: &[u8]) -> (r: Self)
        ensures
            r@ == (Packet {
                version: VERSION,
                message_type: MessageType::Response,
                id,
                status: Some(status),
                payload: payload@,
            }),
    {
        Message {
            version: VERSION,
            message_type: MessageType::Response,
            id,
            status: Some(status),
            payload: copy_bytes(payload),
        }
    }

    /// An error with the given code, its text as the payload.
    pub fn error(id: u32, error_code: u8, message: &str) -> (r: Self)
        ensures
            r@ == (Packet {
                version: VERSION,
                message_type: MessageType::Error,
                id,
                status: Some(error_code),
                payload: encode_utf8(message@),
            }),
    {
        Message {
            version: VERSION,
            message_type: MessageType::Error,
            id,
            status: Some(error_code),
            payload: copy_bytes(message.as_bytes()),
        }
    }

    /// The kind of the message.
    pub fn message_type(&self) -> (r: MessageType)
        ensures
            r == self.message_type,
    {
        self.message_type
    }

    /// Whether the message is a response with status zero.
    pub fn is_success(&self) -> (r: bool)
        ensures
            r == (self.message_type == MessageType::Response && self.status == Some(0u8)),
    {
        match (self.message_type, self.status) {
            (MessageType::Response, Some(s)) => s == 0,
            _ => false,
        }
    }
}

// ---------------------------------------------------------------------------
// Framing
// ---------------------------------------------------------------------------

/// The four bytes of `n`, most significant first.
pub open spec fn be32(n: u32) -> Seq<u8> {
    seq![
        (n / 0x1000000) as u8,
        (n / 0x10000 % 0x100) as u8,
        (n / 0x100 % 0x100) as u8,
        (n % 0x100) as u8,
    ]
}

/// The number whose four bytes, most significant first, stand at `at`.
pub open spec fn be32_at(bytes: Seq<u8>, at: int) -> u32 {
    (bytes[at] as int * 0x1000000 + bytes[at + 1] as int * 0x10000 + bytes[at + 2] as int * 0x100
        + bytes[at + 3] as int) as u32
}

/// The status byte as it is framed: none where there is no status.
pub open spec fn status_bytes(status: Option<u8>) -> Seq<u8> {
    match status {
        Some(s) => seq![s],
        None => Seq::empty(),
    }
}

/// The bytes of a message.
pub open spec fn frame(m: Packet) -> Seq<u8> {
    seq![0x54u8, 0x55u8, m.version, type_code(m.message_type)] + be32(m.id) + status_bytes(
        m.status,
    ) + be32(m.payload.len() as u32) + m.payload
}

/// What framing a message gives: a payload over the limit is refused.
pub open spec fn encoded(m: Packet) -> Result<Seq<u8>, Fault> {
    if m.payload.len() > MAX_PAYLOAD_SIZE {
        Err(Fault::PayloadTooLarge(m.payload.len() as usize))
    } else {
        Ok(frame(m))
    }
}

/// What reading a message from the start of `bytes` gives: the message and
/// the number of bytes it takes, or why there is none. The checks come in
/// the order of the bytes: length of the fixed part, magic, version, type,
/// status, length of the payload, payload.
pub open spec fn decoded(bytes: Seq<u8>) -> Result<(Packet, int), Fault> {
    if bytes.len() < 8 {
        Err(Fault::IncompleteMessage)
    } else if !(bytes[0] == 0x54 && bytes[1] == 0x55) {
        Err(Fault::InvalidMagic(bytes[0], bytes[1]))
    } else if bytes[2] != VERSION {
        Err(Fault::UnsupportedVersion(bytes[2]))
    } else {
        match type_of_code(bytes[3]) {
            None => Err(Fault::UnknownType(bytes[3])),
            Some(t) => {
                let with_status = t != MessageType::Request;
                let at: int = if with_status {
                    9
                } else {
                    8
                };
                if bytes.len() < at + 4 {
                    Err(Fault::IncompleteMessage)
                } else {
                    let length = be32_at(bytes, at);
                    if length > MAX_PAYLOAD_SIZE {
                        Err(Fault::PayloadTooLarge(length as usize))
                    } else if bytes.len() < at + 4 + length {
                        Err(Fault::IncompleteMessage)
                    } else {
                        Ok(
                            (
                                Packet {
                                    version: bytes[2],
                                    message_type: t,
                                    id: be32_at(bytes, 4),
                                    status: if with_status {
                                        Some(bytes[8])
                                    } else {
                                        None
                                    },
                                    payload: bytes.subrange(at + 4, at + 4 + length),
                                },
                                at + 4 + length,
                            ),
                        )
                    }
                }
            },
        }
    }
}

/// Appends the four bytes of `n`, most significant first.
fn push_be32(out: &mut Vec<u8>, n: u32)
    ensures
        final(out)@ == old(out)@ + be32(n),
{
    out.push((n / 0x1000000) as u8);
    out.push((n / 0x10000 % 0x100) as u8);
    out.push((n / 0x100 % 0x100) as u8);
    out.push((n % 0x100) as u8);
    assert(out@ == old(out)@ + be32(n));
}

/// The number whose four bytes, most significant first, stand at `at`.
fn read_be32(bytes: &[u8], at: usize) -> (r: u32)
    requires
        at + 4 <= bytes.len(),
    ensures
        r == be32_at(bytes@, at as int),
{
    (bytes[at] as u32) * 0x1000000 + (bytes[at + 1] as u32) * 0x10000 + (bytes[at + 2] as u32)
        * 0x100 + (bytes[at + 3] as u32)
}

/// The view of the result of framing.
pub open spec fn frame_outcome(r: Result<Vec<u8>, ProtocolError>) -> Result<Seq<u8>, Fault> {
    match r {
        Ok(v) => Ok(v@),
        Err(e) => Err(e@),
    }
}

/// The bytes of a message.
pub fn encode(message: &Message) -> (r: Result<Vec<u8>, ProtocolError>)
    ensures
        frame_outcome(r) == encoded(message@),
{
    let payload_len = message.payload.len();
    if payload_len > MAX_PAYLOAD_SIZE {
        return Err(ProtocolError::PayloadTooLarge(payload_len));
    }
    let mut buf: Vec<u8> = Vec::new();
    buf.push(0x54);
    buf.push(0x55);
    buf.push(message.version);
    buf.push(message.message_type.code());
    assert(buf@ == seq![0x54u8, 0x55u8, message.version, type_code(message.message_type)]);
    push_be32(&mut buf, message.id);
    match message.status {
        Some(status) => {
            buf.push(status);
            assert(buf@ == seq![0x54u8, 0x55u8, message.version, type_code(message.message_type)]
                + be32(message.id) + seq![status]);
        },
        None => {
            assert(buf@ == seq![0x54u8, 0x55u8, message.version, type_code(message.message_type)]
                + be32(message.id) + Seq::<u8>::empty());
        },
    }
    push_be32(&mut buf, payload_len as u32);
    push_bytes(&mut buf, message.payload.as_slice());
    Ok(buf)
}

/// Appends the bytes of a message to `writer`, which stays as it is when the
/// message cannot be framed.
pub fn write_message(writer: &mut Vec<u8>, message: &Message) -> (r: Result<(), ProtocolError>)
    ensures
        match r {
            Ok(_) => encoded(message@) == Ok::<Seq<u8>, Fault>(frame(message@)) && final(writer)@
                == old(writer)@ + frame(message@),
            Err(e) => encoded(message@) == Err::<Seq<u8>, Fault>(e@) && final(writer)@ == old(
                writer,
            )@,
        },
{
    match encode(message) {
        Err(e) => Err(e),
        Ok(bytes) => {
            push_bytes(writer, bytes.as_slice());
            Ok(())
        },
    }
}

/// Reads the message at the start of `bytes` and says how many bytes it
/// takes.
fn decode_prefix(bytes: &[u8]) -> (r: Result<(Message, usize), ProtocolError>)
    ensures
        match r {
            Ok((m, used)) => decoded(bytes@) == Ok::<(Packet, int), Fault>((m@, used as int))
                && used <= bytes.len(),
            Err(e) => decoded(bytes@) == Err::<(Packet, int), Fault>(e@),
        },
{
    if bytes.len() < 8 {
        return Err(ProtocolError::IncompleteMessage);
    }
    if !(bytes[0] == 0x54 && bytes[1] == 0x55) {
        let magic: [u8; 2] = [bytes[0], bytes[1]];
        return Err(ProtocolError::InvalidMagic(magic));
    }
    let version = bytes[2];
    if version != VERSION {
        return Err(ProtocolError::UnsupportedVersion(version));
    }
    let message_type = match MessageType::try_from(bytes[3]) {
        Ok(t) => t,
        Err(e) => {
            return Err(e);
        },
    };
    let id = read_be32(bytes, 4);
    let with_status = match message_type {
        MessageType::Request => false,
        _ => true,
    };
    let at: usize = if with_status {
        9
    } else {
        8
    };
    if bytes.len() < at + 4 {
        return Err(ProtocolError::IncompleteMessage);
    }
    let status: Option<u8> = if with_status {
        Some(bytes[8])
    } else {
        None
    };
    let payload_len = read_be32(bytes, at) as usize;
    if payload_len > MAX_PAYLOAD_SIZE {
        return Err(ProtocolError::PayloadTooLarge(payload_len));
    }
    let start: usize = at + 4;
    if bytes.len() < start + payload_len {
        return Err(ProtocolError::IncompleteMessage);
    }
    let payload = copy_bytes(slice_subrange(bytes, start, start + payload_len));
    Ok((Message { version, message_type, id, status, payload }, start + payload_len))
}

/// The view of the result of decoding.
pub open spec fn message_outcome(r: Result<Message, ProtocolError>) -> Result<Packet, Fault> {
    match r {
        Ok(m) => Ok(m@),
        Err(e) => Err(e@),
    }
}

/// The message that the bytes of a decoding stand for.
pub open spec fn decoded_message(bytes: Seq<u8>) -> Result<Packet, Fault> {
    match decoded(bytes) {
        Ok((m, _)) => Ok(m),
        Err(f) => Err(f),
    }
}

/// The message at the start of `bytes`; what follows it is not looked at.
pub fn decode(bytes: &[u8]) -> (r: Result<Message, ProtocolError>)
    ensures
        message_outcome(r) == decoded_message(bytes@),
{
    match decode_prefix(bytes) {
        Ok((m, _)) => Ok(m),
        Err(e) => Err(e),
    }
}

/// What reading a message from a stream of bytes gives: as decoding, but a
/// stream that ends before the message does is an I/O failure.
pub open spec fn read_from(bytes: Seq<u8>) -> Result<(Packet, int), Fault> {
    match decoded(bytes) {
        Err(Fault::IncompleteMessage) => Err(Fault::Io("failed to fill whole buffer"@)),
        other => other,
    }
}

/// Reads one message from the start of `input` and says how many bytes it
/// took.
pub fn read_message(input: &[u8]) -> (r: Result<(Message, usize), ProtocolError>)
    ensures
        match r {
            Ok((m, used)) => read_from(input@) == Ok::<(Packet, int), Fault>((m@, used as int))
                && used <= input.len(),
            Err(e) => read_from(input@) == Err::<(Packet, int), Fault>(e@),
        },
{
    match decode_prefix(input) {
        Ok(found) => Ok(found),
        Err(ProtocolError::IncompleteMessage) => Err(
            ProtocolError::Io(text_of("failed to fill whole buffer")),
        ),
        Err(e) => Err(e),
    }
}

/// Whether a message can be framed and read back: it has the version
/// spoken, a status exactly if it is no request, and a payload within the
/// limit.
pub open spec fn well_formed(m: Packet) -> bool {
    &&& m.version == VERSION
    &&& (m.status is None <==> m.message_type == MessageType::Request)
    &&& m.payload.len() <= MAX_PAYLOAD_SIZE
}

/// Reading the four bytes of a number gives the number.
pub proof fn lemma_be32(bytes: Seq<u8>, at: int, n: u32)
    requires
        0 <= at,
        at + 4 <= bytes.len(),
        bytes.subrange(at, at + 4) == be32(n),
    ensures
        be32_at(bytes, at) == n,
{
    let part = bytes.subrange(at, at + 4);
    assert(part[0] == bytes[at]);
    assert(part[1] == bytes[at + 1]);
    assert(part[2] == bytes[at + 2]);
    assert(part[3] == bytes[at + 3]);
}

/// Round trip: the bytes of a well-formed message decode to the message, and
/// take all the bytes.
pub proof fn lemma_decode_of_encode(m: Packet)
    requires
        well_formed(m),
    ensures
        encoded(m) == Ok::<Seq<u8>, Fault>(frame(m)),
        decoded(frame(m)) == Ok::<(Packet, int), Fault>((m, frame(m).len() as int)),
        decoded_message(frame(m)) == Ok::<Packet, Fault>(m),
{
    let bytes = frame(m);
    let at: int = if m.status is Some {
        9
    } else {
        8
    };
    assert(bytes.subrange(4, 8) =~= be32(m.id));
    lemma_be32(bytes, 4, m.id);
    assert(bytes.subrange(at, at + 4) =~= be32(m.payload.len() as u32));
    lemma_be32(bytes, at, m.payload.len() as u32);
    assert(bytes.subrange(at + 4, at + 4 + m.payload.len()) =~= m.payload);
    assert(bytes.len() == at + 4 + m.payload.len());
    assert(type_of_code(type_code(m.message_type)) == Some(m.message_type));
    if m.status is Some {
        assert(bytes[8] == m.status->0);
    }
}

// ---------------------------------------------------------------------------
// Hexadecimal input
// ---------------------------------------------------------------------------

/// The value of a hexadecimal digit, upper or lower case.
pub open spec fn hex_digit_value(b: u8) -> Option<u8> {
    if 0x30 <= b <= 0x39 {
        Some((b - 0x30) as u8)
    } else if 0x61 <= b <= 0x66 {
        Some((b - 0x61 + 10) as u8)
    } else if 0x41 <= b <= 0x46 {
        Some((b - 0x41 + 10) as u8)
    } else {
        None
    }
}

/// The byte that two characters stand for: two hexadecimal digits, or a `+`
/// and one digit.
pub open spec fn hex_pair_value(a: u8, b: u8) -> Option<u8> {
    match (hex_digit_value(a), hex_digit_value(b)) {
        (Some(high), Some(low)) => Some((high * 16 + low) as u8),
        (None, Some(low)) => if a == 0x2b {
            Some(low)
        } else {
            None
        },
        _ => None,
    }
}

/// The bytes that the first `n` pairs of `text` stand for, or the position
/// of the first pair that stands for none.
pub open spec fn hex_pairs(text: Seq<u8>, n: nat) -> Result<Seq<u8>, nat>
    decreases n,
{
    if n == 0 || 2 * n > text.len() {
        Ok(Seq::empty())
    } else {
        match hex_pairs(text, (n - 1) as nat) {
            Err(at) => Err(at),
            Ok(bytes) => match hex_pair_value(text[2 * n - 2], text[2 * n - 1]) {
                Some(v) => Ok(bytes.push(v)),
                None => Err((2 * n - 2) as nat),
            },
        }
    }
}

/// What reading a hexadecimal text gives: its bytes, or what is wrong with
/// it.
pub open spec fn hex_decoded(text: Seq<u8>) -> Result<Seq<u8>, Seq<char>> {
    if text.len() % 2 != 0 {
        Err("Hex string must have even length"@)
    } else {
        match hex_pairs(text, text.len() / 2) {
            Ok(bytes) => Ok(bytes),
            Err(at) => Err("Invalid hex at position "@ + decimal(at)),
        }
    }
}

/// Decides `hex_digit_value`.
fn digit_value(b: u8) -> (r: Option<u8>)
    ensures
        r == hex_digit_value(b),
{
    if 0x30 <= b && b <= 0x39 {
        Some(b - 0x30)
    } else if 0x61 <= b && b <= 0x66 {
        Some(b - 0x61 + 10)
    } else if 0x41 <= b && b <= 0x46 {
        Some(b - 0x41 + 10)
    } else {
        None
    }
}

/// Reads bytes written as pairs of hexadecimal digits.
pub fn hex_to_bytes(hex: &str) -> (r: Result<Vec<u8>, String>)
    ensures
        match r {
            Ok(bytes) => hex_decoded(encode_utf8(hex@)) == Ok::<Seq<u8>, Seq<char>>(bytes@),
            Err(message) => hex_decoded(encode_utf8(hex@)) == Err::<Seq<u8>, Seq<char>>(message@),
        },
{
    let text = hex.as_bytes();
    if text.len() % 2 != 0 {
        return Err(text_of("Hex string must have even length"));
    }
    let pairs: usize = text.len() / 2;
    let mut out: Vec<u8> = Vec::new();
    let mut n: usize = 0;
    while n < pairs
        invariant
            n <= pairs,
            pairs == text.len() / 2,
            text.len() % 2 == 0,
            text@ == encode_utf8(hex@),
            hex_pairs(text@, n as nat) == Ok::<Seq<u8>, nat>(out@),
        decreases pairs - n,
    {
        let a = text[2 * n];
        let b = text[2 * n + 1];
        let value: Option<u8> = match (digit_value(a), digit_value(b)) {
            (Some(high), Some(low)) => Some(high * 16 + low),
            (None, Some(low)) => if a == 0x2b {
                Some(low)
            } else {
                None
            },
            _ => None,
        };
        match value {
            Some(v) => {
                out.push(v);
            },
            None => {
                let mut m: Vec<char> = Vec::new();
                push_str(&mut m, "Invalid hex at position ");
                assert(m@ == "Invalid hex at position "@);
                push_decimal(&mut m, (2 * n) as u128);
                proof {
                    assert(hex_pair_value(text@[2 * n], text@[2 * n + 1]) is None);
                    assert(hex_pairs(text@, (n + 1) as nat) == Err::<Seq<u8>, nat>((2 * n) as nat));
                    lemma_hex_pairs_fail(text@, (n + 1) as nat, pairs as nat);
                }
                return Err(from_chars(&m));
            },
        }
        n += 1;
    }
    Ok(out)
}

/// Once a pair stands for no byte, the pairs after it do not matter.
proof fn lemma_hex_pairs_fail(text: Seq<u8>, n: nat, total: nat)
    requires
        n <= total,
        2 * total <= text.len(),
        hex_pairs(text, n) is Err,
    ensures
        hex_pairs(text, total) == hex_pairs(text, n),
    decreases total - n,
{
    if n < total {
        lemma_hex_pairs_fail(text, n, (total - 1) as nat);
    }
}

} // verus!
