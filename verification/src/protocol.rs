//! The messages that clients and the relay exchange, and their wire format.
//!
//! Every message is one UDP datagram. A message starts with the index of its
//! variant as a little-endian `u32`; its fields follow in order: a `u32` as
//! four little-endian bytes, a byte string or a text as its length in bytes
//! (a little-endian `u64`) followed by the bytes (UTF-8 for a text). This is
//! the layout that bincode's default options give these enums. A decoder
//! reads one message from the start of a datagram and ignores what follows.

use vstd::prelude::*;
use vstd::bytes::*;
use vstd::slice::*;
use vstd::utf8::*;
use vstd::string::*;

verus! {

broadcast use vstd::seq_lib::group_seq_properties;

/// What a client sends to the relay.
#[derive(Debug, Clone, PartialEq, Eq)]
pub enum ClientMessage {
    /// Joins the room `room_id`.
    Register { room_id: String },
    /// Asks the relay to pass `payload` to the peer whose virtual address is `dst_ip`.
    Data { dst_ip: u32, payload: Vec<u8> },
    /// Keep-alive.
    Heartbeat,
}

/// What the relay sends to a client.
#[derive(Debug, Clone, PartialEq, Eq)]
pub enum ServerMessage {
    /// The registration went through; the client's virtual address is `virtual_ip`.
    RegisterOk { virtual_ip: u32 },
    /// The registration was refused.
    RegisterFailed { reason: String },
    /// `payload` comes from the peer whose virtual address is `src_ip`.
    Data { src_ip: u32, payload: Vec<u8> },
    /// A peer with the virtual address `virtual_ip` is in the room.
    PeerJoined { virtual_ip: u32 },
    /// The peer with the virtual address `virtual_ip` has left the room.
    PeerLeft { virtual_ip: u32 },
    /// Answer to a keep-alive.
    HeartbeatAck,
}

/// The mathematical value of a [`ClientMessage`].
pub enum ClientMessageView {
    Register { room_id: Seq<char> },
    Data { dst_ip: u32, payload: Seq<u8> },
    Heartbeat,
}

/// The mathematical value of a [`ServerMessage`].
pub enum ServerMessageView {
    RegisterOk { virtual_ip: u32 },
    RegisterFailed { reason: Seq<char> },
    Data { src_ip: u32, payload: Seq<u8> },
    PeerJoined { virtual_ip: u32 },
    PeerLeft { virtual_ip: u32 },
    HeartbeatAck,
}

impl View for ClientMessage {
    type V = ClientMessageView;

    open spec fn view(&self) -> ClientMessageView {
        match self {
            ClientMessage::Register { room_id } => ClientMessageView::Register { room_id: room_id@ },
            ClientMessage::Data { dst_ip, payload } => ClientMessageView::Data {
                dst_ip: *dst_ip,
                payload: payload@,
            },
            ClientMessage::Heartbeat => ClientMessageView::Heartbeat,
        }
    }
}

impl View for ServerMessage {
    type V = ServerMessageView;

    open spec fn view(&self) -> ServerMessageView {
        match self {
            ServerMessage::RegisterOk { virtual_ip } => ServerMessageView::RegisterOk {
                virtual_ip: *virtual_ip,
            },
            ServerMessage::RegisterFailed { reason } => ServerMessageView::RegisterFailed {
                reason: reason@,
            },
            ServerMessage::Data { src_ip, payload } => ServerMessageView::Data {
                src_ip: *src_ip,
                payload: payload@,
            },
            ServerMessage::PeerJoined { virtual_ip } => ServerMessageView::PeerJoined {
                virtual_ip: *virtual_ip,
            },
            ServerMessage::PeerLeft { virtual_ip } => ServerMessageView::PeerLeft {
                virtual_ip: *virtual_ip,
            },
            ServerMessage::HeartbeatAck => ServerMessageView::HeartbeatAck,
        }
    }
}

/// Why a datagram does not hold a message.
#[derive(Debug, Clone, Copy, PartialEq, Eq, Structural)]
pub enum DecodeError {
    /// The datagram ends before the message does.
    UnexpectedEnd,
    /// The variant index names no variant of the message type.
    UnknownVariant { index: u32 },
    /// A text field is not valid UTF-8.
    InvalidUtf8,
}

// ---------------------------------------------------------------------------
// The wire format, as mathematics.

/// A `u32` on the wire.
pub open spec fn wire_u32(x: u32) -> Seq<u8> {
    spec_u32_to_le_bytes(x)
}

/// A byte string on the wire: its length, then its bytes.
pub open spec fn wire_bytes(b: Seq<u8>) -> Seq<u8> {
    spec_u64_to_le_bytes(b.len() as u64) + b
}

/// A text on the wire: its UTF-8 encoding as a byte string.
pub open spec fn wire_text(s: Seq<char>) -> Seq<u8> {
    wire_bytes(encode_utf8(s))
}

/// The bytes of a client message.
pub open spec fn client_message_wire(m: ClientMessageView) -> Seq<u8> {
    match m {
        ClientMessageView::Register { room_id } => wire_u32(0) + wire_text(room_id),
        ClientMessageView::Data { dst_ip, payload } => wire_u32(1) + wire_u32(dst_ip) + wire_bytes(
            payload,
        ),
        ClientMessageView::Heartbeat => wire_u32(2),
    }
}

/// The bytes of a server message.
pub open spec fn server_message_wire(m: ServerMessageView) -> Seq<u8> {
    match m {
        ServerMessageView::RegisterOk { virtual_ip } => wire_u32(0) + wire_u32(virtual_ip),
        ServerMessageView::RegisterFailed { reason } => wire_u32(1) + wire_text(reason),
        ServerMessageView::Data { src_ip, payload } => wire_u32(2) + wire_u32(src_ip) + wire_bytes(
            payload,
        ),
        ServerMessageView::PeerJoined { virtual_ip } => wire_u32(3) + wire_u32(virtual_ip),
        ServerMessageView::PeerLeft { virtual_ip } => wire_u32(4) + wire_u32(virtual_ip),
        ServerMessageView::HeartbeatAck => wire_u32(5),
    }
}

/// Reads a `u32` from the front of `b`; gives the value and what follows it.
pub open spec fn read_u32(b: Seq<u8>) -> Result<(u32, Seq<u8>), DecodeError> {
    if b.len() < 4 {
        Err(DecodeError::UnexpectedEnd)
    } else {
        Ok((spec_u32_from_le_bytes(b.take(4)), b.skip(4)))
    }
}

/// Reads a byte string from the front of `b`; gives it and what follows it.
pub open spec fn read_bytes(b: Seq<u8>) -> Result<(Seq<u8>, Seq<u8>), DecodeError> {
    if b.len() < 8 {
        Err(DecodeError::UnexpectedEnd)
    } else {
        let n = spec_u64_from_le_bytes(b.take(8));
        let rest = b.skip(8);
        if rest.len() < n {
            Err(DecodeError::UnexpectedEnd)
        } else {
            Ok((rest.take(n as int), rest.skip(n as int)))
        }
    }
}

/// Reads a text from the front of `b`; gives it and what follows it.
pub open spec fn read_text(b: Seq<u8>) -> Result<(Seq<char>, Seq<u8>), DecodeError> {
    match read_bytes(b) {
        Err(e) => Err(e),
        Ok((raw, rest)) => if valid_utf8(raw) {
            Ok((decode_utf8(raw), rest))
        } else {
            Err(DecodeError::InvalidUtf8)
        },
    }
}

/// The client message at the front of `b`, or why there is none.
pub open spec fn client_message_from_wire(b: Seq<u8>) -> Result<ClientMessageView, DecodeError> {
    match read_u32(b) {
        Err(e) => Err(e),
        Ok((tag, rest)) => if tag == 0 {
            match read_text(rest) {
                Err(e) => Err(e),
                Ok((room_id, _)) => Ok(ClientMessageView::Register { room_id }),
            }
        } else if tag == 1 {
            match read_u32(rest) {
                Err(e) => Err(e),
                Ok((dst_ip, rest2)) => match read_bytes(rest2) {
                    Err(e) => Err(e),
                    Ok((payload, _)) => Ok(ClientMessageView::Data { dst_ip, payload }),
                },
            }
        } else if tag == 2 {
            Ok(ClientMessageView::Heartbeat)
        } else {
            Err(DecodeError::UnknownVariant { index: tag })
        },
    }
}

/// The server message at the front of `b`, or why there is none.
pub open spec fn server_message_from_wire(b: Seq<u8>) -> Result<ServerMessageView, DecodeError> {
    match read_u32(b) {
        Err(e) => Err(e),
        Ok((tag, rest)) => if tag == 0 {
            match read_u32(rest) {
                Err(e) => Err(e),
                Ok((virtual_ip, _)) => Ok(ServerMessageView::RegisterOk { virtual_ip }),
            }
        } else if tag == 1 {
            match read_text(rest) {
                Err(e) => Err(e),
                Ok((reason, _)) => Ok(ServerMessageView::RegisterFailed { reason }),
            }
        } else if tag == 2 {
            match read_u32(rest) {
                Err(e) => Err(e),
                Ok((src_ip, rest2)) => match read_bytes(rest2) {
                    Err(e) => Err(e),
                    Ok((payload, _)) => Ok(ServerMessageView::Data { src_ip, payload }),
                },
            }
        } else if tag == 3 {
            match read_u32(rest) {
                Err(e) => Err(e),
                Ok((virtual_ip, _)) => Ok(ServerMessageView::PeerJoined { virtual_ip }),
            }
        } else if tag == 4 {
            match read_u32(rest) {
                Err(e) => Err(e),
                Ok((virtual_ip, _)) => Ok(ServerMessageView::PeerLeft { virtual_ip }),
            }
        } else if tag == 5 {
            Ok(ServerMessageView::HeartbeatAck)
        } else {
            Err(DecodeError::UnknownVariant { index: tag })
        },
    }
}


// ---------------------------------------------------------------------------
// Laws of the wire format.

/// Every byte string and text of `m` has a length that its `u64` length field can hold.
pub open spec fn client_message_fits(m: ClientMessageView) -> bool {
    match m {
        ClientMessageView::Register { room_id } => encode_utf8(room_id).len() <= u64::MAX,
        ClientMessageView::Data { payload, .. } => payload.len() <= u64::MAX,
        ClientMessageView::Heartbeat => true,
    }
}

/// Every byte string and text of `m` has a length that its `u64` length field can hold.
pub open spec fn server_message_fits(m: ServerMessageView) -> bool {
    match m {
        ServerMessageView::RegisterFailed { reason } => encode_utf8(reason).len() <= u64::MAX,
        ServerMessageView::Data { payload, .. } => payload.len() <= u64::MAX,
        _ => true,
    }
}

proof fn lemma_read_u32_wire(x: u32, rest: Seq<u8>)
    ensures
        read_u32(wire_u32(x) + rest) == Ok::<(u32, Seq<u8>), DecodeError>((x, rest)),
{
    lemma_auto_spec_u32_to_from_le_bytes();
    assert((wire_u32(x) + rest).take(4) =~= wire_u32(x));
    assert((wire_u32(x) + rest).skip(4) =~= rest);
}

proof fn lemma_read_u32_sound(b: Seq<u8>)
    ensures
        read_u32(b) matches Ok((x, rest)) ==> b == wire_u32(x) + rest,
{
    lemma_auto_spec_u32_to_from_le_bytes();
    if b.len() >= 4 {
        assert(b =~= b.take(4) + b.skip(4));
    }
}

proof fn lemma_read_bytes_wire(raw: Seq<u8>, rest: Seq<u8>)
    requires
        raw.len() <= u64::MAX,
    ensures
        read_bytes(wire_bytes(raw) + rest) == Ok::<(Seq<u8>, Seq<u8>), DecodeError>((raw, rest)),
{
    lemma_auto_spec_u64_to_from_le_bytes();
    let len = spec_u64_to_le_bytes(raw.len() as u64);
    let b = wire_bytes(raw) + rest;
    assert(b.take(8) =~= len);
    assert(b.skip(8) =~= raw + rest);
    assert((raw + rest).take(raw.len() as int) =~= raw);
    assert((raw + rest).skip(raw.len() as int) =~= rest);
}

proof fn lemma_read_bytes_sound(b: Seq<u8>)
    ensures
        read_bytes(b) matches Ok((raw, rest)) ==> b == wire_bytes(raw) + rest && raw.len()
            <= u64::MAX,
{
    lemma_auto_spec_u64_to_from_le_bytes();
    if let Ok((raw, rest)) = read_bytes(b) {
        let n = spec_u64_from_le_bytes(b.take(8));
        assert(raw.len() == n);
        assert(spec_u64_to_le_bytes(n) == b.take(8));
        assert(b =~= b.take(8) + (raw + rest));
    }
}

proof fn lemma_read_text_wire(s: Seq<char>, rest: Seq<u8>)
    requires
        encode_utf8(s).len() <= u64::MAX,
    ensures
        read_text(wire_text(s) + rest) == Ok::<(Seq<char>, Seq<u8>), DecodeError>((s, rest)),
{
    broadcast use encode_utf8_valid_utf8, encode_utf8_decode_utf8;

    lemma_read_bytes_wire(encode_utf8(s), rest);
}

proof fn lemma_read_text_sound(b: Seq<u8>)
    ensures
        read_text(b) matches Ok((s, rest)) ==> b == wire_text(s) + rest && encode_utf8(s).len()
            <= u64::MAX,
{
    broadcast use decode_utf8_encode_utf8;

    lemma_read_bytes_sound(b);
}

/// Decoding what encoding wrote gives back the message, whatever bytes follow it.
pub proof fn lemma_client_message_roundtrip(m: ClientMessageView, rest: Seq<u8>)
    requires
        client_message_fits(m),
    ensures
        client_message_from_wire(client_message_wire(m) + rest) == Ok::<
            ClientMessageView,
            DecodeError,
        >(m),
{
    match m {
        ClientMessageView::Register { room_id } => {
            assert(client_message_wire(m) + rest =~= wire_u32(0) + (wire_text(room_id) + rest));
            lemma_read_u32_wire(0, wire_text(room_id) + rest);
            lemma_read_text_wire(room_id, rest);
        },
        ClientMessageView::Data { dst_ip, payload } => {
            assert(client_message_wire(m) + rest =~= wire_u32(1) + (wire_u32(dst_ip) + (wire_bytes(
                payload,
            ) + rest)));
            lemma_read_u32_wire(1, wire_u32(dst_ip) + (wire_bytes(payload) + rest));
            lemma_read_u32_wire(dst_ip, wire_bytes(payload) + rest);
            lemma_read_bytes_wire(payload, rest);
        },
        ClientMessageView::Heartbeat => {
            lemma_read_u32_wire(2, rest);
        },
    }
}

/// A decoded message is exactly what the datagram begins with: encoding it
/// gives back the bytes that were read.
pub proof fn lemma_client_message_decode_sound(b: Seq<u8>)
    ensures
        client_message_from_wire(b) matches Ok(m) ==> client_message_fits(m)
            && client_message_wire(m).len() <= b.len() && b.take(client_message_wire(m).len() as int)
            == client_message_wire(m),
{
    lemma_read_u32_sound(b);
    if let Ok((tag, rest)) = read_u32(b) {
        if tag == 0 {
            lemma_read_text_sound(rest);
            if let Ok((room_id, rest2)) = read_text(rest) {
                assert(b =~= client_message_wire(ClientMessageView::Register { room_id }) + rest2);
            }
        } else if tag == 1 {
            lemma_read_u32_sound(rest);
            if let Ok((dst_ip, rest2)) = read_u32(rest) {
                lemma_read_bytes_sound(rest2);
                if let Ok((payload, rest3)) = read_bytes(rest2) {
                    assert(b =~= client_message_wire(ClientMessageView::Data { dst_ip, payload })
                        + rest3);
                }
            }
        } else if tag == 2 {
            assert(b =~= client_message_wire(ClientMessageView::Heartbeat) + rest);
        }
    }
    if let Ok(m) = client_message_from_wire(b) {
        let w = client_message_wire(m);
        assert(b.take(w.len() as int) =~= w);
    }
}


/// Decoding what encoding wrote gives back the message, whatever bytes follow it.
pub proof fn lemma_server_message_roundtrip(m: ServerMessageView, rest: Seq<u8>)
    requires
        server_message_fits(m),
    ensures
        server_message_from_wire(server_message_wire(m) + rest) == Ok::<
            ServerMessageView,
            DecodeError,
        >(m),
{
    match m {
        ServerMessageView::RegisterOk { virtual_ip } => {
            assert(server_message_wire(m) + rest =~= wire_u32(0) + (wire_u32(virtual_ip) + rest));
            lemma_read_u32_wire(0, wire_u32(virtual_ip) + rest);
            lemma_read_u32_wire(virtual_ip, rest);
        },
        ServerMessageView::RegisterFailed { reason } => {
            assert(server_message_wire(m) + rest =~= wire_u32(1) + (wire_text(reason) + rest));
            lemma_read_u32_wire(1, wire_text(reason) + rest);
            lemma_read_text_wire(reason, rest);
        },
        ServerMessageView::Data { src_ip, payload } => {
            assert(server_message_wire(m) + rest =~= wire_u32(2) + (wire_u32(src_ip) + (wire_bytes(
                payload,
            ) + rest)));
            lemma_read_u32_wire(2, wire_u32(src_ip) + (wire_bytes(payload) + rest));
            lemma_read_u32_wire(src_ip, wire_bytes(payload) + rest);
            lemma_read_bytes_wire(payload, rest);
        },
        ServerMessageView::PeerJoined { virtual_ip } => {
            assert(server_message_wire(m) + rest =~= wire_u32(3) + (wire_u32(virtual_ip) + rest));
            lemma_read_u32_wire(3, wire_u32(virtual_ip) + rest);
            lemma_read_u32_wire(virtual_ip, rest);
        },
        ServerMessageView::PeerLeft { virtual_ip } => {
            assert(server_message_wire(m) + rest =~= wire_u32(4) + (wire_u32(virtual_ip) + rest));
            lemma_read_u32_wire(4, wire_u32(virtual_ip) + rest);
            lemma_read_u32_wire(virtual_ip, rest);
        },
        ServerMessageView::HeartbeatAck => {
            lemma_read_u32_wire(5, rest);
        },
    }
}

/// A decoded message is exactly what the datagram begins with: encoding it
/// gives back the bytes that were read.
pub proof fn lemma_server_message_decode_sound(b: Seq<u8>)
    ensures
        server_message_from_wire(b) matches Ok(m) ==> server_message_fits(m)
            && server_message_wire(m).len() <= b.len() && b.take(server_message_wire(m).len() as int)
            == server_message_wire(m),
{
    lemma_read_u32_sound(b);
    if let Ok((tag, rest)) = read_u32(b) {
        lemma_read_u32_sound(rest);
        if tag == 0 || tag == 3 || tag == 4 {
            if let Ok((ip, rest2)) = read_u32(rest) {
                if tag == 0 {
                    assert(b =~= server_message_wire(ServerMessageView::RegisterOk { virtual_ip: ip })
                        + rest2);
                } else if tag == 3 {
                    assert(b =~= server_message_wire(ServerMessageView::PeerJoined { virtual_ip: ip })
                        + rest2);
                } else {
                    assert(b =~= server_message_wire(ServerMessageView::PeerLeft { virtual_ip: ip })
                        + rest2);
                }
            }
        } else if tag == 1 {
            lemma_read_text_sound(rest);
            if let Ok((reason, rest2)) = read_text(rest) {
                assert(b =~= server_message_wire(ServerMessageView::RegisterFailed { reason })
                    + rest2);
            }
        } else if tag == 2 {
            if let Ok((src_ip, rest2)) = read_u32(rest) {
                lemma_read_bytes_sound(rest2);
                if let Ok((payload, rest3)) = read_bytes(rest2) {
                    assert(b =~= server_message_wire(ServerMessageView::Data { src_ip, payload })
                        + rest3);
                }
            }
        } else if tag == 5 {
            assert(b =~= server_message_wire(ServerMessageView::HeartbeatAck) + rest);
        }
    }
    if let Ok(m) = server_message_from_wire(b) {
        let w = server_message_wire(m);
        assert(b.take(w.len() as int) =~= w);
    }
}

// ---------------------------------------------------------------------------
// Encoding.

/// `String::from_utf8`. Its documentation says that it gives back the string
/// whose UTF-8 bytes are `bytes` when they are valid UTF-8, and an error
/// otherwise; the error is mapped to `None`.
#[verifier::external_body]
pub(crate) fn string_from_utf8(bytes: Vec<u8>) -> (r: Option<String>)
    ensures
        r is Some <==> valid_utf8(bytes@),
        r matches Some(s) ==> encode_utf8(s@) == bytes@,
{
    String::from_utf8(bytes).ok()
}

fn put_u32(out: &mut Vec<u8>, x: u32)
    ensures
        final(out)@ == old(out)@ + wire_u32(x),
{
    let mut b = u32_to_le_bytes(x);
    out.append(&mut b);
}

fn put_bytes(out: &mut Vec<u8>, b: &[u8])
    ensures
        final(out)@ == old(out)@ + wire_bytes(b@),
{
    let mut len = u64_to_le_bytes(b.len() as u64);
    out.append(&mut len);
    let mut body = slice_to_vec(b);
    out.append(&mut body);
    assert(final(out)@ =~= old(out)@ + wire_bytes(b@));
}

fn put_text(out: &mut Vec<u8>, s: &str)
    ensures
        final(out)@ == old(out)@ + wire_text(s@),
{
    put_bytes(out, s.as_bytes());
}

/// The datagram that carries `msg`.
pub fn encode_client_message(msg: &ClientMessage) -> (out: Vec<u8>)
    ensures
        out@ == client_message_wire(msg@),
{
    let mut out: Vec<u8> = Vec::new();
    match msg {
        ClientMessage::Register { room_id } => {
            put_u32(&mut out, 0);
            put_text(&mut out, room_id.as_str());
        },
        ClientMessage::Data { dst_ip, payload } => {
            put_u32(&mut out, 1);
            put_u32(&mut out, *dst_ip);
            put_bytes(&mut out, payload.as_slice());
        },
        ClientMessage::Heartbeat => {
            put_u32(&mut out, 2);
        },
    }
    assert(out@ =~= client_message_wire(msg@));
    out
}

/// The datagram that carries `msg`.
pub fn encode_server_message(msg: &ServerMessage) -> (out: Vec<u8>)
    ensures
        out@ == server_message_wire(msg@),
{
    let mut out: Vec<u8> = Vec::new();
    match msg {
        ServerMessage::RegisterOk { virtual_ip } => {
            put_u32(&mut out, 0);
            put_u32(&mut out, *virtual_ip);
        },
        ServerMessage::RegisterFailed { reason } => {
            put_u32(&mut out, 1);
            put_text(&mut out, reason.as_str());
        },
        ServerMessage::Data { src_ip, payload } => {
            put_u32(&mut out, 2);
            put_u32(&mut out, *src_ip);
            put_bytes(&mut out, payload.as_slice());
        },
        ServerMessage::PeerJoined { virtual_ip } => {
            put_u32(&mut out, 3);
            put_u32(&mut out, *virtual_ip);
        },
        ServerMessage::PeerLeft { virtual_ip } => {
            put_u32(&mut out, 4);
            put_u32(&mut out, *virtual_ip);
        },
        ServerMessage::HeartbeatAck => {
            put_u32(&mut out, 5);
        },
    }
    assert(out@ =~= server_message_wire(msg@));
    out
}


// ---------------------------------------------------------------------------
// Decoding.

fn take_u32(data: &[u8], pos: usize) -> (r: Result<(u32, usize), DecodeError>)
    requires
        pos <= data@.len(),
    ensures
        match read_u32(data@.skip(pos as int)) {
            Ok((x, rest)) => r matches Ok((y, next)) && y == x && next == data@.len() - rest.len()
                && rest == data@.skip(next as int),
            Err(e) => r == Err::<(u32, usize), DecodeError>(e),
        },
{
    if data.len() - pos < 4 {
        Err(DecodeError::UnexpectedEnd)
    } else {
        let x = u32_from_le_bytes(slice_subrange(data, pos, pos + 4));
        assert(data@.subrange(pos as int, pos + 4) =~= data@.skip(pos as int).take(4));
        assert(data@.skip(pos as int).skip(4) =~= data@.skip(pos + 4));
        Ok((x, pos + 4))
    }
}

fn take_bytes(data: &[u8], pos: usize) -> (r: Result<(Vec<u8>, usize), DecodeError>)
    requires
        pos <= data@.len(),
    ensures
        match read_bytes(data@.skip(pos as int)) {
            Ok((raw, rest)) => r matches Ok((v, next)) && v@ == raw && next == data@.len()
                - rest.len() && rest == data@.skip(next as int),
            Err(e) => r matches Err(e2) && e2 == e,
        },
{
    if data.len() - pos < 8 {
        return Err(DecodeError::UnexpectedEnd);
    }
    let n = u64_from_le_bytes(slice_subrange(data, pos, pos + 8));
    assert(data@.subrange(pos as int, pos + 8) =~= data@.skip(pos as int).take(8));
    let start = pos + 8;
    assert(data@.skip(pos as int).skip(8) =~= data@.skip(start as int));
    if ((data.len() - start) as u64) < n {
        return Err(DecodeError::UnexpectedEnd);
    }
    let end = start + n as usize;
    let raw = slice_to_vec(slice_subrange(data, start, end));
    assert(data@.subrange(start as int, end as int) =~= data@.skip(start as int).take(n as int));
    assert(data@.skip(start as int).skip(n as int) =~= data@.skip(end as int));
    Ok((raw, end))
}

fn take_text(data: &[u8], pos: usize) -> (r: Result<(String, usize), DecodeError>)
    requires
        pos <= data@.len(),
    ensures
        match read_text(data@.skip(pos as int)) {
            Ok((s, rest)) => r matches Ok((v, next)) && v@ == s && next == data@.len() - rest.len()
                && rest == data@.skip(next as int),
            Err(e) => r matches Err(e2) && e2 == e,
        },
{
    broadcast use encode_utf8_decode_utf8;

    let (raw, next) = take_bytes(data, pos)?;
    let ghost raw_view = raw@;
    match string_from_utf8(raw) {
        Some(s) => {
            assert(decode_utf8(raw_view) == s@);
            Ok((s, next))
        },
        None => Err(DecodeError::InvalidUtf8),
    }
}

/// Reads the client message that `data` begins with; bytes after it are ignored.
pub fn decode_client_message(data: &[u8]) -> (r: Result<ClientMessage, DecodeError>)
    ensures
        match client_message_from_wire(data@) {
            Ok(m) => r matches Ok(msg) && msg@ == m,
            Err(e) => r matches Err(e2) && e2 == e,
        },
{
    assert(data@.skip(0) =~= data@);
    let (tag, pos) = take_u32(data, 0)?;
    if tag == 0 {
        let (room_id, _) = take_text(data, pos)?;
        Ok(ClientMessage::Register { room_id })
    } else if tag == 1 {
        let (dst_ip, pos2) = take_u32(data, pos)?;
        let (payload, _) = take_bytes(data, pos2)?;
        Ok(ClientMessage::Data { dst_ip, payload })
    } else if tag == 2 {
        Ok(ClientMessage::Heartbeat)
    } else {
        Err(DecodeError::UnknownVariant { index: tag })
    }
}

/// Reads the server message that `data` begins with; bytes after it are ignored.
pub fn decode_server_message(data: &[u8]) -> (r: Result<ServerMessage, DecodeError>)
    ensures
        match server_message_from_wire(data@) {
            Ok(m) => r matches Ok(msg) && msg@ == m,
            Err(e) => r matches Err(e2) && e2 == e,
        },
{
    assert(data@.skip(0) =~= data@);
    let (tag, pos) = take_u32(data, 0)?;
    if tag == 0 {
        let (virtual_ip, _) = take_u32(data, pos)?;
        Ok(ServerMessage::RegisterOk { virtual_ip })
    } else if tag == 1 {
        let (reason, _) = take_text(data, pos)?;
        Ok(ServerMessage::RegisterFailed { reason })
    } else if tag == 2 {
        let (src_ip, pos2) = take_u32(data, pos)?;
        let (payload, _) = take_bytes(data, pos2)?;
        Ok(ServerMessage::Data { src_ip, payload })
    } else if tag == 3 {
        let (virtual_ip, _) = take_u32(data, pos)?;
        Ok(ServerMessage::PeerJoined { virtual_ip })
    } else if tag == 4 {
        let (virtual_ip, _) = take_u32(data, pos)?;
        Ok(ServerMessage::PeerLeft { virtual_ip })
    } else if tag == 5 {
        Ok(ServerMessage::HeartbeatAck)
    } else {
        Err(DecodeError::UnknownVariant { index: tag })
    }
}

} // verus!
