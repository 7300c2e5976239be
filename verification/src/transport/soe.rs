//! Primitive SOE session and transport packet codecs.

use crate::transport::error::ProtocolError;
use crate::wire::{lemma_be16_roundtrip, be16_bytes, be32_bytes, be_u16, be_u32, le32_bytes, le_u32, push_all, push_be16, read_be_u16, read_be_u32};
use vstd::prelude::*;

verus! {

/// Known big-endian SOE transport opcodes.
#[derive(Debug, Clone, Copy, PartialEq, Eq, Structural)]
pub enum TransportOp {
    /// Client request to begin a negotiated session.
    SessionRequest,
    /// Server response containing negotiated session parameters.
    SessionResponse,
    /// Length-prefixed collection of transport packets.
    Combined,
    /// Session shutdown notification.
    SessionDisconnect,
    /// Empty liveness packet.
    KeepAlive,
    /// Request for transport statistics.
    SessionStatRequest,
    /// Response containing transport statistics.
    SessionStatResponse,
    /// Sequenced application packet.
    Packet,
    /// Sequenced application fragment.
    Fragment,
    /// Negative acknowledgement for a missing sequence.
    OutOfOrder,
    /// Cumulative acknowledgement.
    Ack,
    /// Collection of length-prefixed application packets.
    AppCombined,
    /// Packet received outside an established session.
    OutOfSession,
}

impl TransportOp {
    /// The opcode's value on the wire.
    pub open spec fn spec_code(self) -> u16 {
        match self {
            TransportOp::SessionRequest => 0x0001,
            TransportOp::SessionResponse => 0x0002,
            TransportOp::Combined => 0x0003,
            TransportOp::SessionDisconnect => 0x0005,
            TransportOp::KeepAlive => 0x0006,
            TransportOp::SessionStatRequest => 0x0007,
            TransportOp::SessionStatResponse => 0x0008,
            TransportOp::Packet => 0x0009,
            TransportOp::Fragment => 0x000D,
            TransportOp::OutOfOrder => 0x0011,
            TransportOp::Ack => 0x0015,
            TransportOp::AppCombined => 0x0019,
            TransportOp::OutOfSession => 0x001D,
        }
    }

    /// The stable diagnostic name of the opcode.
    pub open spec fn spec_name(self) -> Seq<char> {
        match self {
            TransportOp::SessionRequest => "SessionRequest"@,
            TransportOp::SessionResponse => "SessionResponse"@,
            TransportOp::Combined => "Combined"@,
            TransportOp::SessionDisconnect => "SessionDisconnect"@,
            TransportOp::KeepAlive => "KeepAlive"@,
            TransportOp::SessionStatRequest => "SessionStatRequest"@,
            TransportOp::SessionStatResponse => "SessionStatResponse"@,
            TransportOp::Packet => "Packet"@,
            TransportOp::Fragment => "Fragment"@,
            TransportOp::OutOfOrder => "OutOfOrder"@,
            TransportOp::Ack => "Ack"@,
            TransportOp::AppCombined => "AppCombined"@,
            TransportOp::OutOfSession => "OutOfSession"@,
        }
    }

    /// Return the opcode's value on the wire.
    #[verifier::when_used_as_spec(spec_code)]
    pub fn code(self) -> (c: u16)
        ensures
            c == self.spec_code(),
    {
        match self {
            TransportOp::SessionRequest => 0x0001,
            TransportOp::SessionResponse => 0x0002,
            TransportOp::Combined => 0x0003,
            TransportOp::SessionDisconnect => 0x0005,
            TransportOp::KeepAlive => 0x0006,
            TransportOp::SessionStatRequest => 0x0007,
            TransportOp::SessionStatResponse => 0x0008,
            TransportOp::Packet => 0x0009,
            TransportOp::Fragment => 0x000D,
            TransportOp::OutOfOrder => 0x0011,
            TransportOp::Ack => 0x0015,
            TransportOp::AppCombined => 0x0019,
            TransportOp::OutOfSession => 0x001D,
        }
    }

    /// Convert a raw opcode into a known transport variant.
    pub fn from_u16(value: u16) -> (r: Option<Self>)
        ensures
            r matches Some(op) ==> op.spec_code() == value,
            r is None ==> forall|op: TransportOp| op.spec_code() != value,
    {
        match value {
            0x0001 => Some(TransportOp::SessionRequest),
            0x0002 => Some(TransportOp::SessionResponse),
            0x0003 => Some(TransportOp::Combined),
            0x0005 => Some(TransportOp::SessionDisconnect),
            0x0006 => Some(TransportOp::KeepAlive),
            0x0007 => Some(TransportOp::SessionStatRequest),
            0x0008 => Some(TransportOp::SessionStatResponse),
            0x0009 => Some(TransportOp::Packet),
            0x000D => Some(TransportOp::Fragment),
            0x0011 => Some(TransportOp::OutOfOrder),
            0x0015 => Some(TransportOp::Ack),
            0x0019 => Some(TransportOp::AppCombined),
            0x001D => Some(TransportOp::OutOfSession),
            _ => None,
        }
    }

    /// Return the stable diagnostic name for this opcode.
    pub fn name(self) -> (s: &'static str)
        ensures
            s@ == self.spec_name(),
    {
        match self {
            TransportOp::SessionRequest => "SessionRequest",
            TransportOp::SessionResponse => "SessionResponse",
            TransportOp::Combined => "Combined",
            TransportOp::SessionDisconnect => "SessionDisconnect",
            TransportOp::KeepAlive => "KeepAlive",
            TransportOp::SessionStatRequest => "SessionStatRequest",
            TransportOp::SessionStatResponse => "SessionStatResponse",
            TransportOp::Packet => "Packet",
            TransportOp::Fragment => "Fragment",
            TransportOp::OutOfOrder => "OutOfOrder",
            TransportOp::Ack => "Ack",
            TransportOp::AppCombined => "AppCombined",
            TransportOp::OutOfSession => "OutOfSession",
        }
    }
}

/// The big-endian transport opcode at the start of a datagram, or zero when it is truncated.
pub open spec fn spec_transport_opcode(data: Seq<u8>) -> u16 {
    if data.len() < 2 {
        0
    } else {
        be_u16(data[0], data[1])
    }
}

/// The big-endian sequence at `offset + 2`, or zero when the datagram is too short to hold it.
pub open spec fn spec_get_sequence(data: Seq<u8>, offset: int) -> u16 {
    if data.len() < offset + 4 {
        0
    } else {
        be_u16(data[offset + 2], data[offset + 3])
    }
}

/// `data` with the big-endian `seq` written at `offset + 2`, or unchanged when too short.
pub open spec fn spec_set_sequence(data: Seq<u8>, offset: int, seq: u16) -> Seq<u8> {
    if data.len() < offset + 4 {
        data
    } else {
        data.update(offset + 2, be16_bytes(seq)[0]).update(offset + 3, be16_bytes(seq)[1])
    }
}

/// Read a big-endian transport opcode, returning zero for a truncated input.
pub fn transport_opcode(data: &[u8]) -> (op: u16)
    ensures
        op == spec_transport_opcode(data@),
{
    if data.len() < 2 {
        return 0;
    }
    read_be_u16(data[0], data[1])
}

/// Read the 2-byte big-endian sequence at `offset + 2`.
///
/// Datagrams arrive from the network with arbitrary length, so a buffer too
/// short to hold the sequence field yields 0 rather than panicking.
pub fn get_sequence(data: &[u8], offset: usize) -> (seq: u16)
    ensures
        seq == spec_get_sequence(data@, offset as int),
{
    if data.len() < 4 || data.len() - 4 < offset {
        return 0;
    }
    read_be_u16(data[offset + 2], data[offset + 3])
}

/// Write the 2-byte big-endian sequence at `offset + 2`.
///
/// No-op when `buf` is too short to hold the sequence field, so truncated or
/// malformed datagrams cannot panic the proxy task.
pub fn set_sequence(buf: &mut [u8], offset: usize, seq: u16)
    ensures
        final(buf)@ == spec_set_sequence(old(buf)@, offset as int, seq),
{
    if buf.len() < 4 || buf.len() - 4 < offset {
        return;
    }
    buf[offset + 2] = (seq / 256) as u8;
    buf[offset + 3] = (seq % 256) as u8;
}

/// Wire bytes of a cumulative acknowledgement of `sequence`.
pub open spec fn spec_ack(sequence: u16) -> Seq<u8> {
    be16_bytes(TransportOp::Ack.spec_code()) + be16_bytes(sequence)
}

/// Encode a cumulative acknowledgement packet.
pub fn build_ack(sequence: u16) -> (out: [u8; 4])
    ensures
        out@ == spec_ack(sequence),
{
    let out: [u8; 4] = [0x00, 0x15, (sequence / 256) as u8, (sequence % 256) as u8];
    assert(out@ =~= spec_ack(sequence));
    out
}

/// Encode an empty keepalive packet.
pub fn build_keepalive() -> (out: [u8; 2])
    ensures
        out@ == be16_bytes(TransportOp::KeepAlive.spec_code()),
{
    let out: [u8; 2] = [0x00, 0x06];
    assert(out@ =~= be16_bytes(TransportOp::KeepAlive.spec_code()));
    out
}

/// Encode a session-disconnect packet.
pub fn build_disconnect() -> (out: [u8; 2])
    ensures
        out@ == be16_bytes(TransportOp::SessionDisconnect.spec_code()),
{
    let out: [u8; 2] = [0x00, 0x05];
    assert(out@ =~= be16_bytes(TransportOp::SessionDisconnect.spec_code()));
    out
}

/// Encode the minimal transport header for a session request.
pub fn build_session_request() -> (out: [u8; 2])
    ensures
        out@ == be16_bytes(TransportOp::SessionRequest.spec_code()),
{
    let out: [u8; 2] = [0x00, 0x01];
    assert(out@ =~= be16_bytes(TransportOp::SessionRequest.spec_code()));
    out
}

/// Wire bytes of the minimal valid session response: opcode, a zero connect
/// code, encode key 1, zero CRC and encoding selectors, and a little-endian
/// maximum packet size of 512.
pub open spec fn spec_minimal_session_response() -> Seq<u8> {
    be16_bytes(TransportOp::SessionResponse.spec_code()) + be32_bytes(0) + be32_bytes(1) + seq![
        0u8,
        0u8,
        0u8,
    ] + le32_bytes(512)
}

/// Minimal valid `SessionResponse` (17-byte wire format).
pub fn build_session_response() -> (out: Vec<u8>)
    ensures
        out@ == spec_minimal_session_response(),
{
    let mut out: Vec<u8> = Vec::new();
    push_be16(&mut out, TransportOp::SessionResponse.code());
    let mut i: usize = 0;
    while i < 15
        invariant
            i <= 15,
            out@ == be16_bytes(TransportOp::SessionResponse.spec_code()) + Seq::new(
                i as nat,
                |j: int| 0u8,
            ),
        decreases 15 - i,
    {
        out.push(0);
        i += 1;
        assert(out@ =~= be16_bytes(TransportOp::SessionResponse.spec_code()) + Seq::new(
            i as nat,
            |j: int| 0u8,
        ));
    }
    out.set(9, 1);
    out.set(14, 2);
    assert(out@ =~= spec_minimal_session_response());
    out
}

/// Wire bytes of a sequenced application packet.
pub open spec fn spec_wrap_app_packet(sequence: u16, app_payload: Seq<u8>) -> Seq<u8> {
    be16_bytes(TransportOp::Packet.spec_code()) + be16_bytes(sequence) + app_payload
}

/// Wrap an application payload in a sequenced transport packet.
pub fn wrap_app_packet(sequence: u16, app_payload: &[u8]) -> (out: Vec<u8>)
    ensures
        out@ == spec_wrap_app_packet(sequence, app_payload@),
{
    let mut out: Vec<u8> = Vec::new();
    push_be16(&mut out, TransportOp::Packet.code());
    push_be16(&mut out, sequence);
    push_all(&mut out, app_payload);
    out
}

/// Negotiated parameters decoded from an SOE session response.
#[derive(Debug, Clone, PartialEq, Eq, Structural)]
pub struct SessionResponse {
    /// Code identifying the client's request.
    pub connect_code: u32,
    /// Key mixed into transport CRC calculations.
    pub encode_key: u32,
    /// Negotiated CRC suffix length.
    pub crc_bytes: u8,
    /// First transport encoding selector.
    pub encode_pass1: u8,
    /// Second transport encoding selector.
    pub encode_pass2: u8,
    /// Maximum datagram size advertised by the server.
    pub max_packet_size: u32,
}

/// The fixed fields of a session response held in `data`, which has at least 17 bytes.
pub open spec fn spec_session_response(data: Seq<u8>) -> SessionResponse {
    SessionResponse {
        connect_code: be_u32(data[2], data[3], data[4], data[5]),
        encode_key: be_u32(data[6], data[7], data[8], data[9]),
        crc_bytes: data[10],
        encode_pass1: data[11],
        encode_pass2: data[12],
        max_packet_size: le_u32(data[13], data[14], data[15], data[16]),
    }
}

/// Decode the fixed fields from a session negotiation response.
///
/// Returns [`ProtocolError::TooShort`] when fewer than 17 bytes are available.
pub fn parse_session_response(data: &[u8]) -> (r: Result<SessionResponse, ProtocolError>)
    ensures
        data@.len() < 17 ==> r == Err::<SessionResponse, ProtocolError>(
            ProtocolError::TooShort { need: 17, got: data@.len() as usize },
        ),
        data@.len() >= 17 ==> r == Ok::<SessionResponse, ProtocolError>(
            spec_session_response(data@),
        ),
{
    if data.len() < 17 {
        return Err(ProtocolError::TooShort { need: 17, got: data.len() });
    }
    let connect_code = read_be_u32(data[2], data[3], data[4], data[5]);
    let encode_key = read_be_u32(data[6], data[7], data[8], data[9]);
    Ok(
        SessionResponse {
            connect_code,
            encode_key,
            crc_bytes: data[10],
            encode_pass1: data[11],
            encode_pass2: data[12],
            max_packet_size: read_be_u32(data[16], data[15], data[14], data[13]),
        },
    )
}

/// An acknowledgement carries the `Ack` opcode and reads back the sequence it acknowledges.
pub proof fn law_ack_reads_back(sequence: u16)
    ensures
        spec_transport_opcode(spec_ack(sequence)) == TransportOp::Ack.spec_code(),
        spec_get_sequence(spec_ack(sequence), 0) == sequence,
{
    lemma_be16_roundtrip(sequence);
    lemma_be16_roundtrip(TransportOp::Ack.spec_code());
}

/// A wrapped application packet carries the `Packet` opcode, reads back its
/// sequence, and holds the payload unchanged after its four-byte header.
pub proof fn law_wrapped_packet_reads_back(sequence: u16, app_payload: Seq<u8>)
    ensures
        spec_transport_opcode(spec_wrap_app_packet(sequence, app_payload))
            == TransportOp::Packet.spec_code(),
        spec_get_sequence(spec_wrap_app_packet(sequence, app_payload), 0) == sequence,
        spec_wrap_app_packet(sequence, app_payload).subrange(
            4,
            spec_wrap_app_packet(sequence, app_payload).len() as int,
        ) == app_payload,
{
    lemma_be16_roundtrip(sequence);
    lemma_be16_roundtrip(TransportOp::Packet.spec_code());
    let w = spec_wrap_app_packet(sequence, app_payload);
    assert(w.subrange(4, w.len() as int) =~= app_payload);
}

/// Reading a sequence back where it was written gives the written value, and
/// writing it changes no byte outside the sequence field.
pub proof fn law_sequence_read_after_write(data: Seq<u8>, offset: int, seq: u16)
    requires
        0 <= offset,
        offset + 4 <= data.len(),
    ensures
        spec_get_sequence(spec_set_sequence(data, offset, seq), offset) == seq,
        spec_set_sequence(data, offset, seq).len() == data.len(),
        forall|i: int|
            0 <= i < data.len() && i != offset + 2 && i != offset + 3 ==> spec_set_sequence(
                data,
                offset,
                seq,
            )[i] == data[i],
{
    lemma_be16_roundtrip(seq);
}

/// A parsed session response keeps every bit of its fields: the connect code
/// and encode key written back big-endian, and the maximum packet size written
/// back little-endian, are exactly the bytes they were read from, and the three
/// one-byte selectors are the bytes at offsets 10 to 12.
pub proof fn law_session_response_fields(data: Seq<u8>)
    requires
        data.len() >= 17,
    ensures
        ({
            let r = spec_session_response(data);
            &&& be32_bytes(r.connect_code) == data.subrange(2, 6)
            &&& be32_bytes(r.encode_key) == data.subrange(6, 10)
            &&& r.crc_bytes == data[10] && r.encode_pass1 == data[11] && r.encode_pass2 == data[12]
            &&& le32_bytes(r.max_packet_size) == data.subrange(13, 17)
        }),
{
    crate::wire::lemma_be32_of_bytes(data[2], data[3], data[4], data[5]);
    crate::wire::lemma_be32_of_bytes(data[6], data[7], data[8], data[9]);
    crate::wire::lemma_be32_of_bytes(data[13], data[14], data[15], data[16]);
    assert(data.subrange(2, 6) =~= seq![data[2], data[3], data[4], data[5]]);
    assert(data.subrange(6, 10) =~= seq![data[6], data[7], data[8], data[9]]);
    assert(data.subrange(13, 17) =~= seq![data[13], data[14], data[15], data[16]]);
}

} // verus!
