//! Packet framing: the fixed-size datagram and its typed parts.
//!
//! Every datagram is exactly [`PACKET_SIZE`] bytes:
//!
//! ```text
//! version(1) | session id(8) | packet nonce(8, big-endian) | ciphertext(1247) | tag(16)
//! ```
//!
//! The first 17 bytes are the clear-text header, authenticated as associated
//! data. The ciphertext protects an [`InnerPlaintext`]: message type,
//! direction and a fixed-size payload. This module owns layout and validation
//! only; keys and nonces live in the envelope.
use crate::bytes::{
    be_bytes, be_value, lemma_array_ext, lemma_be_bytes_of_value, lemma_be_roundtrip,
    take_array, u64_from_be, u64_to_be, wipe, write_at, zeros,
};
use crate::error::CodecError;
use vstd::prelude::*;

verus! {

/// The protocol version this library speaks. Any other version is rejected.
pub const PROTOCOL_VERSION: u8 = 1;

/// Bytes of the version field.
pub const VERSION_LEN: usize = 1;

/// Size of every datagram.
pub const PACKET_SIZE: usize = 1280;

/// Bytes of the session identifier.
pub const SESSION_ID_LEN: usize = 8;

/// Bytes of the packet nonce.
pub const PACKET_NONCE_LEN: usize = 8;

/// Bytes of the AEAD tag.
pub const AEAD_TAG_LEN: usize = 16;

/// Bytes of the AEAD nonce: a 4-byte session prefix and the 8-byte counter.
pub const AEAD_NONCE_LEN: usize = 12;

/// The counter value from which on no packet is sent or accepted: the last
/// `2^32` values of the counter are never used, so that it cannot wrap.
pub const MAX_PACKET_NONCE: u64 = 0xffff_fffe_ffff_ffff;

/// Bytes of the clear-text header.
pub const HEADER_LEN: usize = VERSION_LEN + SESSION_ID_LEN + PACKET_NONCE_LEN;

/// Bytes of the encoded inner plaintext, and of its ciphertext.
pub const INNER_PLAINTEXT_LEN: usize = PACKET_SIZE - HEADER_LEN - AEAD_TAG_LEN;

/// Bytes of the payload of an inner plaintext.
pub const PAYLOAD_LEN: usize = INNER_PLAINTEXT_LEN - 2;

/// The header, the ciphertext and the tag partition a packet exactly, and the
/// AEAD nonce holds a 4-byte prefix and the packet nonce.
pub proof fn layout_partitions_packet()
    ensures
        HEADER_LEN + INNER_PLAINTEXT_LEN + AEAD_TAG_LEN == PACKET_SIZE,
        PAYLOAD_LEN + 2 == INNER_PLAINTEXT_LEN,
        INNER_PLAINTEXT_LEN > 2,
        AEAD_NONCE_LEN == PACKET_NONCE_LEN + 4,
        MAX_PACKET_NONCE == u64::MAX - 0x1_0000_0000,
{
}

/// Whether `counter` lies within the safety margin below the wrap-around.
pub fn is_counter_exhausted(counter: u64) -> (r: bool)
    ensures
        r == (counter >= MAX_PACKET_NONCE),
{
    counter >= MAX_PACKET_NONCE
}

/// Kind of a packet, carried inside the encrypted part.
#[derive(Debug, Clone, Copy, PartialEq, Eq, Hash, Structural)]
pub enum MessageType {
    /// Handshake establishment or rekey.
    Handshake,
    /// Application data of an established session.
    Data,
    /// Cover traffic.
    Cover,
    /// Session teardown.
    Close,
}

impl MessageType {
    /// The byte that stands for this type.
    pub open spec fn code(self) -> u8 {
        match self {
            MessageType::Handshake => 0x00,
            MessageType::Data => 0x01,
            MessageType::Cover => 0x02,
            MessageType::Close => 0x03,
        }
    }

    /// Strict decoding: unknown bytes are rejected.
    pub fn from_u8(v: u8) -> (r: Result<Self, CodecError>)
        ensures
            match r {
                Ok(t) => t.code() == v,
                Err(e) => v > 0x03 && e == CodecError::InvalidMessageType(v),
            },
    {
        match v {
            0x00 => Ok(MessageType::Handshake),
            0x01 => Ok(MessageType::Data),
            0x02 => Ok(MessageType::Cover),
            0x03 => Ok(MessageType::Close),
            _ => Err(CodecError::InvalidMessageType(v)),
        }
    }

    pub fn as_u8(self) -> (r: u8)
        ensures
            r == self.code(),
    {
        match self {
            MessageType::Handshake => 0x00,
            MessageType::Data => 0x01,
            MessageType::Cover => 0x02,
            MessageType::Close => 0x03,
        }
    }

    /// Stable name for logs.
    pub fn as_str(self) -> (r: &'static str)
        ensures
            r@ == match self {
                MessageType::Handshake => "handshake"@,
                MessageType::Data => "data"@,
                MessageType::Cover => "cover"@,
                MessageType::Close => "close"@,
            },
    {
        match self {
            MessageType::Handshake => "handshake",
            MessageType::Data => "data",
            MessageType::Cover => "cover",
            MessageType::Close => "close",
        }
    }
}

/// Direction of a packet relative to its session, carried inside the encrypted
/// part.
#[derive(Debug, Clone, Copy, PartialEq, Eq, Hash, Structural)]
pub enum Direction {
    ClientToServer,
    ServerToClient,
}

impl Direction {
    /// The byte that stands for this direction.
    pub open spec fn code(self) -> u8 {
        match self {
            Direction::ClientToServer => 0x00,
            Direction::ServerToClient => 0x01,
        }
    }

    /// Strict decoding: unknown bytes are rejected.
    pub fn from_u8(v: u8) -> (r: Result<Self, CodecError>)
        ensures
            match r {
                Ok(d) => d.code() == v,
                Err(e) => v > 0x01 && e == CodecError::InvalidDirection(v),
            },
    {
        match v {
            0x00 => Ok(Direction::ClientToServer),
            0x01 => Ok(Direction::ServerToClient),
            _ => Err(CodecError::InvalidDirection(v)),
        }
    }

    pub fn as_u8(self) -> (r: u8)
        ensures
            r == self.code(),
    {
        match self {
            Direction::ClientToServer => 0x00,
            Direction::ServerToClient => 0x01,
        }
    }

    /// Stable name for logs.
    pub fn as_str(self) -> (r: &'static str)
        ensures
            r@ == match self {
                Direction::ClientToServer => "client-to-server"@,
                Direction::ServerToClient => "server-to-client"@,
            },
    {
        match self {
            Direction::ClientToServer => "client-to-server",
            Direction::ServerToClient => "server-to-client",
        }
    }
}

/// The codes of the message types are pairwise distinct, and so are those of
/// the directions: a byte names at most one of each.
pub proof fn codes_are_injective(a: MessageType, b: MessageType, c: Direction, d: Direction)
    ensures
        a.code() == b.code() ==> a == b,
        c.code() == d.code() ==> c == d,
        a.code() <= 0x03,
        c.code() <= 0x01,
{
}

/// Clear-text header of a packet.
#[derive(Debug, Clone, Copy, PartialEq, Eq)]
pub struct PacketHeader {
    pub version: u8,
    pub session_id: [u8; SESSION_ID_LEN],
    pub packet_nonce: u64,
}

/// What decoding a header from `data` is to give: `h`.
pub open spec fn header_of(data: Seq<u8>, h: PacketHeader) -> bool {
    &&& data.len() >= HEADER_LEN
    &&& data[0] == PROTOCOL_VERSION
    &&& h.version == PROTOCOL_VERSION
    &&& h.session_id@ == data.subrange(1, 9)
    &&& h.packet_nonce == be_value(data.subrange(9, 17))
}

impl PacketHeader {
    /// The 17 bytes of the header.
    pub open spec fn encoding(self) -> Seq<u8> {
        seq![self.version] + self.session_id@ + be_bytes(self.packet_nonce)
    }

    /// A header of the supported version.
    pub fn new(session_id: [u8; SESSION_ID_LEN], packet_nonce: u64) -> (r: Self)
        ensures
            r == (PacketHeader { version: PROTOCOL_VERSION, session_id, packet_nonce }),
    {
        PacketHeader { version: PROTOCOL_VERSION, session_id, packet_nonce }
    }

    pub fn encode(self) -> (r: [u8; HEADER_LEN])
        ensures
            r@ == self.encoding(),
    {
        let mut out = [0u8; HEADER_LEN];
        out[0] = self.version;
        write_at(&mut out, 1, &self.session_id);
        let nonce = u64_to_be(self.packet_nonce);
        write_at(&mut out, 9, &nonce);
        assert(out@ =~= self.encoding());
        out
    }

    /// Strict decoding from the start of a byte string.
    pub fn decode(data: &[u8]) -> (r: Result<Self, CodecError>)
        ensures
            match r {
                Ok(h) => header_of(data@, h),
                Err(e) => if data@.len() < HEADER_LEN {
                    e == (CodecError::Truncated {
                        field: "PacketHeader",
                        min: HEADER_LEN,
                        got: data@.len() as usize,
                    })
                } else {
                    data@[0] != PROTOCOL_VERSION && e == (CodecError::InvalidVersion {
                        expected: PROTOCOL_VERSION,
                        found: data@[0],
                    })
                },
            },
    {
        if data.len() < HEADER_LEN {
            return Err(
                CodecError::Truncated { field: "PacketHeader", min: HEADER_LEN, got: data.len() },
            );
        }
        let version: u8 = data[0];
        if version != PROTOCOL_VERSION {
            return Err(CodecError::InvalidVersion { expected: PROTOCOL_VERSION, found: version });
        }
        let session_id: [u8; SESSION_ID_LEN] = take_array(data, 1);
        let packet_nonce: u64 = u64_from_be(data, 9);
        Ok(PacketHeader { version, session_id, packet_nonce })
    }
}

/// Decoding an encoded header of the supported version gives that header back,
/// and nothing else.
pub proof fn header_roundtrip(h: PacketHeader, g: PacketHeader)
    requires
        h.version == PROTOCOL_VERSION,
    ensures
        h.encoding().len() == HEADER_LEN,
        header_of(h.encoding(), h),
        header_of(h.encoding(), g) ==> g == h,
{
    let e = h.encoding();
    lemma_be_roundtrip(h.packet_nonce);
    assert(e.subrange(1, 9) =~= h.session_id@);
    assert(e.subrange(9, 17) =~= be_bytes(h.packet_nonce));
    lemma_array_ext(g.session_id, h.session_id);
}

/// Encoding a decoded header gives the bytes it was decoded from.
pub proof fn header_bytes_roundtrip(data: Seq<u8>, h: PacketHeader)
    requires
        header_of(data, h),
    ensures
        h.encoding() == data.subrange(0, HEADER_LEN as int),
{
    lemma_be_bytes_of_value(data.subrange(9, 17));
    assert(h.encoding() =~= data.subrange(0, 17));
}

/// The plaintext that the AEAD protects.
///
/// There is no `Debug`: the payload is decrypted data and must not be printed.
/// The payload is erased on drop.
#[derive(Clone, PartialEq, Eq)]
pub struct InnerPlaintext {
    pub msg_type: MessageType,
    pub direction: Direction,
    pub payload: [u8; PAYLOAD_LEN],
}

/// What decoding an inner plaintext from `data` is to give: `p`.
pub open spec fn inner_of(data: Seq<u8>, p: InnerPlaintext) -> bool {
    data.len() == INNER_PLAINTEXT_LEN && p.encoding() == data
}

impl InnerPlaintext {
    /// type, direction, payload.
    pub open spec fn encoding(self) -> Seq<u8> {
        seq![self.msg_type.code(), self.direction.code()] + self.payload@
    }

    /// A plaintext with a copy of `payload`, which must fill the slot exactly.
    pub fn new(msg_type: MessageType, direction: Direction, payload: &[u8]) -> (r: Result<
        Self,
        CodecError,
    >)
        ensures
            match r {
                Ok(p) => p.msg_type == msg_type && p.direction == direction && p.payload@
                    == payload@,
                Err(e) => payload@.len() != PAYLOAD_LEN && e == (CodecError::WrongLength {
                    field: "payload",
                    expected: PAYLOAD_LEN,
                    got: payload@.len() as usize,
                }),
            },
    {
        if payload.len() != PAYLOAD_LEN {
            return Err(
                CodecError::WrongLength {
                    field: "payload",
                    expected: PAYLOAD_LEN,
                    got: payload.len(),
                },
            );
        }
        let copy: [u8; PAYLOAD_LEN] = take_array(payload, 0);
        assert(copy@ =~= payload@);
        Ok(InnerPlaintext { msg_type, direction, payload: copy })
    }

    pub fn encode(&self) -> (r: [u8; INNER_PLAINTEXT_LEN])
        ensures
            r@ == self.encoding(),
    {
        let mut out = [0u8; INNER_PLAINTEXT_LEN];
        out[0] = self.msg_type.as_u8();
        out[1] = self.direction.as_u8();
        write_at(&mut out, 2, &self.payload);
        assert(out@ =~= self.encoding());
        out
    }

    /// Strict decoding: exact length, known type, known direction, in this
    /// order.
    pub fn decode(data: &[u8]) -> (r: Result<Self, CodecError>)
        ensures
            match r {
                Ok(p) => inner_of(data@, p),
                Err(e) => if data@.len() != INNER_PLAINTEXT_LEN {
                    e == (CodecError::Truncated {
                        field: "InnerPlaintext",
                        min: INNER_PLAINTEXT_LEN,
                        got: data@.len() as usize,
                    })
                } else if data@[0] > 0x03 {
                    e == CodecError::InvalidMessageType(data@[0])
                } else {
                    data@[1] > 0x01 && e == CodecError::InvalidDirection(data@[1])
                },
            },
    {
        if data.len() != INNER_PLAINTEXT_LEN {
            return Err(
                CodecError::Truncated {
                    field: "InnerPlaintext",
                    min: INNER_PLAINTEXT_LEN,
                    got: data.len(),
                },
            );
        }
        let msg_type = match MessageType::from_u8(data[0]) {
            Ok(t) => t,
            Err(e) => return Err(e),
        };
        let direction = match Direction::from_u8(data[1]) {
            Ok(d) => d,
            Err(e) => return Err(e),
        };
        let payload: [u8; PAYLOAD_LEN] = take_array(data, 2);
        let p = InnerPlaintext { msg_type, direction, payload };
        assert(p.encoding() =~= data@);
        Ok(p)
    }

    /// A cover plaintext whose payload repeats one byte.
    pub fn cover(direction: Direction, fill: u8) -> (r: Self)
        ensures
            r.msg_type == MessageType::Cover,
            r.direction == direction,
            r.payload@ == Seq::new(PAYLOAD_LEN as nat, |i: int| fill),
    {
        let payload = [fill; PAYLOAD_LEN];
        assert(payload@ =~= Seq::new(PAYLOAD_LEN as nat, |i: int| fill));
        InnerPlaintext { msg_type: MessageType::Cover, direction, payload }
    }

    /// A data plaintext.
    pub fn data(direction: Direction, payload: &[u8]) -> (r: Result<Self, CodecError>)
        ensures
            match r {
                Ok(p) => p.msg_type == MessageType::Data && p.direction == direction && p.payload@
                    == payload@,
                Err(e) => payload@.len() != PAYLOAD_LEN && e == (CodecError::WrongLength {
                    field: "payload",
                    expected: PAYLOAD_LEN,
                    got: payload@.len() as usize,
                }),
            },
    {
        InnerPlaintext::new(MessageType::Data, direction, payload)
    }

    /// Overwrites the payload with zeros.
    pub fn erase(&mut self)
        ensures
            final(self).payload@ == zeros(PAYLOAD_LEN as nat),
            final(self).msg_type == old(self).msg_type,
            final(self).direction == old(self).direction,
        opens_invariants none
        no_unwind
    {
        wipe(&mut self.payload);
    }
}

impl Drop for InnerPlaintext {
    fn drop(&mut self)
        opens_invariants none
        no_unwind
    {
        self.erase();
    }
}

/// Decoding an encoded plaintext gives that plaintext back, and nothing else;
/// every plaintext has the same encoded size, whatever it carries.
pub proof fn inner_roundtrip(p: InnerPlaintext, q: InnerPlaintext)
    ensures
        p.encoding().len() == INNER_PLAINTEXT_LEN,
        inner_of(p.encoding(), p),
        inner_of(p.encoding(), q) ==> q == p,
{
    if inner_of(p.encoding(), q) {
        let (a, b) = (p.encoding(), q.encoding());
        assert(a[0] == b[0] && a[1] == b[1]);
        assert(a.subrange(2, a.len() as int) =~= p.payload@);
        assert(b.subrange(2, b.len() as int) =~= q.payload@);
        lemma_array_ext(p.payload, q.payload);
    }
}

/// A fixed-size datagram. Its bytes are erased on drop.
#[derive(Clone)]
pub struct WirePacket {
    pub bytes: [u8; PACKET_SIZE],
}

impl View for WirePacket {
    type V = Seq<u8>;

    open spec fn view(&self) -> Seq<u8> {
        self.bytes@
    }
}

/// The first `N` bytes of a slice, borrowed as an array.
///
/// Calls `slice::first_chunk`, which is documented to give the first `N` items
/// as an array reference, and `None` for a shorter slice.
#[verifier::external_body]
fn first_chunk<const N: usize>(s: &[u8]) -> (r: Option<&[u8; N]>)
    ensures
        s@.len() < N ==> r is None,
        s@.len() >= N ==> r is Some && r->0@ == s@.subrange(0, N as int),
{
    s.first_chunk::<N>()
}

/// Two packets with the same bytes are the same packet.
pub proof fn packet_ext(a: WirePacket, b: WirePacket)
    ensures
        a@ == b@ <==> a == b,
{
    lemma_array_ext(a.bytes, b.bytes);
}

impl WirePacket {
    /// A packet of zero bytes.
    pub fn zeroed() -> (r: Self)
        ensures
            r@ == zeros(PACKET_SIZE as nat),
    {
        let r = WirePacket { bytes: [0u8; PACKET_SIZE] };
        assert(r@ =~= zeros(PACKET_SIZE as nat));
        r
    }

    /// A packet with the same bytes.
    pub fn duplicate(&self) -> (r: Self)
        ensures
            r == *self,
    {
        WirePacket { bytes: self.bytes }
    }

    /// Strict construction from a byte string of the exact size.
    pub fn from_bytes(data: &[u8]) -> (r: Result<Self, CodecError>)
        ensures
            match r {
                Ok(p) => p@ == data@,
                Err(e) => data@.len() != PACKET_SIZE && e == (CodecError::Truncated {
                    field: "WirePacket",
                    min: PACKET_SIZE,
                    got: data@.len() as usize,
                }),
            },
    {
        if data.len() != PACKET_SIZE {
            return Err(
                CodecError::Truncated { field: "WirePacket", min: PACKET_SIZE, got: data.len() },
            );
        }
        let bytes: [u8; PACKET_SIZE] = take_array(data, 0);
        assert(bytes@ =~= data@);
        Ok(WirePacket { bytes })
    }

    pub fn as_bytes(&self) -> (r: &[u8; PACKET_SIZE])
        ensures
            *r == self.bytes,
    {
        &self.bytes
    }

    pub fn as_mut_bytes(&mut self) -> (r: &mut [u8; PACKET_SIZE])
        ensures
            *r == old(self).bytes,
            final(self).bytes == *final(r),
    {
        &mut self.bytes
    }

    /// The clear-text header.
    pub fn header_bytes(&self) -> (r: &[u8; HEADER_LEN])
        ensures
            r@ == self@.subrange(0, HEADER_LEN as int),
    {
        let s: &[u8] = &self.bytes;
        first_chunk::<HEADER_LEN>(s).unwrap()
    }

    /// The encrypted inner plaintext.
    pub fn ciphertext(&self) -> (r: &[u8; INNER_PLAINTEXT_LEN])
        ensures
            r@ == self@.subrange(HEADER_LEN as int, HEADER_LEN + INNER_PLAINTEXT_LEN),
    {
        let s: &[u8] = &self.bytes;
        let rest = &s[HEADER_LEN..PACKET_SIZE];
        let r = first_chunk::<INNER_PLAINTEXT_LEN>(rest).unwrap();
        assert(r@ =~= self@.subrange(HEADER_LEN as int, HEADER_LEN + INNER_PLAINTEXT_LEN));
        r
    }

    /// The authentication tag.
    pub fn tag(&self) -> (r: &[u8; AEAD_TAG_LEN])
        ensures
            r@ == self@.subrange(HEADER_LEN + INNER_PLAINTEXT_LEN, PACKET_SIZE as int),
    {
        let s: &[u8] = &self.bytes;
        let rest = &s[HEADER_LEN + INNER_PLAINTEXT_LEN..PACKET_SIZE];
        let r = first_chunk::<AEAD_TAG_LEN>(rest).unwrap();
        assert(r@ =~= self@.subrange(HEADER_LEN + INNER_PLAINTEXT_LEN, PACKET_SIZE as int));
        r
    }

    /// The associated data of the AEAD: the clear-text header.
    pub fn aad(&self) -> (r: &[u8; HEADER_LEN])
        ensures
            r@ == self@.subrange(0, HEADER_LEN as int),
    {
        self.header_bytes()
    }

    /// Decodes and validates the clear-text header.
    pub fn parse_header(&self) -> (r: Result<PacketHeader, CodecError>)
        ensures
            match r {
                Ok(h) => header_of(self@, h),
                Err(e) => self@[0] != PROTOCOL_VERSION && e == (CodecError::InvalidVersion {
                    expected: PROTOCOL_VERSION,
                    found: self@[0],
                }),
            },
    {
        PacketHeader::decode(&self.bytes)
    }

    /// Ciphertext and tag as one region.
    pub fn aead_region(&self) -> (r: &[u8])
        ensures
            r@ == self@.subrange(HEADER_LEN as int, PACKET_SIZE as int),
    {
        let s: &[u8] = &self.bytes;
        &s[HEADER_LEN..PACKET_SIZE]
    }

    /// A copy of the bytes; the packet itself is erased.
    pub fn into_bytes(self) -> (r: [u8; PACKET_SIZE])
        ensures
            r == self.bytes,
    {
        self.bytes
    }

    /// Assembles a packet. The version byte is checked before the length of
    /// the region.
    pub fn from_parts(header: &[u8; HEADER_LEN], aead_region: &[u8]) -> (r: Result<
        Self,
        CodecError,
    >)
        ensures
            match r {
                Ok(p) => header@[0] == PROTOCOL_VERSION && p@ == header@ + aead_region@,
                Err(e) => if header@[0] != PROTOCOL_VERSION {
                    e == (CodecError::InvalidVersion {
                        expected: PROTOCOL_VERSION,
                        found: header@[0],
                    })
                } else {
                    aead_region@.len() != PACKET_SIZE - HEADER_LEN && e == (CodecError::Truncated {
                        field: "aead_region",
                        min: (PACKET_SIZE - HEADER_LEN) as usize,
                        got: aead_region@.len() as usize,
                    })
                },
            },
    {
        if header[0] != PROTOCOL_VERSION {
            return Err(CodecError::InvalidVersion { expected: PROTOCOL_VERSION, found: header[0] });
        }
        if aead_region.len() != PACKET_SIZE - HEADER_LEN {
            return Err(
                CodecError::Truncated {
                    field: "aead_region",
                    min: PACKET_SIZE - HEADER_LEN,
                    got: aead_region.len(),
                },
            );
        }
        let mut bytes = [0u8; PACKET_SIZE];
        write_at(&mut bytes, 0, header);
        write_at(&mut bytes, HEADER_LEN, aead_region);
        assert(bytes@ =~= header@ + aead_region@);
        Ok(WirePacket { bytes })
    }

    /// Overwrites the packet with zeros.
    pub fn erase(&mut self)
        ensures
            final(self)@ == zeros(PACKET_SIZE as nat),
        opens_invariants none
        no_unwind
    {
        wipe(&mut self.bytes);
    }
}

impl Drop for WirePacket {
    fn drop(&mut self)
        opens_invariants none
        no_unwind
    {
        self.erase();
    }
}

/// Assembling a packet from a header and a region, and taking it apart again,
/// gives back the header bytes, the region and the decoded header.
pub proof fn packet_roundtrip(h: PacketHeader, region: Seq<u8>, p: WirePacket)
    requires
        h.version == PROTOCOL_VERSION,
        region.len() == PACKET_SIZE - HEADER_LEN,
        p@ == h.encoding() + region,
    ensures
        p@.subrange(0, HEADER_LEN as int) == h.encoding(),
        p@.subrange(HEADER_LEN as int, PACKET_SIZE as int) == region,
        header_of(p@, h),
        forall|g: PacketHeader| header_of(p@, g) ==> g == h,
{
    header_roundtrip(h, h);
    let e = h.encoding();
    assert(p@.subrange(0, 17) =~= e);
    assert(p@.subrange(17, 1280) =~= region);
    assert(p@.subrange(1, 9) =~= e.subrange(1, 9));
    assert(p@.subrange(9, 17) =~= e.subrange(9, 17));
    assert forall|g: PacketHeader| header_of(p@, g) implies g == h by {
        lemma_array_ext(g.session_id, h.session_id);
    }
}

/// The sizes of the wire format.
pub proof fn wire_format_sizes()
    ensures
        PROTOCOL_VERSION == 1,
        PACKET_SIZE == 1280,
        SESSION_ID_LEN == 8,
        HEADER_LEN == 17,
        AEAD_TAG_LEN == 16,
        AEAD_NONCE_LEN == 12,
        INNER_PLAINTEXT_LEN == 1247,
        PAYLOAD_LEN == 1245,
{
}

/// A header is the version, the session and the packet nonce, the highest byte
/// of the nonce first.
pub proof fn header_layout(h: PacketHeader)
    ensures
        h.encoding().len() == 17,
        h.encoding()[0] == h.version,
        h.encoding().subrange(1, 9) == h.session_id@,
        be_value(h.encoding().subrange(9, 17)) == h.packet_nonce,
{
    let e = h.encoding();
    lemma_be_roundtrip(h.packet_nonce);
    assert(e.subrange(1, 9) =~= h.session_id@);
    assert(e.subrange(9, 17) =~= be_bytes(h.packet_nonce));
}

/// The fields of a decoded header are what its bytes say, and it is read only
/// from data that is long enough and of the supported version.
pub proof fn header_is_read_from_its_bytes(data: Seq<u8>, h: PacketHeader)
    requires
        header_of(data, h),
    ensures
        data.len() >= 17,
        data[0] == 1,
        h.version == data[0],
        h.session_id@ == data.subrange(1, 9),
        h.packet_nonce == be_value(data.subrange(9, 17)),
{
}

/// The message types are numbered from 0 in the order handshake, data, cover,
/// close; the directions are 0 for what a client sends and 1 for what a server
/// sends.
pub proof fn types_and_directions_are_numbered()
    ensures
        MessageType::Handshake.code() == 0,
        MessageType::Data.code() == MessageType::Handshake.code() + 1,
        MessageType::Cover.code() == MessageType::Data.code() + 1,
        MessageType::Close.code() == MessageType::Cover.code() + 1,
        Direction::ClientToServer.code() == 0,
        Direction::ServerToClient.code() == 1,
{
}

/// A plaintext is its type, its direction and its payload, nothing else.
pub proof fn inner_layout(p: InnerPlaintext)
    ensures
        p.encoding().len() == 1247,
        p.encoding()[0] == p.msg_type.code(),
        p.encoding()[1] == p.direction.code(),
        p.encoding().subrange(2, 1247) == p.payload@,
{
    assert(p.encoding().subrange(2, 1247) =~= p.payload@);
}

/// A decoded plaintext is read from its bytes: the type and the direction first,
/// then the payload, and it is read only from data of the exact size.
pub proof fn inner_is_read_from_its_bytes(data: Seq<u8>, p: InnerPlaintext)
    requires
        inner_of(data, p),
    ensures
        data.len() == 1247,
        p.msg_type.code() == data[0],
        p.direction.code() == data[1],
        p.payload@ == data.subrange(2, 1247),
{
    inner_layout(p);
}

/// What a packet is seen as are all of its bytes.
pub proof fn packet_is_its_bytes(p: WirePacket)
    ensures
        p@ == p.bytes@,
        p@.len() == 1280,
{
}

} // verus!
