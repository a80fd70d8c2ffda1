//! The AEAD envelope: which key, nonce and associated data protect a packet,
//! and which opened packets are accepted.
//!
//! The AEAD itself is applied by the caller: a session hands out a request that
//! fixes every input of the call, and is resumed with the result. Counters and
//! the replay window advance only when a packet was sealed, or opened
//! authentically.
use crate::bytes::{be_value, wipe, zeros};
use crate::codec::{
    header_layout, header_roundtrip, is_counter_exhausted, packet_roundtrip, Direction, InnerPlaintext,
    MessageType, PacketHeader, WirePacket, AEAD_TAG_LEN, HEADER_LEN, INNER_PLAINTEXT_LEN,
    MAX_PACKET_NONCE, PACKET_SIZE, PAYLOAD_LEN, PROTOCOL_VERSION, SESSION_ID_LEN,
};
use crate::error::{CodecError, CryptoError};
use crate::nonce::{
    build_session_nonce, nonce_layout, nonces_are_unique, session_nonce, AeadNonce,
};
use crate::replay::{ReplayWindow, WindowView};
use vstd::prelude::*;
use vstd::slice::slice_to_vec;

verus! {

/// Endpoint role: it selects the direction of keys and nonce prefixes.
#[derive(Debug, Clone, Copy, PartialEq, Eq, Structural)]
pub enum Role {
    Client,
    Server,
}

impl Role {
    /// The direction in which this role sends.
    pub open spec fn sends(self) -> Direction {
        match self {
            Role::Client => Direction::ClientToServer,
            Role::Server => Direction::ServerToClient,
        }
    }

    /// The direction in which this role receives.
    pub open spec fn receives(self) -> Direction {
        match self {
            Role::Client => Direction::ServerToClient,
            Role::Server => Direction::ClientToServer,
        }
    }

    pub fn send_direction(self) -> (r: Direction)
        ensures
            r == self.sends(),
    {
        match self {
            Role::Client => Direction::ClientToServer,
            Role::Server => Direction::ServerToClient,
        }
    }

    pub fn recv_direction(self) -> (r: Direction)
        ensures
            r == self.receives(),
    {
        match self {
            Role::Client => Direction::ServerToClient,
            Role::Server => Direction::ClientToServer,
        }
    }
}

/// The traffic keys and nonce prefixes of a session, derived from its master
/// secret and bound to its identifier. Erased on drop.
pub struct TrafficKeys {
    pub key_c2s: [u8; 32],
    pub key_s2c: [u8; 32],
    pub prefix_c2s: [u8; 4],
    pub prefix_s2c: [u8; 4],
}

impl TrafficKeys {
    /// Overwrites keys and prefixes with zeros.
    pub fn erase(&mut self)
        ensures
            final(self).key_c2s@ == zeros(32),
            final(self).key_s2c@ == zeros(32),
            final(self).prefix_c2s@ == zeros(4),
            final(self).prefix_s2c@ == zeros(4),
        opens_invariants none
        no_unwind
    {
        wipe(&mut self.key_c2s);
        wipe(&mut self.key_s2c);
        wipe(&mut self.prefix_c2s);
        wipe(&mut self.prefix_s2c);
    }

    /// The key of a direction.
    pub open spec fn key(self, d: Direction) -> Seq<u8> {
        match d {
            Direction::ClientToServer => self.key_c2s@,
            Direction::ServerToClient => self.key_s2c@,
        }
    }

    /// The nonce prefix of a direction.
    pub open spec fn prefix(self, d: Direction) -> Seq<u8> {
        match d {
            Direction::ClientToServer => self.prefix_c2s@,
            Direction::ServerToClient => self.prefix_s2c@,
        }
    }
}

impl Drop for TrafficKeys {
    fn drop(&mut self)
        opens_invariants none
        no_unwind
    {
        self.erase();
    }
}

/// The inputs of one AEAD sealing. Key and plaintext are erased on drop.
pub struct SealRequest {
    pub key: [u8; 32],
    pub nonce: AeadNonce,
    pub plaintext: [u8; INNER_PLAINTEXT_LEN],
    pub aad: [u8; HEADER_LEN],
    /// The counter of the packet that is being sealed.
    pub counter: u64,
}

impl SealRequest {
    /// Overwrites key and plaintext with zeros.
    pub fn erase(&mut self)
        ensures
            final(self).key@ == zeros(32),
            final(self).plaintext@ == zeros(INNER_PLAINTEXT_LEN as nat),
        opens_invariants none
        no_unwind
    {
        wipe(&mut self.key);
        wipe(&mut self.plaintext);
    }
}

impl Drop for SealRequest {
    fn drop(&mut self)
        opens_invariants none
        no_unwind
    {
        self.erase();
    }
}

/// The inputs of one AEAD opening. The key is erased on drop.
pub struct OpenRequest {
    pub key: [u8; 32],
    pub nonce: AeadNonce,
    /// Ciphertext and tag.
    pub region: Vec<u8>,
    pub aad: [u8; HEADER_LEN],
}

impl OpenRequest {
    /// Overwrites the key with zeros.
    pub fn erase(&mut self)
        ensures
            final(self).key@ == zeros(32),
        opens_invariants none
        no_unwind
    {
        wipe(&mut self.key);
    }
}

impl Drop for OpenRequest {
    fn drop(&mut self)
        opens_invariants none
        no_unwind
    {
        self.erase();
    }
}

/// Cryptographic state of one end of a session.
pub struct CipherSession {
    role: Role,
    session_id: [u8; SESSION_ID_LEN],
    keys: TrafficKeys,
    send_counter: u64,
    replay: ReplayWindow,
}

/// What a cipher session holds.
pub struct CipherView {
    pub role: Role,
    pub session_id: [u8; SESSION_ID_LEN],
    pub keys: TrafficKeys,
    /// The counter of the next packet.
    pub send_counter: u64,
    pub window: WindowView,
}

impl View for CipherSession {
    type V = CipherView;

    closed spec fn view(&self) -> CipherView {
        CipherView {
            role: self.role,
            session_id: self.session_id,
            keys: self.keys,
            send_counter: self.send_counter,
            window: self.replay@,
        }
    }
}

/// A well-formed inner plaintext that travels in direction `d`.
pub open spec fn acceptable(plaintext: Seq<u8>, d: Direction) -> bool {
    plaintext.len() == INNER_PLAINTEXT_LEN && plaintext[0] <= 0x03 && plaintext[1] == d.code()
}

/// The counter in the header of a packet.
pub open spec fn counter_of(dg: Seq<u8>) -> u64 {
    crate::bytes::be_value(dg.subrange(9, 17))
}

impl CipherView {
    /// A fresh session.
    pub open spec fn fresh(
        role: Role,
        keys: TrafficKeys,
        session_id: [u8; SESSION_ID_LEN],
    ) -> Self {
        CipherView { role, session_id, keys, send_counter: 0, window: WindowView::empty() }
    }

    /// The header of the next packet.
    pub open spec fn next_header(self) -> PacketHeader {
        PacketHeader {
            version: PROTOCOL_VERSION,
            session_id: self.session_id,
            packet_nonce: self.send_counter,
        }
    }

    /// Why a payload cannot be sealed, if it cannot.
    pub open spec fn seal_error(self, payload: Seq<u8>) -> Option<CodecError> {
        if payload.len() != PAYLOAD_LEN {
            Some(
                CodecError::WrongLength {
                    field: "payload",
                    expected: PAYLOAD_LEN,
                    got: payload.len() as usize,
                },
            )
        } else if self.send_counter >= MAX_PACKET_NONCE {
            Some(CodecError::NonceExhausted { counter: self.send_counter })
        } else {
            None
        }
    }

    /// The inputs of the sealing of a payload.
    pub open spec fn seals(self, msg_type: MessageType, payload: Seq<u8>, q: SealRequest) -> bool {
        &&& q.key@ == self.keys.key(self.role.sends())
        &&& q.nonce.bytes@ == session_nonce(self.keys.prefix(self.role.sends()), self.send_counter)
        &&& q.plaintext@ == seq![msg_type.code(), self.role.sends().code()] + payload
        &&& q.aad@ == self.next_header().encoding()
        &&& q.counter == self.send_counter
    }

    /// A request for the next packet of this session.
    pub open spec fn current(self, q: SealRequest) -> bool {
        q.aad@ == self.next_header().encoding() && q.counter == self.send_counter
            && self.send_counter < MAX_PACKET_NONCE
    }

    /// One more packet was sent.
    pub open spec fn sent(self) -> Self {
        CipherView { send_counter: (self.send_counter + 1) as u64, ..self }
    }

    /// The inputs of the opening of a packet.
    pub open spec fn opens(self, dg: Seq<u8>, q: OpenRequest) -> bool {
        &&& q.key@ == self.keys.key(self.role.receives())
        &&& q.nonce.bytes@ == session_nonce(
            self.keys.prefix(self.role.receives()),
            counter_of(dg),
        )
        &&& q.region@ == dg.subrange(HEADER_LEN as int, PACKET_SIZE as int)
        &&& q.aad@ == dg.subrange(0, HEADER_LEN as int)
    }

    /// What becomes of a packet, given what its opening gave: the session
    /// afterwards, and the accepted plaintext or the error.
    pub open spec fn decrypted(self, dg: Seq<u8>, opened: Option<Seq<u8>>) -> (
        CipherView,
        Result<Seq<u8>, CodecError>,
    ) {
        if dg[0] != PROTOCOL_VERSION {
            (self, Err(CodecError::DecryptionFailed))
        } else {
            match opened {
                None => (self, Err(CodecError::DecryptionFailed)),
                Some(pt) => {
                    let c = counter_of(dg);
                    if c >= MAX_PACKET_NONCE {
                        (self, Err(CodecError::NonceExhausted { counter: c }))
                    } else if !self.window.admits(c) {
                        (self, Err(CodecError::DecryptionFailed))
                    } else {
                        let next = CipherView { window: self.window.accepted(c), ..self };
                        if acceptable(pt, self.role.receives()) {
                            (next, Ok(pt))
                        } else {
                            (next, Err(CodecError::DecryptionFailed))
                        }
                    }
                },
            }
        }
    }
}

/// What one end seals the other end opens: for the packet that is assembled
/// from a sealing, the receiver asks the AEAD for the same key, the same nonce
/// and the same associated data; and if the opening gives back the sealed
/// plaintext, a counter that is new to the receiver's window is accepted with
/// it.
pub proof fn sealed_packet_opens(
    sender: CipherView,
    receiver: CipherView,
    msg_type: MessageType,
    payload: Seq<u8>,
    q: SealRequest,
    sealed: Seq<u8>,
    pkt: WirePacket,
    o: OpenRequest,
)
    requires
        sender.keys == receiver.keys,
        sender.role.sends() == receiver.role.receives(),
        sender.seal_error(payload) is None,
        sender.seals(msg_type, payload, q),
        sealed.len() == INNER_PLAINTEXT_LEN + AEAD_TAG_LEN,
        pkt@ == q.aad@ + sealed,
        receiver.opens(pkt@, o),
    ensures
        o.key@ == q.key@,
        o.nonce.bytes@ == q.nonce.bytes@,
        o.aad@ == q.aad@,
        o.region@ == sealed,
        receiver.window.admits(sender.send_counter) ==> receiver.decrypted(
            pkt@,
            Some(q.plaintext@),
        ).1 == Ok::<Seq<u8>, CodecError>(q.plaintext@),
{
    let h = sender.next_header();
    packet_roundtrip(h, sealed, pkt);
    assert(counter_of(pkt@) == sender.send_counter);
    assert(q.plaintext@[0] == msg_type.code());
    assert(q.plaintext@[1] == sender.role.sends().code());
}

/// Packets sent one after the other carry different nonces: the counter grows
/// with every packet, so no key and nonce pair is used twice.
pub proof fn sent_nonces_differ(
    earlier: CipherView,
    later: CipherView,
    a: SealRequest,
    b: SealRequest,
    m: MessageType,
    n: MessageType,
    p: Seq<u8>,
    q: Seq<u8>,
)
    requires
        earlier.keys == later.keys,
        earlier.role == later.role,
        earlier.sent().send_counter <= later.send_counter,
        earlier.seal_error(p) is None,
        earlier.seals(m, p, a),
        later.seals(n, q, b),
    ensures
        a.nonce.bytes@ != b.nonce.bytes@,
{
    let prefix = earlier.keys.prefix(earlier.role.sends());
    assert(prefix.len() == 4) by {
        match earlier.role.sends() {
            Direction::ClientToServer => assert(earlier.keys.prefix_c2s@.len() == 4),
            Direction::ServerToClient => assert(earlier.keys.prefix_s2c@.len() == 4),
        }
    }
    nonces_are_unique(prefix, earlier.send_counter, prefix, later.send_counter);
}

/// Whatever arrives, the receive path fails with one of two errors only. A
/// packet that does not open, or is of another version, changes nothing.
pub proof fn receive_errors_are_uniform(s: CipherView, dg: Seq<u8>, opened: Option<Seq<u8>>)
    ensures
        match s.decrypted(dg, opened).1 {
            Ok(_) => opened is Some,
            Err(e) => e is DecryptionFailed || e is NonceExhausted,
        },
        opened is None || dg[0] != PROTOCOL_VERSION ==> s.decrypted(dg, opened) == (
            s,
            Err::<Seq<u8>, CodecError>(CodecError::DecryptionFailed),
        ),
        s.decrypted(dg, opened).1 matches Err(e) && e is NonceExhausted ==> opened is Some
            && s.decrypted(dg, opened).0 == s,
{
}

/// A packet that comes back to its sender is rejected, even if it opens: the
/// direction inside says who sent it.
pub proof fn reflected_packet_is_rejected(
    sender: CipherView,
    msg_type: MessageType,
    payload: Seq<u8>,
    q: SealRequest,
    later: CipherView,
    dg: Seq<u8>,
)
    requires
        sender.seals(msg_type, payload, q),
        later.role == sender.role,
    ensures
        later.decrypted(dg, Some(q.plaintext@)).1 is Err,
{
    assert(q.plaintext@[1] == sender.role.sends().code());
}

/// A replayed packet is rejected: once a packet was accepted, the same packet
/// is rejected after any number of further packets.
pub proof fn replayed_packet_is_rejected(
    s: CipherView,
    dg: Seq<u8>,
    opened: Seq<u8>,
    later: Seq<u64>,
    t: CipherView,
    again: Option<Seq<u8>>,
)
    requires
        s.window.wf(),
        s.decrypted(dg, Some(opened)).1 is Ok,
        t.window == s.decrypted(dg, Some(opened)).0.window.run(later),
    ensures
        t.decrypted(dg, again) == (t, Err::<Seq<u8>, CodecError>(CodecError::DecryptionFailed)),
{
    crate::replay::no_counter_accepted_twice(s.window, counter_of(dg), later);
}

impl CipherSession {
    /// A fresh session from derived traffic keys. A failed derivation is
    /// handed on.
    ///
    /// Keys must be fresh: a second session with the same keys would repeat
    /// nonces.
    pub fn new(
        role: Role,
        keys: Result<TrafficKeys, CryptoError>,
        session_id: [u8; SESSION_ID_LEN],
    ) -> (r: Result<Self, CodecError>)
        ensures
            match keys {
                Ok(k) => r matches Ok(s) && s@ == CipherView::fresh(role, k, session_id),
                Err(e) => r == Err::<CipherSession, CodecError>(CodecError::Crypto(e)),
            },
    {
        match keys {
            Ok(k) => Ok(
                CipherSession {
                    role,
                    session_id,
                    keys: k,
                    send_counter: 0,
                    replay: ReplayWindow::new(),
                },
            ),
            Err(e) => Err(CodecError::Crypto(e)),
        }
    }

    /// The session identifier.
    pub fn session_id(&self) -> (r: &[u8; SESSION_ID_LEN])
        ensures
            *r == self@.session_id,
    {
        &self.session_id
    }

    /// The counter of the next packet.
    pub fn send_counter(&self) -> (r: u64)
        ensures
            r == self@.send_counter,
    {
        self.send_counter
    }

    /// Highest accepted counter.
    pub fn recv_highest(&self) -> (r: Option<u64>)
        ensures
            r == self@.window.highest,
    {
        self.replay.highest()
    }

    /// Skips counters up to `counter`. A counter is never moved back.
    pub fn skip_to(&mut self, counter: u64)
        ensures
            final(self)@ == (CipherView {
                send_counter: if counter > old(self)@.send_counter {
                    counter
                } else {
                    old(self)@.send_counter
                },
                ..old(self)@
            }),
    {
        if counter > self.send_counter {
            self.send_counter = counter;
        }
    }

    fn send_key(&self) -> (r: &[u8; 32])
        ensures
            r@ == self@.keys.key(self@.role.sends()),
    {
        match self.role {
            Role::Client => &self.keys.key_c2s,
            Role::Server => &self.keys.key_s2c,
        }
    }

    fn send_prefix(&self) -> (r: &[u8; 4])
        ensures
            r@ == self@.keys.prefix(self@.role.sends()),
    {
        match self.role {
            Role::Client => &self.keys.prefix_c2s,
            Role::Server => &self.keys.prefix_s2c,
        }
    }

    fn recv_key(&self) -> (r: &[u8; 32])
        ensures
            r@ == self@.keys.key(self@.role.receives()),
    {
        match self.role {
            Role::Client => &self.keys.key_s2c,
            Role::Server => &self.keys.key_c2s,
        }
    }

    fn recv_prefix(&self) -> (r: &[u8; 4])
        ensures
            r@ == self@.keys.prefix(self@.role.receives()),
    {
        match self.role {
            Role::Client => &self.keys.prefix_s2c,
            Role::Server => &self.keys.prefix_c2s,
        }
    }

    /// What the AEAD has to seal for a payload. The length of the payload is
    /// checked before the counter.
    pub fn seal_request(&self, msg_type: MessageType, payload: &[u8]) -> (r: Result<
        SealRequest,
        CodecError,
    >)
        ensures
            match self@.seal_error(payload@) {
                Some(e) => r == Err::<SealRequest, CodecError>(e),
                None => r matches Ok(q) && self@.seals(msg_type, payload@, q) && self@.current(q),
            },
    {
        if payload.len() != PAYLOAD_LEN {
            return Err(
                CodecError::WrongLength {
                    field: "payload",
                    expected: PAYLOAD_LEN,
                    got: payload.len(),
                },
            );
        }
        if is_counter_exhausted(self.send_counter) {
            return Err(CodecError::NonceExhausted { counter: self.send_counter });
        }
        let inner = match InnerPlaintext::new(msg_type, self.role.send_direction(), payload) {
            Ok(i) => i,
            Err(e) => return Err(e),
        };
        let header = PacketHeader::new(self.session_id, self.send_counter);
        Ok(
            SealRequest {
                key: *self.send_key(),
                nonce: build_session_nonce(self.send_prefix(), self.send_counter),
                plaintext: inner.encode(),
                aad: header.encode(),
                counter: self.send_counter,
            },
        )
    }

    /// Assembles the packet from a request and the result of its sealing, and
    /// advances the counter. A failed sealing, and one of the wrong size,
    /// change nothing.
    ///
    /// The request is the session's current one: nothing was sent since it was
    /// made.
    pub fn encrypt(&mut self, request: SealRequest, sealed: Result<Vec<u8>, CryptoError>) -> (r:
        Result<WirePacket, CodecError>)
        requires
            old(self)@.current(request),
        ensures
            match sealed {
                Err(e) => final(self)@ == old(self)@ && r == Err::<WirePacket, CodecError>(
                    CodecError::Crypto(e),
                ),
                Ok(ct) => if ct@.len() == INNER_PLAINTEXT_LEN + AEAD_TAG_LEN {
                    &&& final(self)@ == old(self)@.sent()
                    &&& r matches Ok(p) && p@ == request.aad@ + ct@
                } else {
                    &&& final(self)@ == old(self)@
                    &&& r == Err::<WirePacket, CodecError>(
                        CodecError::Truncated {
                            field: "aead_region",
                            min: (PACKET_SIZE - HEADER_LEN) as usize,
                            got: ct@.len() as usize,
                        },
                    )
                },
            },
    {
        let mut ct = match sealed {
            Ok(c) => c,
            Err(e) => return Err(CodecError::Crypto(e)),
        };
        proof {
            header_roundtrip(self@.next_header(), self@.next_header());
            assert(request.aad@[0] == PROTOCOL_VERSION);
            assert(ct.len() == ct@.len());
        }
        let packet = WirePacket::from_parts(&request.aad, ct.as_slice());
        wipe(ct.as_mut_slice());
        match packet {
            Ok(p) => {
                assert(p@.len() == PACKET_SIZE);
                self.send_counter = self.send_counter + 1;
                Ok(p)
            },
            Err(e) => Err(e),
        }
    }

    /// What the AEAD has to open for a packet. A packet of another version is
    /// rejected before that.
    pub fn open_request(&self, packet: &WirePacket) -> (r: Result<OpenRequest, CodecError>)
        ensures
            match r {
                Ok(q) => packet@[0] == PROTOCOL_VERSION && self@.opens(packet@, q),
                Err(e) => packet@[0] != PROTOCOL_VERSION && e == CodecError::DecryptionFailed,
            },
    {
        let header = match packet.parse_header() {
            Ok(h) => h,
            Err(_) => return Err(CodecError::DecryptionFailed),
        };
        Ok(
            OpenRequest {
                key: *self.recv_key(),
                nonce: build_session_nonce(self.recv_prefix(), header.packet_nonce),
                region: slice_to_vec(packet.aead_region()),
                aad: *packet.header_bytes(),
            },
        )
    }

    /// Validates a packet, given what its opening gave, `None` if it did not
    /// authenticate. Checked in order: version, authenticity, counter
    /// exhaustion, replay, inner framing, direction. The opened bytes are
    /// erased.
    pub fn decrypt(&mut self, packet: &WirePacket, opened: Option<Vec<u8>>) -> (r: Result<
        InnerPlaintext,
        CodecError,
    >)
        ensures
            ({
                let pt = match opened {
                    Some(v) => Some(v@),
                    None => None,
                };
                let out = old(self)@.decrypted(packet@, pt);
                &&& final(self)@ == out.0
                &&& match r {
                    Ok(inner) => out.1 == Ok::<Seq<u8>, CodecError>(inner.encoding()),
                    Err(e) => out.1 == Err::<Seq<u8>, CodecError>(e),
                }
            }),
    {
        let header = match packet.parse_header() {
            Ok(h) => h,
            Err(_) => return Err(CodecError::DecryptionFailed),
        };
        let counter: u64 = header.packet_nonce;
        let mut plaintext = match opened {
            Some(pt) => pt,
            None => return Err(CodecError::DecryptionFailed),
        };
        if is_counter_exhausted(counter) {
            wipe(plaintext.as_mut_slice());
            return Err(CodecError::NonceExhausted { counter });
        }
        match self.replay.accept(counter) {
            Ok(_) => {},
            Err(e) => {
                wipe(plaintext.as_mut_slice());
                return Err(e);
            },
        }
        let ghost pt = plaintext@;
        let decoded = InnerPlaintext::decode(plaintext.as_slice());
        wipe(plaintext.as_mut_slice());
        match decoded {
            Err(_) => Err(CodecError::DecryptionFailed),
            Ok(inner) => {
                proof {
                    assert(pt[0] == inner.msg_type.code() && pt[1] == inner.direction.code());
                }
                if inner.direction != self.role.recv_direction() {
                    return Err(CodecError::DecryptionFailed);
                }
                Ok(inner)
            },
        }
    }
}

/// What one role sends the other one receives: clients send to servers, and
/// servers to clients.
pub proof fn roles_are_mirrored()
    ensures
        Role::Client.sends() == Direction::ClientToServer,
        Role::Server.sends() == Direction::ServerToClient,
        Role::Client.receives() == Role::Server.sends(),
        Role::Server.receives() == Role::Client.sends(),
{
}

/// Each direction has its own key and its own prefix.
pub proof fn directions_have_their_keys(k: TrafficKeys)
    ensures
        k.key(Direction::ClientToServer) == k.key_c2s@,
        k.key(Direction::ServerToClient) == k.key_s2c@,
        k.prefix(Direction::ClientToServer) == k.prefix_c2s@,
        k.prefix(Direction::ServerToClient) == k.prefix_s2c@,
{
}

/// A sealing protects the whole payload behind its type and direction, under the
/// key and prefix of the sending role, with the counter in the nonce, and binds
/// version, session and counter as associated data.
pub proof fn sealing_protects_the_payload(
    s: CipherView,
    msg_type: MessageType,
    payload: Seq<u8>,
    q: SealRequest,
)
    requires
        payload.len() == PAYLOAD_LEN,
        s.seals(msg_type, payload, q),
    ensures
        q.plaintext@[0] == msg_type.code(),
        q.plaintext@[1] == if s.role == Role::Client {
            0u8
        } else {
            1u8
        },
        q.plaintext@.subrange(2, 1247) == payload,
        q.key@ == if s.role == Role::Client {
            s.keys.key_c2s@
        } else {
            s.keys.key_s2c@
        },
        q.nonce.bytes@.subrange(0, 4) == if s.role == Role::Client {
            s.keys.prefix_c2s@
        } else {
            s.keys.prefix_s2c@
        },
        be_value(q.nonce.bytes@.subrange(4, 12)) == s.send_counter,
        q.aad@.len() == 17,
        q.aad@[0] == 1,
        q.aad@.subrange(1, 9) == s.session_id@,
        be_value(q.aad@.subrange(9, 17)) == s.send_counter,
        q.counter == s.send_counter,
{
    let prefix = if s.role == Role::Client {
        s.keys.prefix_c2s@
    } else {
        s.keys.prefix_s2c@
    };
    assert(s.keys.prefix_c2s@.len() == 4 && s.keys.prefix_s2c@.len() == 4);
    nonce_layout(prefix, s.send_counter);
    header_layout(s.next_header());
    assert(q.plaintext@.subrange(2, 1247) =~= payload);
}

/// An opening uses the key and prefix of the other role, the counter of the
/// packet, its header as associated data and everything behind it as ciphertext.
pub proof fn opening_uses_the_whole_packet(s: CipherView, dg: Seq<u8>, q: OpenRequest)
    requires
        dg.len() == PACKET_SIZE,
        s.opens(dg, q),
    ensures
        q.key@ == if s.role == Role::Client {
            s.keys.key_s2c@
        } else {
            s.keys.key_c2s@
        },
        q.nonce.bytes@.subrange(0, 4) == if s.role == Role::Client {
            s.keys.prefix_s2c@
        } else {
            s.keys.prefix_c2s@
        },
        be_value(q.nonce.bytes@.subrange(4, 12)) == be_value(dg.subrange(9, 17)),
        q.aad@ + q.region@ == dg,
        q.aad@.len() == 17,
{
    let prefix = if s.role == Role::Client {
        s.keys.prefix_s2c@
    } else {
        s.keys.prefix_c2s@
    };
    assert(s.keys.prefix_c2s@.len() == 4 && s.keys.prefix_s2c@.len() == 4);
    nonce_layout(prefix, counter_of(dg));
    assert(q.aad@ + q.region@ =~= dg);
}

/// A payload can be sealed exactly if it fills its slot and the counter is not
/// used up; its length is checked first.
pub proof fn sealing_needs_a_full_slot_and_a_counter(s: CipherView, payload: Seq<u8>)
    requires
        payload.len() <= usize::MAX,
    ensures
        s.seal_error(payload) is None <==> payload.len() == 1245 && s.send_counter
            < MAX_PACKET_NONCE,
        payload.len() != 1245 ==> (s.seal_error(payload) matches Some(CodecError::WrongLength {
            field,
            expected,
            got,
        }) && field == "payload" && expected == 1245 && got == payload.len()),
        payload.len() == 1245 && s.send_counter >= MAX_PACKET_NONCE ==> s.seal_error(payload)
            == Some(CodecError::NonceExhausted { counter: s.send_counter }),
{
}

/// Sending advances the counter by one and changes nothing else; a fresh session
/// starts at 0 with an empty window.
pub proof fn sending_advances_the_counter(
    s: CipherView,
    role: Role,
    keys: TrafficKeys,
    sid: [u8; SESSION_ID_LEN],
)
    requires
        s.send_counter < MAX_PACKET_NONCE,
    ensures
        s.sent().send_counter == s.send_counter + 1,
        s.sent().role == s.role,
        s.sent().session_id == s.session_id,
        s.sent().keys == s.keys,
        s.sent().window == s.window,
        ({
            let f = CipherView::fresh(role, keys, sid);
            &&& f.role == role
            &&& f.keys == keys
            &&& f.session_id == sid
            &&& f.send_counter == 0
            &&& f.window.highest is None
        }),
{
}

/// A packet is accepted exactly if it is of the supported version, opens
/// authentically, has a counter below the limit that is new to the window, and
/// holds a whole plaintext of a known type that travels towards this role. What is
/// accepted is the opened plaintext.
pub proof fn packet_is_accepted_exactly_if(s: CipherView, dg: Seq<u8>, pt: Seq<u8>)
    ensures
        ({
            let c = be_value(dg.subrange(9, 17));
            let new = s.window.highest matches Some(h) ==> c > h || (h - c <= 1024
                && !s.window.seen.contains(c));
            let out = s.decrypted(dg, Some(pt));
            &&& out.1 is Ok <==> dg[0] == 1 && c < MAX_PACKET_NONCE && new && pt.len() == 1247
                && pt[0] <= 3 && pt[1] == if s.role == Role::Client {
                1u8
            } else {
                0u8
            }
            &&& out.1 matches Ok(got) ==> got == pt
            &&& out.1 is Ok ==> out.0.window.seen.contains(c) && out.0.window.highest == Some(
                match s.window.highest {
                    Some(h) if h > c => h,
                    _ => c,
                },
            )
            &&& dg[0] == 1 && c >= MAX_PACKET_NONCE ==> out == (
                s,
                Err::<Seq<u8>, CodecError>(CodecError::NonceExhausted { counter: c }),
            )
            &&& out.1 is Err && !(dg[0] == 1 && c >= MAX_PACKET_NONCE) ==> out.1 == Err::<
                Seq<u8>,
                CodecError,
            >(CodecError::DecryptionFailed)
            &&& out.0.role == s.role && out.0.session_id == s.session_id && out.0.keys == s.keys
                && out.0.send_counter == s.send_counter
        }),
{
}

/// A packet with an authentic but malformed plaintext uses up its counter; one
/// whose counter is not new changes nothing.
pub proof fn authentic_counter_is_used_up(s: CipherView, dg: Seq<u8>, pt: Seq<u8>)
    requires
        s.decrypted(dg, Some(pt)).1 is Err,
        dg[0] == 1,
    ensures
        ({
            let c = be_value(dg.subrange(9, 17));
            let new = c < MAX_PACKET_NONCE && (s.window.highest matches Some(h) ==> c > h || (h - c
                <= 1024 && !s.window.seen.contains(c)));
            if new {
                s.decrypted(dg, Some(pt)).0.window.seen.contains(c)
            } else {
                s.decrypted(dg, Some(pt)).0 == s
            }
        }),
{
}

/// A request is the current one exactly if it is for the next counter of this
/// session, which is not used up, and binds the header with that counter.
pub proof fn current_request_is_for_the_next_counter(s: CipherView, q: SealRequest)
    ensures
        s.current(q) ==> q.counter == s.send_counter && s.send_counter < MAX_PACKET_NONCE
            && q.aad@[0] == 1 && q.aad@.subrange(1, 9) == s.session_id@ && be_value(
            q.aad@.subrange(9, 17),
        ) == s.send_counter,
{
    header_layout(s.next_header());
}

} // verus!
