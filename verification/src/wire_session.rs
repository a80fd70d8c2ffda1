//! A session of the data path: the envelope bound to the connection lifecycle.
//!
//! Packets are sealed and opened only while the session is `Established`. When
//! the counter is used up the session moves to `Rekey`, where the data path is
//! blocked: the caller closes it and establishes one with fresh keys.
use crate::codec::{
    InnerPlaintext, MessageType, WirePacket, AEAD_TAG_LEN, INNER_PLAINTEXT_LEN, MAX_PACKET_NONCE,
    PACKET_SIZE, PAYLOAD_LEN, PROTOCOL_VERSION, SESSION_ID_LEN,
};
use crate::crypto::{random_array, random_failure};
use crate::envelope::{CipherSession, CipherView, OpenRequest, Role, SealRequest, TrafficKeys};
use crate::error::{CodecError, CryptoError};
use crate::handshake_v2::outcome::HandshakeOutcome;
use crate::metrics::SessionMetrics;
use crate::state::{allowed, InvalidTransition, ProtocolState};
use crate::time::Instant;
use vstd::prelude::*;

verus! {

/// Errors of a session.
#[derive(Debug, Clone, PartialEq, Eq)]
pub enum SessionError {
    /// A lifecycle transition was rejected.
    State(InvalidTransition),
    /// The data path was used in a state that does not permit it.
    WrongState { required: ProtocolState, actual: ProtocolState },
    /// A packet failed.
    Codec(CodecError),
    /// A local cryptographic failure.
    Crypto(CryptoError),
    /// The counter is used up: close the session and establish a fresh one.
    RekeyRequired,
}

/// One end of a session.
pub struct WireSession {
    role: Role,
    session_id: [u8; SESSION_ID_LEN],
    state: ProtocolState,
    cipher: CipherSession,
    metrics: SessionMetrics,
}

/// What a session holds.
pub struct SessionView {
    pub role: Role,
    pub session_id: [u8; SESSION_ID_LEN],
    pub state: ProtocolState,
    pub cipher: CipherView,
    pub metrics: SessionMetrics,
}

impl View for WireSession {
    type V = SessionView;

    closed spec fn view(&self) -> SessionView {
        SessionView {
            role: self.role,
            session_id: self.session_id,
            state: self.state,
            cipher: self.cipher@,
            metrics: self.metrics,
        }
    }
}

/// Counters of a session that was just created.
pub open spec fn initial_metrics(now: Instant) -> SessionMetrics {
    SessionMetrics {
        bytes_sent: 0,
        bytes_received: 0,
        packets_sent: 0,
        packets_received: 0,
        handshake_duration_ms: None,
        created_at: Some(now),
    }
}

/// Counters after one more packet was sent. They wrap around.
pub open spec fn counted_out(m: SessionMetrics) -> SessionMetrics {
    SessionMetrics {
        packets_sent: m.packets_sent.wrapping_add(1),
        bytes_sent: m.bytes_sent.wrapping_add(1280),
        ..m
    }
}

/// Counters after one more packet was accepted. They wrap around.
pub open spec fn counted_in(m: SessionMetrics) -> SessionMetrics {
    SessionMetrics {
        packets_received: m.packets_received.wrapping_add(1),
        bytes_received: m.bytes_received.wrapping_add(1280),
        ..m
    }
}

impl SessionView {
    /// A session that was just created, in `state`.
    pub open spec fn created(
        role: Role,
        keys: TrafficKeys,
        session_id: [u8; SESSION_ID_LEN],
        state: ProtocolState,
        now: Instant,
    ) -> Self {
        SessionView {
            role,
            session_id,
            state,
            cipher: CipherView::fresh(role, keys, session_id),
            metrics: initial_metrics(now),
        }
    }

    /// The session moved to another state.
    pub open spec fn moved(self, state: ProtocolState) -> Self {
        SessionView { state, ..self }
    }

    /// Why the data path is closed, if it is.
    pub open spec fn blocked(self) -> Option<SessionError> {
        if self.state == ProtocolState::Established {
            None
        } else {
            Some(
                SessionError::WrongState {
                    required: ProtocolState::Established,
                    actual: self.state,
                },
            )
        }
    }

    /// One more packet was sent.
    pub open spec fn sent(self) -> Self {
        SessionView { cipher: self.cipher.sent(), metrics: counted_out(self.metrics), ..self }
    }

    /// What a request for sealing gives: the session afterwards, and why it
    /// was refused, if it was.
    pub open spec fn sealing(self, payload: Seq<u8>) -> (SessionView, Option<SessionError>) {
        match self.blocked() {
            Some(e) => (self, Some(e)),
            None => match self.cipher.seal_error(payload) {
                None => (self, None),
                Some(CodecError::NonceExhausted { counter: _ }) => (
                    self.moved(ProtocolState::Rekey),
                    Some(SessionError::RekeyRequired),
                ),
                Some(e) => (self, Some(SessionError::Codec(e))),
            },
        }
    }

    /// What becomes of a packet, given what its opening gave.
    pub open spec fn decrypted(self, dg: Seq<u8>, opened: Option<Seq<u8>>) -> (
        SessionView,
        Result<Seq<u8>, SessionError>,
    ) {
        match self.blocked() {
            Some(e) => (self, Err(e)),
            None => {
                let out = self.cipher.decrypted(dg, opened);
                let s = SessionView { cipher: out.0, ..self };
                match out.1 {
                    Ok(pt) => (SessionView { metrics: counted_in(s.metrics), ..s }, Ok(pt)),
                    Err(CodecError::NonceExhausted { counter: _ }) => (
                        s.moved(ProtocolState::Rekey),
                        Err(SessionError::RekeyRequired),
                    ),
                    Err(e) => (s, Err(SessionError::Codec(e))),
                }
            },
        }
    }

    /// Neither a payload nor a packet gets through: both are refused because of
    /// the state, and change nothing.
    pub open spec fn refuses(
        self,
        payload: Seq<u8>,
        dg: Seq<u8>,
        opened: Option<Seq<u8>>,
    ) -> bool {
        let e = SessionError::WrongState {
            required: ProtocolState::Established,
            actual: self.state,
        };
        &&& self.sealing(payload) == (self, Some(e))
        &&& self.decrypted(dg, opened) == (self, Err::<Seq<u8>, SessionError>(e))
    }
}

/// Outside `Established` the data path does nothing: whatever is sent or
/// received is refused and changes nothing.
pub proof fn data_path_needs_established(
    s: SessionView,
    payload: Seq<u8>,
    dg: Seq<u8>,
    opened: Option<Seq<u8>>,
)
    requires
        s.state != ProtocolState::Established,
    ensures
        s.refuses(payload, dg, opened),
{
}

/// Traffic counters grow only with packets that were accepted: a packet that
/// is rejected leaves them alone, and leaves the state alone unless it asks for
/// fresh keys.
pub proof fn garbage_is_not_counted(s: SessionView, dg: Seq<u8>, opened: Option<Seq<u8>>)
    requires
        s.decrypted(dg, opened).1 is Err,
    ensures
        s.decrypted(dg, opened).0.metrics == s.metrics,
        s.decrypted(dg, opened).0.state != s.state ==> s.decrypted(dg, opened).1 == Err::<
            Seq<u8>,
            SessionError,
        >(SessionError::RekeyRequired) && s.decrypted(dg, opened).0.state == ProtocolState::Rekey,
{
}

/// A session whose counter is used up moves to `Rekey`, and its data path is
/// blocked there: whatever is sent or received next is refused.
pub proof fn exhaustion_blocks_the_session(
    s: SessionView,
    payload: Seq<u8>,
    dg: Seq<u8>,
    opened: Option<Seq<u8>>,
    next_payload: Seq<u8>,
    next_dg: Seq<u8>,
    next_opened: Option<Seq<u8>>,
)
    ensures
        s.sealing(payload).1 == Some(SessionError::RekeyRequired) ==> {
            let t = s.sealing(payload).0;
            t.state == ProtocolState::Rekey && t.refuses(next_payload, next_dg, next_opened)
        },
        s.decrypted(dg, opened).1 == Err::<Seq<u8>, SessionError>(SessionError::RekeyRequired)
            ==> {
            let t = s.decrypted(dg, opened).0;
            t.state == ProtocolState::Rekey && t.refuses(next_payload, next_dg, next_opened)
        },
{
    crate::envelope::receive_errors_are_uniform(s.cipher, dg, opened);
}

impl WireSession {
    /// A session in `Initial`.
    pub fn new(
        role: Role,
        keys: Result<TrafficKeys, CryptoError>,
        session_id: [u8; SESSION_ID_LEN],
        now: Instant,
    ) -> (r: Result<Self, SessionError>)
        ensures
            match keys {
                Ok(k) => r matches Ok(s) && s@ == SessionView::created(
                    role,
                    k,
                    session_id,
                    ProtocolState::Initial,
                    now,
                ),
                Err(e) => r == Err::<WireSession, SessionError>(
                    SessionError::Codec(CodecError::Crypto(e)),
                ),
            },
    {
        let cipher = match CipherSession::new(role, keys, session_id) {
            Ok(c) => c,
            Err(e) => return Err(SessionError::Codec(e)),
        };
        Ok(
            WireSession {
                role,
                session_id,
                state: ProtocolState::Initial,
                cipher,
                metrics: SessionMetrics {
                    bytes_sent: 0,
                    bytes_received: 0,
                    packets_sent: 0,
                    packets_received: 0,
                    handshake_duration_ms: None,
                    created_at: Some(now),
                },
            },
        )
    }

    /// A session in `Established`, for a completed handshake and the traffic
    /// keys that were derived from its master secret.
    pub fn established(
        role: Role,
        outcome: &HandshakeOutcome,
        keys: Result<TrafficKeys, CryptoError>,
        now: Instant,
    ) -> (r: Result<Self, SessionError>)
        ensures
            match keys {
                Ok(k) => r matches Ok(s) && s@ == SessionView::created(
                    role,
                    k,
                    outcome.session_id,
                    ProtocolState::Established,
                    now,
                ),
                Err(e) => r == Err::<WireSession, SessionError>(
                    SessionError::Codec(CodecError::Crypto(e)),
                ),
            },
    {
        match WireSession::new(role, keys, outcome.session_id, now) {
            Ok(mut s) => {
                s.state = ProtocolState::Established;
                Ok(s)
            },
            Err(e) => Err(e),
        }
    }

    pub fn state(&self) -> (r: ProtocolState)
        ensures
            r == self@.state,
    {
        self.state
    }

    pub fn role(&self) -> (r: Role)
        ensures
            r == self@.role,
    {
        self.role
    }

    pub fn session_id(&self) -> (r: &[u8; SESSION_ID_LEN])
        ensures
            *r == self@.session_id,
    {
        &self.session_id
    }

    pub fn metrics(&self) -> (r: &SessionMetrics)
        ensures
            *r == self@.metrics,
    {
        &self.metrics
    }

    /// The counter of the next packet.
    pub fn send_counter(&self) -> (r: u64)
        ensures
            r == self@.cipher.send_counter,
    {
        self.cipher.send_counter()
    }

    fn move_to(&mut self, to: ProtocolState) -> (r: Result<(), SessionError>)
        ensures
            if allowed(old(self)@.state, to) {
                final(self)@ == old(self)@.moved(to) && r is Ok
            } else {
                final(self)@ == old(self)@ && r == Err::<(), SessionError>(
                    SessionError::State(InvalidTransition { from: old(self)@.state, to }),
                )
            },
    {
        match self.state.transition(to) {
            Ok(next) => {
                self.state = next;
                Ok(())
            },
            Err(e) => Err(SessionError::State(e)),
        }
    }

    /// `Initial` to `Handshake`.
    pub fn begin_handshake(&mut self) -> (r: Result<(), SessionError>)
        ensures
            if allowed(old(self)@.state, ProtocolState::Handshake) {
                final(self)@ == old(self)@.moved(ProtocolState::Handshake) && r is Ok
            } else {
                final(self)@ == old(self)@ && r == Err::<(), SessionError>(
                    SessionError::State(
                        InvalidTransition { from: old(self)@.state, to: ProtocolState::Handshake },
                    ),
                )
            },
    {
        self.move_to(ProtocolState::Handshake)
    }

    /// To `Established`, from `Handshake` or from `Rekey`.
    pub fn complete_handshake(&mut self) -> (r: Result<(), SessionError>)
        ensures
            if allowed(old(self)@.state, ProtocolState::Established) {
                final(self)@ == old(self)@.moved(ProtocolState::Established) && r is Ok
            } else {
                final(self)@ == old(self)@ && r == Err::<(), SessionError>(
                    SessionError::State(
                        InvalidTransition {
                            from: old(self)@.state,
                            to: ProtocolState::Established,
                        },
                    ),
                )
            },
    {
        self.move_to(ProtocolState::Established)
    }

    /// Any state to `Closed`. Closing twice is closing once.
    pub fn close(&mut self) -> (r: Result<(), SessionError>)
        ensures
            r is Ok,
            final(self)@ == old(self)@.moved(ProtocolState::Closed),
    {
        self.state = ProtocolState::Closed;
        Ok(())
    }

    fn require_established(&self) -> (r: Result<(), SessionError>)
        ensures
            match self@.blocked() {
                None => r is Ok,
                Some(e) => r == Err::<(), SessionError>(e),
            },
    {
        if self.state == ProtocolState::Established {
            Ok(())
        } else {
            Err(
                SessionError::WrongState {
                    required: ProtocolState::Established,
                    actual: self.state,
                },
            )
        }
    }

    /// What the AEAD has to seal for a payload. At the end of the counter the
    /// session moves to `Rekey`.
    pub fn seal_request(&mut self, msg_type: MessageType, payload: &[u8]) -> (r: Result<
        SealRequest,
        SessionError,
    >)
        ensures
            final(self)@ == old(self)@.sealing(payload@).0,
            match old(self)@.sealing(payload@).1 {
                Some(e) => r == Err::<SealRequest, SessionError>(e),
                None => r matches Ok(q) && old(self)@.cipher.seals(msg_type, payload@, q) && old(
                    self,
                )@.cipher.current(q),
            },
    {
        match self.require_established() {
            Ok(_) => {},
            Err(e) => return Err(e),
        }
        match self.cipher.seal_request(msg_type, payload) {
            Ok(q) => Ok(q),
            Err(CodecError::NonceExhausted { counter: _ }) => {
                self.state = ProtocolState::Rekey;
                Err(SessionError::RekeyRequired)
            },
            Err(e) => Err(SessionError::Codec(e)),
        }
    }

    /// Assembles the packet from the session's current request and the result
    /// of its sealing.
    pub fn encrypt(&mut self, request: SealRequest, sealed: Result<Vec<u8>, CryptoError>) -> (r:
        Result<WirePacket, SessionError>)
        requires
            old(self)@.cipher.current(request),
        ensures
            match old(self)@.blocked() {
                Some(e) => final(self)@ == old(self)@ && r == Err::<WirePacket, SessionError>(e),
                None => match sealed {
                    Err(e) => final(self)@ == old(self)@ && r == Err::<WirePacket, SessionError>(
                        SessionError::Codec(CodecError::Crypto(e)),
                    ),
                    Ok(ct) => if ct@.len() == INNER_PLAINTEXT_LEN + AEAD_TAG_LEN {
                        &&& final(self)@ == old(self)@.sent()
                        &&& r matches Ok(p) && p@ == request.aad@ + ct@
                    } else {
                        final(self)@ == old(self)@ && r == Err::<WirePacket, SessionError>(
                            SessionError::Codec(
                                CodecError::Truncated {
                                    field: "aead_region",
                                    min: 1263,
                                    got: ct@.len() as usize,
                                },
                            ),
                        )
                    },
                },
            },
    {
        match self.require_established() {
            Ok(_) => {},
            Err(e) => return Err(e),
        }
        match self.cipher.encrypt(request, sealed) {
            Ok(pkt) => {
                self.metrics.packets_sent = self.metrics.packets_sent.wrapping_add(1);
                self.metrics.bytes_sent = self.metrics.bytes_sent.wrapping_add(PACKET_SIZE as u64);
                Ok(pkt)
            },
            Err(e) => Err(SessionError::Codec(e)),
        }
    }

    /// A random payload for a cover packet, to be sealed as `Cover`.
    pub fn cover_payload(&self) -> (r: Result<[u8; PAYLOAD_LEN], SessionError>)
        ensures
            self@.blocked() matches Some(e) ==> r == Err::<[u8; PAYLOAD_LEN], SessionError>(e),
            self@.blocked() is None ==> (r matches Err(e) ==> (e matches SessionError::Crypto(c)
                && random_failure(c))),
    {
        match self.require_established() {
            Ok(_) => {},
            Err(e) => return Err(e),
        }
        match random_array::<PAYLOAD_LEN>() {
            Ok(fill) => Ok(fill),
            Err(e) => Err(SessionError::Crypto(e)),
        }
    }

    /// What the AEAD has to seal for a cover packet with a random payload.
    pub fn cover(&mut self) -> (r: Result<SealRequest, SessionError>)
        ensures
            match old(self)@.blocked() {
                Some(e) => final(self)@ == old(self)@ && r == Err::<SealRequest, SessionError>(e),
                None => match r {
                    Ok(q) => {
                        &&& final(self)@ == old(self)@
                        &&& old(self)@.cipher.current(q)
                        &&& exists|fill: Seq<u8>|
                            fill.len() == PAYLOAD_LEN && #[trigger] old(self)@.cipher.seals(
                                MessageType::Cover,
                                fill,
                                q,
                            )
                    },
                    Err(SessionError::RekeyRequired) => {
                        &&& old(self)@.cipher.send_counter >= crate::codec::MAX_PACKET_NONCE
                        &&& final(self)@ == old(self)@.moved(ProtocolState::Rekey)
                    },
                    Err(e) => final(self)@ == old(self)@ && (e matches SessionError::Crypto(c)
                        && random_failure(c)),
                },
            },
    {
        let fill = match self.cover_payload() {
            Ok(f) => f,
            Err(e) => return Err(e),
        };
        self.seal_request(MessageType::Cover, &fill)
    }

    /// What the AEAD has to open for a received packet.
    pub fn open_request(&self, packet: &WirePacket) -> (r: Result<OpenRequest, SessionError>)
        ensures
            match self@.blocked() {
                Some(e) => r == Err::<OpenRequest, SessionError>(e),
                None => match r {
                    Ok(q) => packet@[0] == PROTOCOL_VERSION && self@.cipher.opens(packet@, q),
                    Err(e) => packet@[0] != PROTOCOL_VERSION && e == SessionError::Codec(
                        CodecError::DecryptionFailed,
                    ),
                },
            },
    {
        match self.require_established() {
            Ok(_) => {},
            Err(e) => return Err(e),
        }
        match self.cipher.open_request(packet) {
            Ok(q) => Ok(q),
            Err(e) => Err(SessionError::Codec(e)),
        }
    }

    /// Validates a received packet, given what its opening gave. Only accepted
    /// packets are counted. At the end of the counter the session moves to
    /// `Rekey`.
    pub fn decrypt(&mut self, packet: &WirePacket, opened: Option<Vec<u8>>) -> (r: Result<
        InnerPlaintext,
        SessionError,
    >)
        ensures
            ({
                let pt = match opened {
                    Some(v) => Some(v@),
                    None => None,
                };
                let out = old(self)@.decrypted(packet@, pt);
                &&& final(self)@ == out.0
                &&& match r {
                    Ok(inner) => out.1 == Ok::<Seq<u8>, SessionError>(inner.encoding()),
                    Err(e) => out.1 == Err::<Seq<u8>, SessionError>(e),
                }
            }),
    {
        match self.require_established() {
            Ok(_) => {},
            Err(e) => return Err(e),
        }
        match self.cipher.decrypt(packet, opened) {
            Ok(inner) => {
                self.metrics.packets_received = self.metrics.packets_received.wrapping_add(1);
                self.metrics.bytes_received = self.metrics.bytes_received.wrapping_add(
                    PACKET_SIZE as u64,
                );
                Ok(inner)
            },
            Err(CodecError::NonceExhausted { counter: _ }) => {
                self.state = ProtocolState::Rekey;
                Err(SessionError::RekeyRequired)
            },
            Err(e) => Err(SessionError::Codec(e)),
        }
    }
}

/// A packet that is sent, and one that is accepted, is counted once, with its 1280
/// bytes, on its own side; the other side and everything else stay as they are.
pub proof fn packets_are_counted_once(m: SessionMetrics)
    requires
        m.packets_sent < u64::MAX,
        m.packets_received < u64::MAX,
        m.bytes_sent + 1280 <= u64::MAX,
        m.bytes_received + 1280 <= u64::MAX,
    ensures
        counted_out(m).packets_sent == m.packets_sent + 1,
        counted_out(m).bytes_sent == m.bytes_sent + 1280,
        counted_out(m).packets_received == m.packets_received,
        counted_out(m).bytes_received == m.bytes_received,
        counted_in(m).packets_received == m.packets_received + 1,
        counted_in(m).bytes_received == m.bytes_received + 1280,
        counted_in(m).packets_sent == m.packets_sent,
        counted_in(m).bytes_sent == m.bytes_sent,
        counted_out(m).created_at == m.created_at,
        counted_in(m).created_at == m.created_at,
        counted_out(m).handshake_duration_ms == m.handshake_duration_ms,
        counted_in(m).handshake_duration_ms == m.handshake_duration_ms,
{
}

/// A new session is in its state, has sent and received nothing, and seals with
/// the first counter.
pub proof fn new_session_is_empty(
    role: Role,
    keys: TrafficKeys,
    sid: [u8; SESSION_ID_LEN],
    state: ProtocolState,
    now: Instant,
)
    ensures
        ({
            let s = SessionView::created(role, keys, sid, state, now);
            &&& s.role == role && s.cipher.role == role
            &&& s.session_id == sid && s.cipher.session_id == sid
            &&& s.state == state
            &&& s.cipher.keys == keys
            &&& s.cipher.send_counter == 0
            &&& s.cipher.window.highest is None
            &&& s.metrics.packets_sent == 0 && s.metrics.bytes_sent == 0
            &&& s.metrics.packets_received == 0 && s.metrics.bytes_received == 0
            &&& s.metrics.created_at == Some(now) && s.metrics.handshake_duration_ms is None
        }),
{
}

/// An established session hands on what its envelope decides: an accepted packet
/// is delivered and counted, a rejected one gives the error of the envelope, and
/// the end of the counter asks for fresh keys.
pub proof fn established_session_delivers(s: SessionView, dg: Seq<u8>, opened: Option<Seq<u8>>)
    requires
        s.state == ProtocolState::Established,
    ensures
        ({
            let inner = s.cipher.decrypted(dg, opened);
            let out = s.decrypted(dg, opened);
            &&& out.0.cipher == inner.0
            &&& out.0.role == s.role && out.0.session_id == s.session_id
            &&& match inner.1 {
                Ok(pt) => out.1 == Ok::<Seq<u8>, SessionError>(pt) && out.0.metrics == counted_in(
                    s.metrics,
                ) && out.0.state == ProtocolState::Established,
                Err(e) => if e is NonceExhausted {
                    out.1 == Err::<Seq<u8>, SessionError>(SessionError::RekeyRequired)
                        && out.0.state == ProtocolState::Rekey
                } else {
                    out.1 == Err::<Seq<u8>, SessionError>(SessionError::Codec(e)) && out.0.state
                        == ProtocolState::Established
                },
            }
        }),
{
}

/// An established session seals every full slot while its counter lasts. At the
/// end of the counter it asks for fresh keys; a slot of another length is an
/// error and changes nothing.
pub proof fn established_session_seals(s: SessionView, payload: Seq<u8>)
    requires
        s.state == ProtocolState::Established,
        payload.len() <= usize::MAX,
    ensures
        ({
            let out = s.sealing(payload);
            &&& payload.len() == 1245 && s.cipher.send_counter < MAX_PACKET_NONCE ==> out == (
                s,
                None::<SessionError>,
            )
            &&& payload.len() == 1245 && s.cipher.send_counter >= MAX_PACKET_NONCE ==> out.1
                == Some(SessionError::RekeyRequired) && out.0.state == ProtocolState::Rekey
                && out.0.cipher == s.cipher && out.0.metrics == s.metrics
            &&& payload.len() != 1245 ==> out.0 == s && (out.1 matches Some(SessionError::Codec(c))
                && c is WrongLength)
        }),
{
}

/// A packet that was sent advances the counter by one and is counted; the session
/// is otherwise the same.
pub proof fn sent_packet_advances_the_session(s: SessionView)
    requires
        s.cipher.send_counter < MAX_PACKET_NONCE,
    ensures
        s.sent().cipher.send_counter == s.cipher.send_counter + 1,
        s.sent().cipher.window == s.cipher.window,
        s.sent().cipher.keys == s.cipher.keys,
        s.sent().metrics == counted_out(s.metrics),
        s.sent().state == s.state,
        s.sent().role == s.role,
        s.sent().session_id == s.session_id,
{
}

/// Moving to another state changes nothing but the state.
pub proof fn moving_changes_the_state_only(s: SessionView, state: ProtocolState)
    ensures
        s.moved(state).state == state,
        s.moved(state).cipher == s.cipher,
        s.moved(state).metrics == s.metrics,
        s.moved(state).role == s.role,
        s.moved(state).session_id == s.session_id,
{
}

/// Outside `Established` sending and receiving give the same error, which names the
/// state, and leave the session as it is.
pub proof fn wrong_state_is_named(
    s: SessionView,
    payload: Seq<u8>,
    dg: Seq<u8>,
    opened: Option<Seq<u8>>,
)
    requires
        s.state != ProtocolState::Established,
    ensures
        ({
            let e = SessionError::WrongState {
                required: ProtocolState::Established,
                actual: s.state,
            };
            &&& s.sealing(payload) == (s, Some(e))
            &&& s.decrypted(dg, opened) == (s, Err::<Seq<u8>, SessionError>(e))
            &&& s.blocked() == Some(e)
        }),
{
}

} // verus!
