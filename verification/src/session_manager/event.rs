//! Limits, events and errors of the session managers.
use crate::bytes::zeros;
use crate::codec::{
    inner_layout, InnerPlaintext, MessageType, PacketHeader, WirePacket, MAX_PACKET_NONCE, PAYLOAD_LEN,
    PROTOCOL_VERSION, SESSION_ID_LEN,
};
use crate::envelope::{sealing_protects_the_payload, CipherView, OpenRequest, SealRequest};
use crate::handshake_v2::fragment::datagrams;
use crate::handshake_v2::outcome::HandshakeV2Error;
use crate::handshake_v2::retransmit::{backoff_nanos, jitter_is_bounded, jittered_nanos};
use crate::net::PeerAddr;
use crate::rate::BucketLimits;
use crate::time::Duration;
use crate::wire_session::SessionError;
use vstd::prelude::*;

verus! {

/// Resource and lifetime limits of a manager.
#[derive(Debug, Clone, Copy, PartialEq, Eq)]
pub struct SessionLimits {
    /// Server: most established sessions. At capacity the least recently
    /// active one is evicted.
    pub max_sessions: usize,
    /// Server: a session whose last authenticated receive is older is evicted.
    pub idle_timeout: Option<Duration>,
    /// Both roles: longest lifetime of a session.
    pub lifetime_cap: Option<Duration>,
    /// Client: a session that receives no authenticated packet within this
    /// time of its establishment is closed.
    pub liveness_timeout: Option<Duration>,
    /// Client: overall deadline of a handshake.
    pub handshake_timeout: Option<Duration>,
    /// Server: most decrypt failures of a source per window.
    pub fail_burst: u32,
    /// Server: window of the failure gate.
    pub fail_window: Duration,
    /// Server: most buckets of the failure gate.
    pub max_fail_buckets: usize,
}

impl SessionLimits {
    /// Parameters of the failure gate.
    pub open spec fn gate(self) -> BucketLimits {
        BucketLimits {
            burst: self.fail_burst,
            window: self.fail_window,
            cap: self.max_fail_buckets,
        }
    }
}

impl Default for SessionLimits {
    fn default() -> (r: Self)
        ensures
            r.max_sessions == 64,
            r.idle_timeout matches Some(d) && d.nanos() == 300_000_000_000,
            r.lifetime_cap is None,
            r.liveness_timeout matches Some(d) && d.nanos() == 30_000_000_000,
            r.handshake_timeout matches Some(d) && d.nanos() == 30_000_000_000,
            r.fail_burst == 64,
            r.fail_window.nanos() == 10_000_000_000,
            r.max_fail_buckets == 4096,
    {
        SessionLimits {
            max_sessions: 64,
            idle_timeout: Some(Duration::from_secs(300)),
            lifetime_cap: None,
            liveness_timeout: Some(Duration::from_secs(30)),
            handshake_timeout: Some(Duration::from_secs(30)),
            fail_burst: 64,
            fail_window: Duration::from_secs(10),
            max_fail_buckets: 4096,
        }
    }
}

/// Nanoseconds that a client spends in its confirmation stage: the first delay
/// and one backoff per retransmission, for the given draws.
pub open spec fn confirmation_nanos(base: nat, first: u64, draws: Seq<u64>) -> nat
    decreases draws.len(),
{
    if draws.len() == 0 {
        jittered_nanos(base, first)
    } else {
        confirmation_nanos(base, first, draws.drop_last()) + backoff_nanos(
            base,
            draws.len() as u32,
            draws.last(),
        )
    }
}

/// With the default parameters (250 ms base, 6 retransmissions, 30 s deadline)
/// a client always leaves its confirmation stage before the handshake deadline,
/// whatever the jitter.
pub proof fn default_confirmation_fits_deadline(first: u64, draws: Seq<u64>)
    requires
        draws.len() == 6,
    ensures
        confirmation_nanos(250_000_000, first, draws) < 30_000_000_000,
{
    let base: nat = 250_000_000;
    jitter_is_bounded(base, first);
    let d5 = draws.drop_last();
    let d4 = d5.drop_last();
    let d3 = d4.drop_last();
    let d2 = d3.drop_last();
    let d1 = d2.drop_last();
    let d0 = d1.drop_last();
    reveal_with_fuel(confirmation_nanos, 8);
    jitter_is_bounded(base * 2, d1.last());
    jitter_is_bounded(base * 4, d2.last());
    jitter_is_bounded(base * 8, d3.last());
    jitter_is_bounded(base * 16, d4.last());
    jitter_is_bounded(base * 32, d5.last());
    jitter_is_bounded(base * 32, draws.last());
}

/// Why a session was closed.
#[derive(Debug, Clone, Copy, PartialEq, Eq, Structural)]
pub enum CloseReason {
    /// Server: nothing authenticated arrived within the idle timeout.
    IdleTimeout,
    /// The session reached its longest lifetime.
    LifetimeCap,
    /// The counter is used up.
    NonceExhausted,
    /// Client: nothing authenticated arrived within the liveness timeout.
    NotConfirmed,
    /// Client: the handshake failed.
    HandshakeTimeout,
    /// Server: evicted to make room.
    Capacity,
    /// The peer sent a close message.
    PeerClosed,
    /// The application closed the session.
    UserClosed,
}

/// One output of a manager.
pub enum ManagerEvent {
    /// Handshake datagrams to send.
    Send { packets: Vec<WirePacket>, peer: PeerAddr },
    /// One data, cover or close packet to send.
    SendPacket { packet: WirePacket, peer: PeerAddr },
    /// Server: a session was created.
    Established { sid: [u8; SESSION_ID_LEN], peer: PeerAddr },
    /// Application data.
    AppData { sid: [u8; SESSION_ID_LEN], inner: InnerPlaintext },
    /// A session was closed and removed.
    Closed { sid: [u8; SESSION_ID_LEN], reason: CloseReason },
    /// Nothing to do.
    Nothing,
}

/// What an event says.
pub enum EventView {
    Send(Seq<Seq<u8>>, PeerAddr),
    SendPacket(Seq<u8>, PeerAddr),
    Established([u8; SESSION_ID_LEN], PeerAddr),
    AppData([u8; SESSION_ID_LEN], Seq<u8>),
    Closed([u8; SESSION_ID_LEN], CloseReason),
    Nothing,
}

impl View for ManagerEvent {
    type V = EventView;

    open spec fn view(&self) -> EventView {
        match *self {
            ManagerEvent::Send { packets, peer } => EventView::Send(datagrams(packets@), peer),
            ManagerEvent::SendPacket { packet, peer } => EventView::SendPacket(packet@, peer),
            ManagerEvent::Established { sid, peer } => EventView::Established(sid, peer),
            ManagerEvent::AppData { sid, inner } => EventView::AppData(sid, inner.encoding()),
            ManagerEvent::Closed { sid, reason } => EventView::Closed(sid, reason),
            ManagerEvent::Nothing => EventView::Nothing,
        }
    }
}

/// A closure that is still to be reported.
pub type Closure = ([u8; SESSION_ID_LEN], CloseReason);

/// The events that report closures.
pub open spec fn reports(events: Seq<ManagerEvent>, closures: Seq<Closure>) -> bool {
    &&& events.len() == closures.len()
    &&& forall|i: int|
        0 <= i < events.len() ==> #[trigger] events[i]@ == EventView::Closed(
            closures[i].0,
            closures[i].1,
        )
}

/// What a driver tells the application.
pub enum ManagerNotification {
    /// Server: a session was established.
    Established { sid: [u8; SESSION_ID_LEN], peer: PeerAddr },
    /// Client: the session is confirmed live.
    Ready { sid: [u8; SESSION_ID_LEN] },
    /// Application data.
    Data { sid: [u8; SESSION_ID_LEN], inner: InnerPlaintext },
    /// A session closed.
    Closed { sid: [u8; SESSION_ID_LEN], reason: CloseReason },
}

/// What a server application wants to send.
#[derive(Debug, Clone)]
pub struct ServerAppCommand {
    pub sid: [u8; SESSION_ID_LEN],
    pub payload: Vec<u8>,
}

/// Local failures of a manager.
#[derive(Debug, Clone, PartialEq, Eq)]
pub enum ManagerError {
    /// The handshake machine failed.
    Handshake(HandshakeV2Error),
    /// The session failed.
    Session(SessionError),
    /// There is no such session.
    NoSession,
    /// An operation was invoked in a state that does not permit it.
    InvalidState(&'static str),
    /// Invalid configuration.
    InvalidConfig(String),
    /// The application channel closed.
    AppClosed,
}

/// A packet that is being sealed for a session.
pub struct SealTicket {
    sid: [u8; SESSION_ID_LEN],
    request: SealRequest,
    closing: bool,
}

/// A received packet that is being opened.
pub struct OpenTicket {
    pkt: WirePacket,
    from: PeerAddr,
    request: OpenRequest,
}

/// What an attempt to send leads to.
pub enum SealStep {
    Event(ManagerEvent),
    Seal(SealTicket),
}

impl SealTicket {
    #[verifier::type_invariant]
    spec fn consistent(self) -> bool {
        &&& self.request.counter < MAX_PACKET_NONCE
        &&& self.request.aad@ == (PacketHeader {
            version: PROTOCOL_VERSION,
            session_id: self.sid,
            packet_nonce: self.request.counter,
        }).encoding()
    }

    /// The session that sends.
    pub closed spec fn session(&self) -> [u8; SESSION_ID_LEN] {
        self.sid
    }

    /// The inputs of the sealing.
    pub closed spec fn seal(&self) -> SealRequest {
        self.request
    }

    /// The session is closed once the packet is sealed.
    pub closed spec fn closes(&self) -> bool {
        self.closing
    }

    pub(crate) fn make(sid: [u8; SESSION_ID_LEN], request: SealRequest, closing: bool) -> (r: Self)
        requires
            request.counter < MAX_PACKET_NONCE,
            request.aad@ == (PacketHeader {
                version: PROTOCOL_VERSION,
                session_id: sid,
                packet_nonce: request.counter,
            }).encoding(),
        ensures
            r.session() == sid,
            r.seal() == request,
            r.closes() == closing,
    {
        SealTicket { sid, request, closing }
    }

    pub(crate) fn take(self) -> (r: ([u8; SESSION_ID_LEN], SealRequest, bool))
        ensures
            r.0 == self.session(),
            r.1 == self.seal(),
            r.2 == self.closes(),
            r.1.counter < MAX_PACKET_NONCE,
            r.1.aad@ == (PacketHeader {
                version: PROTOCOL_VERSION,
                session_id: r.0,
                packet_nonce: r.1.counter,
            }).encoding(),
    {
        proof {
            use_type_invariant(&self);
        }
        (self.sid, self.request, self.closing)
    }

    /// The session that sends.
    pub fn session_id(&self) -> (r: &[u8; SESSION_ID_LEN])
        ensures
            *r == self.session(),
    {
        &self.sid
    }

    /// The inputs of the sealing.
    pub fn request(&self) -> (r: &SealRequest)
        ensures
            *r == self.seal(),
    {
        &self.request
    }
}

impl OpenTicket {
    pub closed spec fn packet(&self) -> Seq<u8> {
        self.pkt@
    }

    pub closed spec fn source(&self) -> PeerAddr {
        self.from
    }

    /// The inputs of the opening.
    pub closed spec fn open(&self) -> OpenRequest {
        self.request
    }

    pub(crate) fn make(pkt: WirePacket, from: PeerAddr, request: OpenRequest) -> (r: Self)
        ensures
            r.packet() == pkt@,
            r.source() == from,
            r.open() == request,
    {
        OpenTicket { pkt, from, request }
    }

    pub(crate) fn wire(&self) -> (r: &WirePacket)
        ensures
            r@ == self.packet(),
    {
        &self.pkt
    }

    pub(crate) fn from(&self) -> (r: PeerAddr)
        ensures
            r == self.source(),
    {
        self.from
    }

    /// The inputs of the opening.
    pub fn request(&self) -> (r: &OpenRequest)
        ensures
            *r == self.open(),
    {
        &self.request
    }
}

/// A payload padded with zeros to the fixed slot.
pub open spec fn padded(payload: Seq<u8>) -> Seq<u8> {
    payload + zeros((crate::codec::PAYLOAD_LEN - payload.len()) as nat)
}

/// A payload that fits is carried whole, at the beginning of its slot, and
/// followed by nothing but zeros.
pub proof fn payload_is_carried_whole(payload: Seq<u8>)
    requires
        payload.len() <= PAYLOAD_LEN,
    ensures
        padded(payload).len() == PAYLOAD_LEN,
        padded(payload).subrange(0, payload.len() as int) == payload,
        forall|i: int|
            payload.len() <= i < PAYLOAD_LEN ==> #[trigger] padded(payload)[i] == 0u8,
{
    assert(padded(payload).subrange(0, payload.len() as int) =~= payload);
}

/// Padding loses nothing but the length: payloads of one length that are padded to
/// the same slot are the same payload.
pub proof fn padding_is_injective(a: Seq<u8>, b: Seq<u8>)
    requires
        a.len() == b.len() <= PAYLOAD_LEN,
        padded(a) == padded(b),
    ensures
        a == b,
{
    payload_is_carried_whole(a);
    payload_is_carried_whole(b);
}

/// The failure gate has the configured budget, window and capacity.
pub proof fn gate_is_configured(l: SessionLimits)
    ensures
        l.gate().burst == l.fail_burst,
        l.gate().window == l.fail_window,
        l.gate().cap == l.max_fail_buckets,
{
}

/// Events report closures one by one, in order.
pub proof fn closures_are_reported_in_order(
    events: Seq<ManagerEvent>,
    closures: Seq<Closure>,
    i: int,
)
    requires
        reports(events, closures),
        0 <= i < closures.len(),
    ensures
        events.len() == closures.len(),
        events[i] matches ManagerEvent::Closed { sid, reason } && sid == closures[i].0 && reason
            == closures[i].1,
{
    assert(events[i]@ == EventView::Closed(closures[i].0, closures[i].1));
}

/// Application data is sealed whole: behind the type and the direction the
/// plaintext holds the payload, byte for byte, and then zeros.
pub proof fn application_data_is_sealed_whole(s: CipherView, payload: Seq<u8>, q: SealRequest)
    requires
        payload.len() <= PAYLOAD_LEN,
        s.seals(MessageType::Data, padded(payload), q),
    ensures
        q.plaintext@[0] == 1,
        q.plaintext@.subrange(2, 2 + payload.len() as int) == payload,
        forall|i: int| 2 + payload.len() <= i < 1247 ==> #[trigger] q.plaintext@[i] == 0u8,
{
    payload_is_carried_whole(payload);
    sealing_protects_the_payload(s, MessageType::Data, padded(payload), q);
    let slot = q.plaintext@.subrange(2, 1247);
    assert(q.plaintext@.subrange(2, 2 + payload.len() as int) =~= slot.subrange(
        0,
        payload.len() as int,
    ));
    assert forall|i: int| 2 + payload.len() <= i < 1247 implies #[trigger] q.plaintext@[i]
        == 0u8 by {
        assert(slot[i - 2] == padded(payload)[i - 2]);
    }
}

/// What is seen of an event is what it says, with all of its packets and bytes.
pub proof fn events_say_what_they_hold(e: ManagerEvent)
    ensures
        e matches ManagerEvent::Send { packets, peer } ==> e@ == EventView::Send(
            Seq::new(packets@.len(), |i: int| packets@[i].bytes@),
            peer,
        ),
        e matches ManagerEvent::SendPacket { packet, peer } ==> e@ == EventView::SendPacket(
            packet.bytes@,
            peer,
        ),
        e matches ManagerEvent::Established { sid, peer } ==> e@ == EventView::Established(
            sid,
            peer,
        ),
        e matches ManagerEvent::AppData { sid, inner } ==> (e@ matches EventView::AppData(s, pt)
            && s == sid && pt[0] == inner.msg_type.code() && pt.subrange(2, 1247)
            == inner.payload@),
        e matches ManagerEvent::Closed { sid, reason } ==> e@ == EventView::Closed(sid, reason),
        e is Nothing ==> e@ is Nothing,
{
    if let ManagerEvent::AppData { sid, inner } = e {
        inner_layout(inner);
    }
    if let ManagerEvent::Send { packets, peer } = e {
        assert(datagrams(packets@) =~= Seq::new(packets@.len(), |i: int| packets@[i].bytes@));
    }
}

} // verus!
