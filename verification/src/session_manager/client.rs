//! Client-side session manager.
//!
//! One handshake or one session at a time. The caller starts a handshake at
//! the beginning and after every closure. A session is `ready` once the first
//! packet of the server has authenticated.
use crate::bytes::{arrays_eq, write_at};
use crate::codec::{
    MessageType, WirePacket, AEAD_TAG_LEN, INNER_PLAINTEXT_LEN, MAX_PACKET_NONCE, PAYLOAD_LEN,
    PROTOCOL_VERSION, SESSION_ID_LEN,
};
use crate::crypto::{random_failure, random_u64_or_zero};
use crate::envelope::{Role, TrafficKeys};
use crate::error::{CodecError, CryptoError};
use crate::handshake_v2::client::{
    ClientConfig, ClientEvent, ClientExchange, ClientHandshake, ClientKeys, ClientStage,
    ClientStep, ClientView, M2Exchange, M2Verify,
};
use crate::handshake_v2::fragment::duplicate_packets;
use crate::handshake_v2::outcome::{random_sid, HandshakeOutcome, HandshakeV2Error};
use crate::handshake_v2::transcript::th2;
use crate::keys::{MlDsaSignature, MlKemSecretKey};
use crate::net::PeerAddr;
use crate::session_manager::event::{
    padded, reports, CloseReason, Closure, EventView, ManagerError, ManagerEvent, OpenTicket,
    SealStep, SealTicket, SessionLimits,
};
use crate::state::ProtocolState;
use crate::text::{unsupported_version, unsupported_version_text};
use crate::time::{at_least, elapsed, Duration, Instant};
use crate::wire_session::{SessionError, SessionView, WireSession};
use vstd::prelude::*;

verus! {

/// Lifecycle of a client manager.
#[derive(Debug, Clone, Copy, PartialEq, Eq, Structural)]
pub enum ClientManagerState {
    /// Neither a handshake nor a session.
    Idle,
    /// A handshake is running.
    Handshaking,
    /// There is a session.
    Established,
}

/// What handling a datagram leads to.
pub enum ClientManagerStep {
    Event(ManagerEvent),
    Verify(M2Verify),
    Open(OpenTicket),
}

/// What the retransmission timer leads to.
pub enum TimerStep {
    Event(ManagerEvent),
    /// The handshake is complete: derive the traffic keys of this outcome, then
    /// hand both to [`ClientSessionManager::establish`].
    Establish(HandshakeOutcome),
}

/// Client-side session manager.
pub struct ClientSessionManager {
    cfg: ClientConfig,
    limits: SessionLimits,
    hs: Option<ClientHandshake>,
    session: Option<WireSession>,
    ready: bool,
    peer: PeerAddr,
    hs_started: Option<Instant>,
    established_at: Option<Instant>,
    pending_closed: Vec<Closure>,
}

/// What a client manager holds.
pub struct ClientManagerView {
    pub cfg: ClientConfig,
    pub limits: SessionLimits,
    pub hs: Option<ClientView>,
    pub session: Option<SessionView>,
    /// An authenticated packet of the server has arrived.
    pub ready: bool,
    /// Where packets are sent.
    pub peer: PeerAddr,
    pub hs_started: Option<Instant>,
    pub established_at: Option<Instant>,
    /// Closures that the next tick reports.
    pub closed: Seq<Closure>,
}

impl View for ClientSessionManager {
    type V = ClientManagerView;

    closed spec fn view(&self) -> ClientManagerView {
        ClientManagerView {
            cfg: self.cfg,
            limits: self.limits,
            hs: match self.hs {
                Some(h) => Some(h@),
                None => None,
            },
            session: match self.session {
                Some(s) => Some(s@),
                None => None,
            },
            ready: self.ready,
            peer: self.peer,
            hs_started: self.hs_started,
            established_at: self.established_at,
            closed: self.pending_closed@,
        }
    }
}

/// A time limit that has been reached.
pub open spec fn reached(limit: Option<Duration>, now: Instant, since: Option<Instant>) -> bool {
    limit matches Some(d) && (since matches Some(s) && elapsed(now, s) >= d.nanos())
}

impl ClientManagerView {
    /// At most one of handshake and session exists, the session is active, and
    /// only a session can be ready.
    pub open spec fn consistent(self) -> bool {
        &&& self.cfg.version == PROTOCOL_VERSION
        &&& self.hs matches Some(h) ==> h.wf() && self.session is None
        &&& self.session matches Some(s) ==> s.state == ProtocolState::Established
            && s.cipher.session_id == s.session_id
        &&& self.ready ==> self.session is Some
        &&& self.hs is Some ==> self.hs_started is Some
        &&& self.session is Some ==> self.established_at is Some
    }

    pub open spec fn state(self) -> ClientManagerState {
        if self.session is Some {
            ClientManagerState::Established
        } else if self.hs is Some {
            ClientManagerState::Handshaking
        } else {
            ClientManagerState::Idle
        }
    }

    /// A handshake was started.
    pub open spec fn handshaking(self, hs: ClientView, now: Instant) -> Self {
        ClientManagerView {
            hs: Some(hs),
            hs_started: Some(now),
            ready: false,
            peer: self.cfg.server_addr,
            ..self
        }
    }

    pub open spec fn with_hs(self, hs: ClientView) -> Self {
        ClientManagerView { hs: Some(hs), ..self }
    }

    /// The handshake was given up.
    pub open spec fn without_hs(self) -> Self {
        ClientManagerView { hs: None, hs_started: None, ..self }
    }

    pub open spec fn with_session(self, s: SessionView) -> Self {
        ClientManagerView { session: Some(s), ..self }
    }

    /// The session was dropped.
    pub open spec fn without_session(self) -> Self {
        ClientManagerView { session: None, ready: false, ..self }
    }

    /// A session replaces the handshake. It is not ready yet.
    pub open spec fn established(
        self,
        sid: [u8; SESSION_ID_LEN],
        keys: TrafficKeys,
        now: Instant,
    ) -> Self {
        ClientManagerView {
            hs: None,
            hs_started: None,
            session: Some(
                SessionView::created(Role::Client, keys, sid, ProtocolState::Established, now),
            ),
            ready: false,
            established_at: Some(now),
            ..self
        }
    }

    /// The counter of the session is used up.
    pub open spec fn used_up(self) -> bool {
        self.session matches Some(s) && s.cipher.send_counter >= MAX_PACKET_NONCE
    }

    /// What an opened packet leads to. An accepted data or cover packet
    /// confirms the session and rebinds its peer.
    pub open spec fn on_opened(self, dg: Seq<u8>, opened: Option<Seq<u8>>, from: PeerAddr) -> (
        ClientManagerView,
        EventView,
    ) {
        match self.session {
            None => (self, EventView::Nothing),
            Some(session) => {
                let sid = session.session_id;
                let out = session.decrypted(dg, opened);
                let confirmed = ClientManagerView {
                    session: Some(out.0),
                    ready: true,
                    peer: from,
                    ..self
                };
                match out.1 {
                    Ok(pt) => if pt[0] == MessageType::Data.code() {
                        (confirmed, EventView::AppData(sid, pt))
                    } else if pt[0] == MessageType::Cover.code() {
                        (confirmed, EventView::Nothing)
                    } else if pt[0] == MessageType::Close.code() {
                        (self.without_session(), EventView::Closed(sid, CloseReason::PeerClosed))
                    } else {
                        (self.with_session(out.0), EventView::Nothing)
                    },
                    Err(SessionError::RekeyRequired) => (
                        self.without_session(),
                        EventView::Closed(sid, CloseReason::NonceExhausted),
                    ),
                    Err(_) => (self.with_session(out.0), EventView::Nothing),
                }
            },
        }
    }

    /// The handshake has run for too long.
    pub open spec fn overdue(self, now: Instant) -> bool {
        self.hs is Some && reached(self.limits.handshake_timeout, now, self.hs_started)
    }

    /// Why a tick ends the session, if it does.
    pub open spec fn ends(self, now: Instant) -> Option<CloseReason> {
        if self.session is None {
            None
        } else if !self.ready && reached(self.limits.liveness_timeout, now, self.established_at) {
            Some(CloseReason::NotConfirmed)
        } else if reached(self.limits.lifetime_cap, now, self.established_at) {
            Some(CloseReason::LifetimeCap)
        } else {
            None
        }
    }

    /// What a tick reports: its own closures, then those that were waiting.
    pub open spec fn closures(self, now: Instant) -> Seq<Closure> {
        let own: Seq<Closure> = if self.overdue(now) {
            seq![(self.hs->Some_0.sid, CloseReason::HandshakeTimeout)]
        } else {
            Seq::empty()
        };
        let ended: Seq<Closure> = match self.ends(now) {
            Some(reason) => seq![(self.session->Some_0.session_id, reason)],
            None => Seq::empty(),
        };
        own + ended + self.closed
    }

    /// The manager after a tick.
    pub open spec fn ticked(self, now: Instant) -> Self {
        let a = if self.overdue(now) {
            self.without_hs()
        } else {
            self
        };
        let b = if self.ends(now) is Some {
            a.without_session()
        } else {
            a
        };
        ClientManagerView { closed: Seq::empty(), ..b }
    }
}

/// At most one of handshake and session exists, and only an established
/// session can be ready: every operation keeps this.
pub proof fn client_stays_consistent(
    s: ClientManagerView,
    hs: ClientView,
    sid: [u8; SESSION_ID_LEN],
    keys: TrafficKeys,
    dg: Seq<u8>,
    opened: Option<Seq<u8>>,
    from: PeerAddr,
    now: Instant,
)
    requires
        s.consistent(),
        hs.wf(),
    ensures
        s.state() is Idle ==> s.handshaking(hs, now).consistent(),
        s.state() is Handshaking ==> s.with_hs(hs).consistent(),
        s.without_hs().consistent(),
        s.without_session().consistent(),
        s.established(sid, keys, now).consistent(),
        s.on_opened(dg, opened, from).0.consistent(),
        s.ticked(now).consistent(),
{
    if s.session is Some {
        crate::envelope::receive_errors_are_uniform(s.session->Some_0.cipher, dg, opened);
    }
}

/// Only a key-holder confirms or moves a session: a packet that does not open
/// authentically neither makes the session ready nor changes where packets are
/// sent, and nothing of it reaches the application.
pub proof fn forged_packet_confirms_nothing(s: ClientManagerView, dg: Seq<u8>, from: PeerAddr)
    requires
        s.consistent(),
    ensures
        s.on_opened(dg, None, from) == (s, EventView::Nothing),
{
}

/// A session that is never confirmed does not outlive the liveness timeout.
pub proof fn unconfirmed_session_is_closed(s: ClientManagerView, now: Instant)
    requires
        s.consistent(),
        s.session is Some,
        !s.ready,
        reached(s.limits.liveness_timeout, now, s.established_at),
    ensures
        s.ticked(now).session is None,
        s.closures(now)[0] == (s.session->Some_0.session_id, CloseReason::NotConfirmed),
{
}

/// A confirmed session that falls quiet is kept: without a lifetime cap no
/// tick ends it.
pub proof fn confirmed_session_is_kept(s: ClientManagerView, now: Instant)
    requires
        s.consistent(),
        s.ready,
        s.limits.lifetime_cap is None,
    ensures
        s.ticked(now).session == s.session,
        s.ticked(now).ready,
{
}

/// Every closure is reported once: a tick reports all that waited, at the end
/// and in order, and nothing waits after it. What the next tick adds concerns
/// the handshake or the session that is still there.
pub proof fn closures_are_reported_once(s: ClientManagerView, now: Instant, later: Instant)
    requires
        s.consistent(),
    ensures
        s.closures(now).len() <= s.closed.len() + 1,
        s.closures(now).len() >= s.closed.len(),
        s.closures(now).subrange(
            s.closures(now).len() - s.closed.len(),
            s.closures(now).len() as int,
        ) == s.closed,
        s.ticked(now).closed.len() == 0,
        s.closures(now).len() > s.closed.len() ==> s.ticked(now).state() is Idle,
        s.ticked(now).state() is Idle ==> s.ticked(now).closures(later).len() == 0,
{
    let c = s.closures(now);
    assert(c.subrange(c.len() - s.closed.len(), c.len() as int) =~= s.closed);
}

/// What a consistent manager holds is consistent.
pub proof fn client_manager_is_consistent(m: ClientSessionManager)
    requires
        m.wf(),
    ensures
        m@.consistent(),
{
}

impl ClientSessionManager {
    /// Internal consistency.
    pub closed spec fn wf(self) -> bool {
        &&& self@.consistent()
        &&& self.hs matches Some(h) ==> h.wf()
    }

    /// Creates a manager without a handshake or a session.
    pub fn new(cfg: &ClientConfig, limits: SessionLimits) -> (r: Result<Self, ManagerError>)
        ensures
            match r {
                Ok(m) => {
                    &&& cfg.version == PROTOCOL_VERSION
                    &&& m.wf()
                    &&& m@ == (ClientManagerView {
                        cfg: *cfg,
                        limits,
                        hs: None,
                        session: None,
                        ready: false,
                        peer: cfg.server_addr,
                        hs_started: None,
                        established_at: None,
                        closed: Seq::empty(),
                    })
                },
                Err(e) => cfg.version != PROTOCOL_VERSION && (e matches ManagerError::InvalidConfig(
                    t,
                ) && t@ == unsupported_version(cfg.version)),
            },
    {
        if cfg.version != PROTOCOL_VERSION {
            return Err(ManagerError::InvalidConfig(unsupported_version_text(cfg.version)));
        }
        let m = ClientSessionManager {
            cfg: *cfg,
            limits,
            hs: None,
            session: None,
            ready: false,
            peer: cfg.server_addr,
            hs_started: None,
            established_at: None,
            pending_closed: Vec::new(),
        };
        assert(m@.closed =~= Seq::empty());
        Ok(m)
    }

    /// Lifecycle state.
    pub fn state(&self) -> (r: ClientManagerState)
        ensures
            r == self@.state(),
    {
        if self.session.is_some() {
            ClientManagerState::Established
        } else if self.hs.is_some() {
            ClientManagerState::Handshaking
        } else {
            ClientManagerState::Idle
        }
    }

    /// Whether an authenticated packet of the server has arrived.
    pub fn is_ready(&self) -> (r: bool)
        ensures
            r == self@.ready,
    {
        self.ready
    }

    /// The configuration.
    pub fn config(&self) -> (r: &ClientConfig)
        ensures
            *r == self@.cfg,
    {
        &self.cfg
    }

    /// Identifier of the session, if there is one.
    pub fn session_id(&self) -> (r: Option<[u8; SESSION_ID_LEN]>)
        ensures
            r == match self@.session {
                Some(s) => Some(s.session_id),
                None => None,
            },
    {
        match &self.session {
            Some(s) => Some(*s.session_id()),
            None => None,
        }
    }

    /// Identifier of the running handshake, if there is one.
    pub fn handshake_sid(&self) -> (r: Option<[u8; SESSION_ID_LEN]>)
        ensures
            r == match self@.hs {
                Some(h) => Some(h.sid),
                None => None,
            },
    {
        match &self.hs {
            Some(h) => Some(*h.session_id()),
            None => None,
        }
    }

    /// Decapsulation key of the running handshake, if there is one.
    pub fn kem_secret(&self) -> (r: Option<&MlKemSecretKey>)
        ensures
            match self@.hs {
                Some(h) => r matches Some(k) && k@ == h.kem_secret,
                None => r is None,
            },
    {
        match &self.hs {
            Some(h) => Some(h.kem_secret()),
            None => None,
        }
    }

    /// Current retransmission delay, if a handshake is running.
    pub fn next_delay(&self) -> (r: Option<Duration>)
        ensures
            match self@.hs {
                Some(h) => r matches Some(d) && d.nanos() == h.next_delay,
                None => r is None,
            },
    {
        match &self.hs {
            Some(h) => Some(h.next_delay()),
            None => None,
        }
    }

    /// A fresh identifier for a handshake, which only an idle manager can
    /// start. The caller makes fresh keys, signs
    /// [`ClientHandshake::hello_digest`] and goes on with
    /// [`ClientSessionManager::start_handshake`].
    pub fn begin_handshake(&self) -> (r: Result<[u8; SESSION_ID_LEN], ManagerError>)
        ensures
            !(self@.state() is Idle) ==> r == Err::<[u8; SESSION_ID_LEN], ManagerError>(
                ManagerError::InvalidState("handshake already running or session established"),
            ),
            self@.state() is Idle ==> (r matches Err(e) ==> (e matches ManagerError::Handshake(
                HandshakeV2Error::Crypto(c),
            ) && random_failure(c))),
    {
        if self.hs.is_some() || self.session.is_some() {
            return Err(
                ManagerError::InvalidState("handshake already running or session established"),
            );
        }
        match random_sid() {
            Ok(sid) => Ok(sid),
            Err(e) => Err(ManagerError::Handshake(e)),
        }
    }

    /// Starts a handshake with fresh keys and their signature, for a given draw
    /// of the jitter.
    pub fn start_handshake_with_draw(
        &mut self,
        sid: [u8; SESSION_ID_LEN],
        material: Result<(ClientKeys, MlDsaSignature), CryptoError>,
        now: Instant,
        draw: u64,
    ) -> (r: Result<ManagerEvent, ManagerError>)
        requires
            old(self).wf(),
        ensures
            final(self).wf(),
            if !(old(self)@.state() is Idle) {
                final(self)@ == old(self)@ && r == Err::<ManagerEvent, ManagerError>(
                    ManagerError::InvalidState("handshake already running or session established"),
                )
            } else {
                match material {
                    Err(e) => final(self)@ == old(self)@ && r == Err::<ManagerEvent, ManagerError>(
                        ManagerError::Handshake(HandshakeV2Error::Crypto(e)),
                    ),
                    Ok(m) => {
                        let h = final(self)@.hs->Some_0;
                        &&& final(self)@ == old(self)@.handshaking(h, now)
                        &&& h == ClientView::started(old(self)@.cfg, sid, m.0, h.hello, draw)
                        &&& h.hello.client_sig == m.1
                        &&& h.hello.eph_pk_c == m.0.kem_public
                        &&& r matches Ok(v) && v@ == EventView::Send(
                            h.m1_datagrams(),
                            old(self)@.cfg.server_addr,
                        )
                    },
                }
            },
    {
        if self.hs.is_some() || self.session.is_some() {
            return Err(
                ManagerError::InvalidState("handshake already running or session established"),
            );
        }
        let (keys, sig) = match material {
            Ok(m) => m,
            Err(e) => return Err(ManagerError::Handshake(HandshakeV2Error::Crypto(e))),
        };
        let hs = match ClientHandshake::new_with_draw(&self.cfg, sid, keys, sig, draw) {
            Ok(h) => h,
            Err(e) => return Err(ManagerError::Handshake(e)),
        };
        let packets = duplicate_packets(hs.m1_frags());
        self.hs = Some(hs);
        self.hs_started = Some(now);
        self.ready = false;
        self.peer = self.cfg.server_addr;
        Ok(ManagerEvent::Send { packets, peer: self.cfg.server_addr })
    }

    /// Starts a handshake with fresh keys and their signature.
    pub fn start_handshake(
        &mut self,
        sid: [u8; SESSION_ID_LEN],
        material: Result<(ClientKeys, MlDsaSignature), CryptoError>,
        now: Instant,
    ) -> (r: Result<ManagerEvent, ManagerError>)
        requires
            old(self).wf(),
        ensures
            final(self).wf(),
            if !(old(self)@.state() is Idle) {
                final(self)@ == old(self)@ && r == Err::<ManagerEvent, ManagerError>(
                    ManagerError::InvalidState("handshake already running or session established"),
                )
            } else {
                match material {
                    Err(e) => final(self)@ == old(self)@ && r == Err::<ManagerEvent, ManagerError>(
                        ManagerError::Handshake(HandshakeV2Error::Crypto(e)),
                    ),
                    Ok(m) => {
                        let h = final(self)@.hs->Some_0;
                        &&& final(self)@ == old(self)@.handshaking(h, now)
                        &&& exists|draw: u64|
                            h == #[trigger] ClientView::started(
                                old(self)@.cfg,
                                sid,
                                m.0,
                                h.hello,
                                draw,
                            )
                        &&& h.hello.client_sig == m.1
                        &&& h.hello.eph_pk_c == m.0.kem_public
                        &&& r matches Ok(v) && v@ == EventView::Send(
                            h.m1_datagrams(),
                            old(self)@.cfg.server_addr,
                        )
                    },
                }
            },
    {
        self.start_handshake_with_draw(sid, material, now, random_u64_or_zero())
    }

    /// Processes a received datagram. While a handshake runs, everything goes
    /// to it.
    pub fn handle_datagram(&mut self, pkt: &WirePacket, from: PeerAddr) -> (r: ClientManagerStep)
        requires
            old(self).wf(),
        ensures
            final(self).wf(),
            match old(self)@.hs {
                Some(h) => {
                    &&& final(self)@ == old(self)@.with_hs(h.received(pkt@))
                    &&& match r {
                        ClientManagerStep::Verify(v) => {
                            &&& h.completes(pkt@)
                            &&& h.checkable(v.hello().encoding())
                            &&& v.hello().encoding() == h.offered(pkt@).buffer
                            &&& v.hello().sid == h.sid
                            &&& v.pinned_key() == h.cfg.server_identity
                            &&& v.signed() == th2(h.hello.encoding(), v.hello().encoding())
                        },
                        ClientManagerStep::Event(v) => v@ is Nothing && !(h.completes(pkt@)
                            && h.checkable(h.offered(pkt@).buffer)),
                        ClientManagerStep::Open(_) => false,
                    }
                },
                None => {
                    &&& final(self)@ == old(self)@
                    &&& if old(self)@.session is Some && pkt@[0] == PROTOCOL_VERSION {
                        &&& r matches ClientManagerStep::Open(t)
                        &&& t.packet() == pkt@
                        &&& t.source() == from
                        &&& old(self)@.session->Some_0.cipher.opens(pkt@, t.open())
                    } else {
                        r matches ClientManagerStep::Event(v) && v@ is Nothing
                    }
                },
            },
    {
        let mut taken: Option<ClientHandshake> = None;
        std::mem::swap(&mut taken, &mut self.hs);
        if let Some(mut hs) = taken {
            let step = hs.handle_datagram(pkt);
            self.hs = Some(hs);
            return match step {
                ClientStep::Verify(v) => ClientManagerStep::Verify(v),
                _ => ClientManagerStep::Event(ManagerEvent::Nothing),
            };
        }
        match &self.session {
            None => ClientManagerStep::Event(ManagerEvent::Nothing),
            Some(session) => match session.open_request(pkt) {
                Ok(request) => ClientManagerStep::Open(
                    OpenTicket::make(pkt.duplicate(), from, request),
                ),
                Err(_) => ClientManagerStep::Event(ManagerEvent::Nothing),
            },
        }
    }

    /// Resumes with the verdict on a server signature: a valid one asks for the
    /// key exchange.
    pub fn on_verified(&mut self, check: M2Verify, verdict: Result<bool, CryptoError>) -> (r: Result<
        Option<M2Exchange>,
        ManagerError,
    >)
        requires
            old(self).wf(),
        ensures
            final(self).wf(),
            match old(self)@.hs {
                None => final(self)@ == old(self)@ && (r matches Ok(x) && x is None),
                Some(h) => match verdict {
                    Err(e) => final(self)@ == old(self)@ && r == Err::<
                        Option<M2Exchange>,
                        ManagerError,
                    >(ManagerError::Handshake(HandshakeV2Error::Crypto(e))),
                    Ok(false) => final(self)@ == old(self)@.with_hs(h.reset()) && (r matches Ok(x)
                        && x is None),
                    Ok(true) => final(self)@ == old(self)@ && (r matches Ok(Some(x)) && x.hello()
                        == check.hello()),
                },
            },
    {
        let mut taken: Option<ClientHandshake> = None;
        std::mem::swap(&mut taken, &mut self.hs);
        if let Some(mut hs) = taken {
            let step = hs.on_verified(check, verdict);
            self.hs = Some(hs);
            return match step {
                Ok(ClientStep::Exchange(x)) => Ok(Some(x)),
                Ok(_) => Ok(None),
                Err(e) => Err(ManagerError::Handshake(e)),
            };
        }
        Ok(None)
    }

    /// Resumes with the result of the key exchange, for a given draw of the
    /// jitter: the confirmation is sent.
    pub fn on_exchange_with_draw(
        &mut self,
        request: M2Exchange,
        reply: Result<ClientExchange, CryptoError>,
        draw: u64,
    ) -> (r: Result<ManagerEvent, ManagerError>)
        requires
            old(self).wf(),
        ensures
            final(self).wf(),
            match old(self)@.hs {
                None => final(self)@ == old(self)@ && (r matches Ok(v) && v@ is Nothing),
                Some(h) => match reply {
                    Err(e) => final(self)@ == old(self)@ && r == Err::<ManagerEvent, ManagerError>(
                        ManagerError::Handshake(HandshakeV2Error::Crypto(e)),
                    ),
                    Ok(ex) => if h.stage is AwaitM2 && request.hello().sid == h.sid {
                        let next = h.confirmed(request.hello(), ex, draw);
                        &&& final(self)@ == old(self)@.with_hs(next)
                        &&& r matches Ok(v) && v@ == EventView::Send(
                            next.m3_datagrams(),
                            old(self)@.cfg.server_addr,
                        )
                    } else {
                        final(self)@ == old(self)@ && (r matches Ok(v) && v@ is Nothing)
                    },
                },
            },
    {
        let mut taken: Option<ClientHandshake> = None;
        std::mem::swap(&mut taken, &mut self.hs);
        if let Some(mut hs) = taken {
            let step = hs.on_exchange_with_draw(request, reply, draw);
            self.hs = Some(hs);
            return match step {
                Ok(ClientEvent::Emit(packets)) => Ok(
                    ManagerEvent::Send { packets, peer: self.cfg.server_addr },
                ),
                Ok(_) => Ok(ManagerEvent::Nothing),
                Err(e) => Err(ManagerError::Handshake(e)),
            };
        }
        Ok(ManagerEvent::Nothing)
    }

    /// Resumes with the result of the key exchange: the confirmation is sent.
    pub fn on_exchange(
        &mut self,
        request: M2Exchange,
        reply: Result<ClientExchange, CryptoError>,
    ) -> (r: Result<ManagerEvent, ManagerError>)
        requires
            old(self).wf(),
        ensures
            final(self).wf(),
            match old(self)@.hs {
                None => final(self)@ == old(self)@ && (r matches Ok(v) && v@ is Nothing),
                Some(h) => match reply {
                    Err(e) => final(self)@ == old(self)@ && r == Err::<ManagerEvent, ManagerError>(
                        ManagerError::Handshake(HandshakeV2Error::Crypto(e)),
                    ),
                    Ok(ex) => if h.stage is AwaitM2 && request.hello().sid == h.sid {
                        let next = final(self)@.hs->Some_0;
                        &&& exists|draw: u64|
                            next == #[trigger] h.confirmed(request.hello(), ex, draw)
                        &&& final(self)@ == old(self)@.with_hs(next)
                        &&& r matches Ok(v) && v@ == EventView::Send(
                            next.m3_datagrams(),
                            old(self)@.cfg.server_addr,
                        )
                    } else {
                        final(self)@ == old(self)@ && (r matches Ok(v) && v@ is Nothing)
                    },
                },
            },
    {
        self.on_exchange_with_draw(request, reply, random_u64_or_zero())
    }

    /// The retransmission timer fired, for a given draw of the jitter. A
    /// handshake without an answer is given up when its budget is spent.
    pub fn on_timer_with_draw(&mut self, draw: u64) -> (r: TimerStep)
        requires
            old(self).wf(),
        ensures
            final(self).wf(),
            match old(self)@.hs {
                None => final(self)@ == old(self)@ && (r matches TimerStep::Event(v) && v@
                    is Nothing),
                Some(h) => match h.stage {
                    ClientStage::AwaitM2(_) => if h.attempts >= h.cfg.m1_max_attempts {
                        &&& final(self)@ == old(self)@.without_hs()
                        &&& r matches TimerStep::Event(v) && v@ == EventView::Closed(
                            h.sid,
                            CloseReason::HandshakeTimeout,
                        )
                    } else {
                        &&& final(self)@ == old(self)@.with_hs(h.retransmitted(draw))
                        &&& r matches TimerStep::Event(v) && v@ == EventView::Send(
                            h.m1_datagrams(),
                            old(self)@.cfg.server_addr,
                        )
                    },
                    ClientStage::M3Sent { outcome, .. } => if h.attempts >= h.cfg.m3_max_attempts {
                        &&& final(self)@ == old(self)@
                        &&& r matches TimerStep::Establish(o) && o@ == outcome
                    } else {
                        &&& final(self)@ == old(self)@.with_hs(h.retransmitted(draw))
                        &&& r matches TimerStep::Event(v) && v@ == EventView::Send(
                            h.m3_datagrams(),
                            old(self)@.cfg.server_addr,
                        )
                    },
                },
            },
    {
        let mut taken: Option<ClientHandshake> = None;
        std::mem::swap(&mut taken, &mut self.hs);
        if let Some(mut hs) = taken {
            let sid: [u8; SESSION_ID_LEN] = *hs.session_id();
            return match hs.on_timer_with_draw(draw) {
                Ok(ClientEvent::Emit(packets)) => {
                    self.hs = Some(hs);
                    TimerStep::Event(ManagerEvent::Send { packets, peer: self.cfg.server_addr })
                },
                Ok(ClientEvent::Complete(outcome)) => {
                    self.hs = Some(hs);
                    TimerStep::Establish(outcome)
                },
                _ => {
                    self.hs_started = None;
                    TimerStep::Event(
                        ManagerEvent::Closed { sid, reason: CloseReason::HandshakeTimeout },
                    )
                },
            };
        }
        TimerStep::Event(ManagerEvent::Nothing)
    }

    /// The retransmission timer fired.
    pub fn on_timer(&mut self) -> (r: TimerStep)
        requires
            old(self).wf(),
        ensures
            final(self).wf(),
            match old(self)@.hs {
                None => final(self)@ == old(self)@ && (r matches TimerStep::Event(v) && v@
                    is Nothing),
                Some(h) => match h.stage {
                    ClientStage::AwaitM2(_) => if h.attempts >= h.cfg.m1_max_attempts {
                        &&& final(self)@ == old(self)@.without_hs()
                        &&& r matches TimerStep::Event(v) && v@ == EventView::Closed(
                            h.sid,
                            CloseReason::HandshakeTimeout,
                        )
                    } else {
                        &&& exists|draw: u64|
                            final(self)@ == old(self)@.with_hs(#[trigger] h.retransmitted(draw))
                        &&& r matches TimerStep::Event(v) && v@ == EventView::Send(
                            h.m1_datagrams(),
                            old(self)@.cfg.server_addr,
                        )
                    },
                    ClientStage::M3Sent { outcome, .. } => if h.attempts >= h.cfg.m3_max_attempts {
                        &&& final(self)@ == old(self)@
                        &&& r matches TimerStep::Establish(o) && o@ == outcome
                    } else {
                        &&& exists|draw: u64|
                            final(self)@ == old(self)@.with_hs(#[trigger] h.retransmitted(draw))
                        &&& r matches TimerStep::Event(v) && v@ == EventView::Send(
                            h.m3_datagrams(),
                            old(self)@.cfg.server_addr,
                        )
                    },
                },
            },
    {
        self.on_timer_with_draw(random_u64_or_zero())
    }

    /// Turns a completed handshake into a session.
    pub fn establish(
        &mut self,
        outcome: HandshakeOutcome,
        keys: Result<TrafficKeys, CryptoError>,
        now: Instant,
    ) -> (r: Result<(), ManagerError>)
        requires
            old(self).wf(),
        ensures
            final(self).wf(),
            match keys {
                Ok(k) => {
                    &&& r is Ok
                    &&& final(self)@ == old(self)@.established(outcome.session_id, k, now)
                },
                Err(e) => final(self)@ == old(self)@ && r == Err::<(), ManagerError>(
                    ManagerError::Session(SessionError::Codec(CodecError::Crypto(e))),
                ),
            },
    {
        match WireSession::established(Role::Client, &outcome, keys, now) {
            Ok(session) => {
                self.hs = None;
                self.hs_started = None;
                self.session = Some(session);
                self.ready = false;
                self.established_at = Some(now);
                Ok(())
            },
            Err(e) => Err(ManagerError::Session(e)),
        }
    }

    /// Resumes with what the opening of a packet gave, `None` if it did not
    /// authenticate.
    pub fn on_opened(&mut self, ticket: OpenTicket, opened: Option<Vec<u8>>) -> (r: ManagerEvent)
        requires
            old(self).wf(),
        ensures
            final(self).wf(),
            ({
                let pt = match opened {
                    Some(v) => Some(v@),
                    None => None,
                };
                let out = old(self)@.on_opened(ticket.packet(), pt, ticket.source());
                final(self)@ == out.0 && r@ == out.1
            }),
    {
        let from = ticket.from();
        let pkt = ticket.wire();
        let ghost pt = match &opened {
            Some(v) => Some(v@),
            None => None,
        };
        let ghost start = self@;
        let mut taken: Option<WireSession> = None;
        std::mem::swap(&mut taken, &mut self.session);
        if let Some(mut session) = taken {
            let sid: [u8; SESSION_ID_LEN] = *session.session_id();
            proof {
                crate::envelope::receive_errors_are_uniform(
                    start.session->Some_0.cipher,
                    pkt@,
                    pt,
                );
            }
            match session.decrypt(pkt, opened) {
                Ok(inner) => {
                    assert(inner.encoding()[0] == inner.msg_type.code());
                    match inner.msg_type {
                        MessageType::Data => {
                            self.session = Some(session);
                            self.ready = true;
                            self.peer = from;
                            ManagerEvent::AppData { sid, inner }
                        },
                        MessageType::Cover => {
                            self.session = Some(session);
                            self.ready = true;
                            self.peer = from;
                            ManagerEvent::Nothing
                        },
                        MessageType::Close => {
                            self.ready = false;
                            ManagerEvent::Closed { sid, reason: CloseReason::PeerClosed }
                        },
                        MessageType::Handshake => {
                            self.session = Some(session);
                            ManagerEvent::Nothing
                        },
                    }
                },
                Err(SessionError::RekeyRequired) => {
                    self.ready = false;
                    ManagerEvent::Closed { sid, reason: CloseReason::NonceExhausted }
                },
                Err(_) => {
                    self.session = Some(session);
                    ManagerEvent::Nothing
                },
            }
        } else {
            ManagerEvent::Nothing
        }
    }

    /// Ends a handshake that has run for too long, a session that was not
    /// confirmed in time or has reached its longest lifetime, and reports the
    /// closures, with those that were waiting.
    pub fn tick(&mut self, now: Instant) -> (r: Vec<ManagerEvent>)
        requires
            old(self).wf(),
        ensures
            final(self).wf(),
            final(self)@ == old(self)@.ticked(now),
            reports(r@, old(self)@.closures(now)),
    {
        let ghost start = self@;
        let mut out: Vec<ManagerEvent> = Vec::new();
        let overdue: bool = has_reached(self.limits.handshake_timeout, now, self.hs_started);
        if let Some(hs) = &self.hs {
            if overdue {
                let sid: [u8; SESSION_ID_LEN] = *hs.session_id();
                out.push(ManagerEvent::Closed { sid, reason: CloseReason::HandshakeTimeout });
            }
        }
        if self.hs.is_some() && overdue {
            self.hs = None;
            self.hs_started = None;
        }
        let ghost own: Seq<Closure> = if start.overdue(now) {
            seq![(start.hs->Some_0.sid, CloseReason::HandshakeTimeout)]
        } else {
            Seq::empty()
        };
        assert(reports(out@, own));
        if let Some(sid) = self.session_id() {
            if !self.ready && has_reached(
                self.limits.liveness_timeout,
                now,
                self.established_at,
            ) {
                self.session = None;
                out.push(ManagerEvent::Closed { sid, reason: CloseReason::NotConfirmed });
            } else if has_reached(self.limits.lifetime_cap, now, self.established_at) {
                self.session = None;
                self.ready = false;
                out.push(ManagerEvent::Closed { sid, reason: CloseReason::LifetimeCap });
            }
        }
        let ghost ended: Seq<Closure> = match start.ends(now) {
            Some(reason) => seq![(start.session->Some_0.session_id, reason)],
            None => Seq::empty(),
        };
        let ghost mid = *self;
        assert(reports(out@, own + ended));
        let m: usize = self.pending_closed.len();
        let mut j: usize = 0;
        while j < m
            invariant
                j <= m,
                *self == mid,
                m == start.closed.len(),
                start.closed == self.pending_closed@,
                reports(out@, own + ended + start.closed.subrange(0, j as int)),
            decreases m - j,
        {
            let (sid, reason) = self.pending_closed[j];
            out.push(ManagerEvent::Closed { sid, reason });
            assert(own + ended + start.closed.subrange(0, j + 1) =~= (own + ended
                + start.closed.subrange(0, j as int)).push(start.closed[j as int]));
            j += 1;
        }
        assert(start.closed.subrange(0, m as int) =~= start.closed);
        self.pending_closed = Vec::new();
        assert(self@.closed =~= Seq::empty());
        out
    }

    /// Pads a payload and asks for its sealing as application data. Nothing
    /// has to be ready for that.
    pub fn app_outbound(&mut self, payload: &[u8]) -> (r: Result<SealStep, ManagerError>)
        requires
            old(self).wf(),
        ensures
            final(self).wf(),
            if payload@.len() > PAYLOAD_LEN {
                final(self)@ == old(self)@ && r == Err::<SealStep, ManagerError>(
                    ManagerError::Session(
                        SessionError::Codec(
                            CodecError::WrongLength {
                                field: "payload",
                                expected: PAYLOAD_LEN,
                                got: payload@.len() as usize,
                            },
                        ),
                    ),
                )
            } else {
                sends(
                    old(self)@,
                    final(self)@,
                    MessageType::Data,
                    padded(payload@),
                    false,
                    r,
                )
            },
    {
        if payload.len() > PAYLOAD_LEN {
            return Err(
                ManagerError::Session(
                    SessionError::Codec(
                        CodecError::WrongLength {
                            field: "payload",
                            expected: PAYLOAD_LEN,
                            got: payload.len(),
                        },
                    ),
                ),
            );
        }
        let mut slot = [0u8; PAYLOAD_LEN];
        write_at(&mut slot, 0, payload);
        assert(slot@ =~= padded(payload@));
        self.send(MessageType::Data, &slot, false)
    }

    /// Asks for the sealing of a full slot.
    fn send(&mut self, msg_type: MessageType, slot: &[u8; PAYLOAD_LEN], closing: bool) -> (r: Result<
        SealStep,
        ManagerError,
    >)
        requires
            old(self).wf(),
        ensures
            final(self).wf(),
            sends(old(self)@, final(self)@, msg_type, slot@, closing, r),
    {
        let mut taken: Option<WireSession> = None;
        std::mem::swap(&mut taken, &mut self.session);
        if let Some(mut session) = taken {
            let sid: [u8; SESSION_ID_LEN] = *session.session_id();
            match session.seal_request(msg_type, slot) {
                Ok(request) => {
                    self.session = Some(session);
                    Ok(SealStep::Seal(SealTicket::make(sid, request, closing)))
                },
                Err(SessionError::RekeyRequired) => {
                    self.ready = false;
                    Ok(
                        SealStep::Event(
                            ManagerEvent::Closed { sid, reason: CloseReason::NonceExhausted },
                        ),
                    )
                },
                Err(e) => {
                    assert(false);
                    Err(ManagerError::Session(e))
                },
            }
        } else {
            Err(ManagerError::NoSession)
        }
    }

    /// Asks for the sealing of a cover packet with a random payload.
    pub fn cover_packet(&mut self) -> (r: Result<SealStep, ManagerError>)
        requires
            old(self).wf(),
        ensures
            final(self).wf(),
            match old(self)@.session {
                None => final(self)@ == old(self)@ && r == Err::<SealStep, ManagerError>(
                    ManagerError::NoSession,
                ),
                Some(s) => match r {
                    Ok(SealStep::Seal(t)) => {
                        &&& final(self)@ == old(self)@
                        &&& !old(self)@.used_up()
                        &&& t.session() == s.session_id
                        &&& !t.closes()
                        &&& exists|fill: Seq<u8>|
                            fill.len() == PAYLOAD_LEN && #[trigger] s.cipher.seals(
                                MessageType::Cover,
                                fill,
                                t.seal(),
                            )
                    },
                    Ok(SealStep::Event(v)) => {
                        &&& final(self)@ == old(self)@.without_session()
                        &&& old(self)@.used_up()
                        &&& v@ == EventView::Closed(s.session_id, CloseReason::NonceExhausted)
                    },
                    Err(e) => final(self)@ == old(self)@ && (e matches ManagerError::Session(
                        SessionError::Crypto(c),
                    ) && random_failure(c)),
                },
            },
    {
        let mut taken: Option<WireSession> = None;
        std::mem::swap(&mut taken, &mut self.session);
        if let Some(mut session) = taken {
            let sid: [u8; SESSION_ID_LEN] = *session.session_id();
            match session.cover() {
                Ok(request) => {
                    self.session = Some(session);
                    Ok(SealStep::Seal(SealTicket::make(sid, request, false)))
                },
                Err(SessionError::RekeyRequired) => {
                    self.ready = false;
                    Ok(
                        SealStep::Event(
                            ManagerEvent::Closed { sid, reason: CloseReason::NonceExhausted },
                        ),
                    )
                },
                Err(e) => {
                    self.session = Some(session);
                    Err(ManagerError::Session(e))
                },
            }
        } else {
            Err(ManagerError::NoSession)
        }
    }

    /// Closes the session at the application's request: asks for the sealing of
    /// a close message. The session ends when it is sealed.
    pub fn close(&mut self) -> (r: Result<SealStep, ManagerError>)
        requires
            old(self).wf(),
        ensures
            final(self).wf(),
            if old(self)@.session is None {
                final(self)@ == old(self)@ && (r matches Ok(SealStep::Event(v)) && v@ is Nothing)
            } else {
                sends(
                    old(self)@,
                    final(self)@,
                    MessageType::Close,
                    padded(Seq::empty()),
                    true,
                    r,
                )
            },
    {
        if self.session.is_none() {
            return Ok(SealStep::Event(ManagerEvent::Nothing));
        }
        let slot = [0u8; PAYLOAD_LEN];
        assert(slot@ =~= padded(Seq::empty()));
        self.send(MessageType::Close, &slot, true)
    }

    /// Resumes with the result of a sealing: the packet to send. A ticket that
    /// is not the session's current one is refused. After a close message the
    /// session is dropped, and its closure is reported by the next tick.
    pub fn on_sealed(&mut self, ticket: SealTicket, sealed: Result<Vec<u8>, CryptoError>) -> (r:
        Result<ManagerEvent, ManagerError>)
        requires
            old(self).wf(),
        ensures
            final(self).wf(),
            match old(self)@.session {
                None => final(self)@ == old(self)@ && r == Err::<ManagerEvent, ManagerError>(
                    ManagerError::NoSession,
                ),
                Some(s) => if ticket.session() != s.session_id {
                    final(self)@ == old(self)@ && r == Err::<ManagerEvent, ManagerError>(
                        ManagerError::NoSession,
                    )
                } else if ticket.seal().counter != s.cipher.send_counter {
                    final(self)@ == old(self)@ && r == Err::<ManagerEvent, ManagerError>(
                        ManagerError::InvalidState("stale seal request"),
                    )
                } else {
                    match sealed {
                        Err(x) => final(self)@ == old(self)@ && r == Err::<
                            ManagerEvent,
                            ManagerError,
                        >(ManagerError::Session(SessionError::Codec(CodecError::Crypto(x)))),
                        Ok(ct) => if ct@.len() == INNER_PLAINTEXT_LEN + AEAD_TAG_LEN {
                            &&& final(self)@ == if ticket.closes() {
                                ClientManagerView {
                                    closed: old(self)@.closed.push(
                                        (s.session_id, CloseReason::UserClosed),
                                    ),
                                    ..old(self)@.without_session()
                                }
                            } else {
                                old(self)@.with_session(s.sent())
                            }
                            &&& r matches Ok(v) && v@ == EventView::SendPacket(
                                ticket.seal().aad@ + ct@,
                                old(self)@.peer,
                            )
                        } else {
                            final(self)@ == old(self)@ && r == Err::<ManagerEvent, ManagerError>(
                                ManagerError::Session(
                                    SessionError::Codec(
                                        CodecError::Truncated {
                                            field: "aead_region",
                                            min: 1263,
                                            got: ct@.len() as usize,
                                        },
                                    ),
                                ),
                            )
                        },
                    }
                },
            },
    {
        let (sid, request, closing) = ticket.take();
        let mut taken: Option<WireSession> = None;
        std::mem::swap(&mut taken, &mut self.session);
        if let Some(mut session) = taken {
            if !arrays_eq(&sid, session.session_id()) {
                self.session = Some(session);
                return Err(ManagerError::NoSession);
            }
            if request.counter != session.send_counter() {
                self.session = Some(session);
                return Err(ManagerError::InvalidState("stale seal request"));
            }
            match session.encrypt(request, sealed) {
                Ok(packet) => {
                    if closing {
                        self.ready = false;
                        self.pending_closed.push((sid, CloseReason::UserClosed));
                    } else {
                        self.session = Some(session);
                    }
                    Ok(ManagerEvent::SendPacket { packet, peer: self.peer })
                },
                Err(e) => {
                    self.session = Some(session);
                    Err(ManagerError::Session(e))
                },
            }
        } else {
            Err(ManagerError::NoSession)
        }
    }
}

/// A request to send `slot` on the session of `s`: refused without a session,
/// the end of a session whose counter is used up, and otherwise the sealing of
/// exactly this message.
pub open spec fn sends(
    s: ClientManagerView,
    t: ClientManagerView,
    msg_type: MessageType,
    slot: Seq<u8>,
    closing: bool,
    r: Result<SealStep, ManagerError>,
) -> bool {
    match s.session {
        None => t == s && r == Err::<SealStep, ManagerError>(ManagerError::NoSession),
        Some(e) => if s.used_up() {
            &&& t == s.without_session()
            &&& r matches Ok(SealStep::Event(v)) && v@ == EventView::Closed(
                e.session_id,
                CloseReason::NonceExhausted,
            )
        } else {
            &&& t == s
            &&& r matches Ok(SealStep::Seal(k)) && k.session() == e.session_id && k.closes()
                == closing && e.cipher.seals(msg_type, slot, k.seal())
        },
    }
}

fn has_reached(limit: Option<Duration>, now: Instant, since: Option<Instant>) -> (r: bool)
    ensures
        r == reached(limit, now, since),
{
    match (limit, since) {
        (Some(d), Some(s)) => at_least(now.duration_since(s), d),
        _ => false,
    }
}

/// What an accepted packet of the server does: data and cover confirm the session
/// and move its peer to where the packet came from, and data reaches the
/// application; a close message ends the session; a handshake message does none of
/// that.
pub proof fn accepted_packet_confirms_the_session(
    s: ClientManagerView,
    session: SessionView,
    dg: Seq<u8>,
    pt: Seq<u8>,
    from: PeerAddr,
)
    requires
        s.session == Some(session),
        session.decrypted(dg, Some(pt)).1 == Ok::<Seq<u8>, SessionError>(pt),
    ensures
        ({
            let out = s.on_opened(dg, Some(pt), from);
            let next = session.decrypted(dg, Some(pt)).0;
            &&& pt[0] == 1 ==> out.1 == EventView::AppData(session.session_id, pt)
            &&& pt[0] == 2 ==> out.1 is Nothing
            &&& pt[0] == 1 || pt[0] == 2 ==> out.0.ready && out.0.peer == from && out.0.session
                == Some(next)
            &&& pt[0] == 3 ==> out.1 == EventView::Closed(
                session.session_id,
                CloseReason::PeerClosed,
            ) && out.0.session is None && !out.0.ready
            &&& pt[0] == 0 ==> out.1 is Nothing && out.0.ready == s.ready && out.0.peer == s.peer
                && out.0.session == Some(next)
            &&& out.0.established_at == s.established_at && out.0.limits == s.limits && out.0.closed
                == s.closed && out.0.hs == s.hs && out.0.cfg == s.cfg
        }),
{
}

/// A packet that is rejected confirms nothing and moves nothing; the end of the
/// counter ends the session.
pub proof fn rejected_packet_confirms_nothing(
    s: ClientManagerView,
    session: SessionView,
    dg: Seq<u8>,
    opened: Option<Seq<u8>>,
    from: PeerAddr,
)
    requires
        s.session == Some(session),
        session.decrypted(dg, opened).1 is Err,
    ensures
        ({
            let out = s.on_opened(dg, opened, from);
            let used = session.decrypted(dg, opened).1 == Err::<Seq<u8>, SessionError>(
                SessionError::RekeyRequired,
            );
            &&& used ==> out.1 == EventView::Closed(
                session.session_id,
                CloseReason::NonceExhausted,
            ) && out.0.session is None && !out.0.ready
            &&& !used ==> out.1 is Nothing && out.0.ready == s.ready && out.0.session is Some
            &&& out.0.peer == s.peer
        }),
{
}

/// A handshake goes to the configured server and starts its clock now; the session
/// that follows is a client's, is not confirmed yet and starts its own clock.
pub proof fn session_follows_its_handshake(
    s: ClientManagerView,
    hs: ClientView,
    sid: [u8; SESSION_ID_LEN],
    keys: TrafficKeys,
    now: Instant,
)
    ensures
        ({
            let h = s.handshaking(hs, now);
            let t = s.established(sid, keys, now);
            &&& h.hs == Some(hs) && h.hs_started == Some(now) && h.peer == s.cfg.server_addr
                && !h.ready
            &&& h.session == s.session && h.closed == s.closed && h.limits == s.limits
            &&& t.hs is None && t.hs_started is None && !t.ready && t.established_at == Some(now)
            &&& t.peer == s.peer && t.closed == s.closed && t.limits == s.limits
            &&& t.session matches Some(e) && e.session_id == sid && e.cipher.session_id == sid
                && e.role == Role::Client && e.cipher.role == Role::Client && e.cipher.keys == keys
                && e.state == ProtocolState::Established && e.cipher.send_counter == 0
        }),
{
}

/// Giving up a handshake, and dropping a session, leave everything else alone.
pub proof fn giving_up_is_local(s: ClientManagerView, hs: ClientView, e: SessionView)
    ensures
        ({
            let a = s.without_hs();
            let b = s.without_session();
            let c = s.with_hs(hs);
            let d = s.with_session(e);
            &&& a.hs is None && a.hs_started is None && a.session == s.session && a.ready == s.ready
                && a.closed == s.closed && a.peer == s.peer
            &&& b.session is None && !b.ready && b.hs == s.hs && b.closed == s.closed && b.peer
                == s.peer
            &&& c.hs == Some(hs) && c.session == s.session && c.hs_started == s.hs_started
                && c.ready == s.ready && c.peer == s.peer
            &&& d.session == Some(e) && d.hs == s.hs && d.ready == s.ready && d.peer == s.peer
                && d.established_at == s.established_at
        }),
{
}

/// A handshake is given up from its deadline on and not before, and its closure is
/// reported.
pub proof fn handshake_ends_at_its_deadline(s: ClientManagerView, started: Instant, now: Instant)
    requires
        s.consistent(),
        s.hs is Some,
        s.hs_started == Some(started),
    ensures
        ({
            let late = s.limits.handshake_timeout matches Some(d) && elapsed(now, started)
                >= d.nanos();
            &&& s.ticked(now).hs is None <==> late
            &&& !late ==> s.ticked(now).hs == s.hs && s.closures(now) == s.closed
            &&& late ==> s.closures(now) == seq![
                (s.hs->Some_0.sid, CloseReason::HandshakeTimeout),
            ] + s.closed
        }),
{
    let none: Seq<Closure> = Seq::empty();
    assert(none + none + s.closed =~= s.closed);
    let one: Seq<Closure> = seq![(s.hs->Some_0.sid, CloseReason::HandshakeTimeout)];
    assert(one + none + s.closed =~= one + s.closed);
}

/// A session ends at its longest lifetime, or at the liveness timeout if it was
/// never confirmed, and not before; the missing confirmation is reported first.
pub proof fn session_ends_at_its_limit(s: ClientManagerView, since: Instant, now: Instant)
    requires
        s.consistent(),
        s.session is Some,
        s.established_at == Some(since),
    ensures
        ({
            let unconfirmed = !s.ready && (s.limits.liveness_timeout matches Some(d) && elapsed(
                now,
                since,
            ) >= d.nanos());
            let old_age = s.limits.lifetime_cap matches Some(d) && elapsed(now, since)
                >= d.nanos();
            let sid = s.session->Some_0.session_id;
            &&& s.ticked(now).session is None <==> unconfirmed || old_age
            &&& !unconfirmed && !old_age ==> s.ticked(now).session == s.session && s.ticked(
                now,
            ).ready == s.ready && s.closures(now) == s.closed
            &&& unconfirmed ==> s.closures(now) == seq![(sid, CloseReason::NotConfirmed)]
                + s.closed
            &&& !unconfirmed && old_age ==> s.closures(now) == seq![
                (sid, CloseReason::LifetimeCap),
            ] + s.closed
        }),
{
    let none: Seq<Closure> = Seq::empty();
    assert(none + none + s.closed =~= s.closed);
    let a: Seq<Closure> = seq![(s.session->Some_0.session_id, CloseReason::NotConfirmed)];
    let b: Seq<Closure> = seq![(s.session->Some_0.session_id, CloseReason::LifetimeCap)];
    assert(none + a + s.closed =~= a + s.closed);
    assert(none + b + s.closed =~= b + s.closed);
}

/// The state says whether there is a session, or else a handshake.
pub proof fn state_says_what_there_is(s: ClientManagerView)
    ensures
        s.state() is Established <==> s.session is Some,
        s.state() is Handshaking <==> s.session is None && s.hs is Some,
        s.state() is Idle <==> s.session is None && s.hs is None,
{
}

/// A session is used up from the threshold of its counter on, and not before.
pub proof fn counter_threshold_ends_the_session(s: ClientManagerView, e: SessionView)
    requires
        s.session == Some(e),
    ensures
        s.used_up() <==> e.cipher.send_counter >= 0xffff_fffe_ffff_ffff,
{
}

/// A request to send is refused without a session, ends a session whose counter is
/// used up, and otherwise leads to the sealing of exactly this message; until it is
/// sealed nothing changes.
pub proof fn sending_seals_the_message(
    s: ClientManagerView,
    t: ClientManagerView,
    msg_type: MessageType,
    slot: Seq<u8>,
    closing: bool,
    r: Result<SealStep, ManagerError>,
)
    requires
        sends(s, t, msg_type, slot, closing, r),
        slot.len() == PAYLOAD_LEN,
    ensures
        match s.session {
            None => t == s && r == Err::<SealStep, ManagerError>(ManagerError::NoSession),
            Some(e) => if e.cipher.send_counter < MAX_PACKET_NONCE {
                &&& t == s
                &&& r matches Ok(SealStep::Seal(k))
                &&& k.session() == e.session_id
                &&& k.closes() == closing
                &&& k.seal().counter == e.cipher.send_counter
                &&& k.seal().plaintext@[0] == msg_type.code()
                &&& k.seal().plaintext@.subrange(2, 1247) == slot
            } else {
                &&& t.session is None && !t.ready && t.closed == s.closed
                &&& r matches Ok(SealStep::Event(v)) && v@ == EventView::Closed(
                    e.session_id,
                    CloseReason::NonceExhausted,
                )
            },
        },
{
    if s.session is Some && !s.used_up() {
        if let Ok(SealStep::Seal(k)) = r {
            crate::envelope::sealing_protects_the_payload(
                s.session->Some_0.cipher,
                msg_type,
                slot,
                k.seal(),
            );
        }
    }
}

} // verus!
