//! Server-side session manager.
use crate::bytes::{
    arrays_eq, be_value, lemma_array_ext, lemma_be_bytes_of_value, take_array, u64_from_be,
    write_at,
};
use crate::codec::{
    MessageType, WirePacket, AEAD_TAG_LEN, INNER_PLAINTEXT_LEN, MAX_PACKET_NONCE, PAYLOAD_LEN,
    PROTOCOL_VERSION, SESSION_ID_LEN,
};
use crate::crypto::random_failure;
use crate::envelope::{Role, TrafficKeys};
use crate::error::{CodecError, CryptoError};
use crate::handshake_v2::fragment::{is_handshake_fragment, known_type};
use crate::handshake_v2::outcome::{HandshakeOutcome, HandshakeV2Error};
use crate::handshake_v2::server::{
    matched, server_machine_is_bounded, AuthStep, M1Auth, M1Respond, M2Sign, M3Check, ServerConfig,
    ServerEvent, ServerHandshake, ServerKeys, ServerReply, ServerStep, ServerView,
};
use crate::keys::{MlDsaPublicKey, MlDsaSignature, SharedSecret};
use crate::net::PeerAddr;
use crate::rate::{
    distinct, exhausted_source_waits_for_its_window, has_bucket, slot, spent, table_stays_capped,
    tokens_at, touched, Bucket, BucketLimits, BucketTable,
};
use crate::session_manager::event::{
    padded, reports, CloseReason, Closure, EventView, ManagerError, ManagerEvent, OpenTicket,
    SealStep, SealTicket, SessionLimits,
};
use crate::state::ProtocolState;
use crate::text::{unsupported_version, unsupported_version_text};
use crate::time::{at_least, elapsed, not_before, Duration, Instant};
use crate::wire_session::{SessionError, SessionView, WireSession};
use vstd::prelude::*;
use vstd::string::StringExecFns;

verus! {

struct SessionEntry {
    session: WireSession,
    peer: PeerAddr,
    last_receive: Instant,
    last_activity: Instant,
    established_at: Instant,
}

/// An established session of a server.
pub struct EntryView {
    pub session: SessionView,
    /// Where replies are sent.
    pub peer: PeerAddr,
    /// Last authenticated receive: what idleness is measured from.
    pub last_receive: Instant,
    /// Last authenticated receive or successful send: what capacity goes by.
    pub last_activity: Instant,
    pub established_at: Instant,
}

impl View for SessionEntry {
    type V = EntryView;

    closed spec fn view(&self) -> EntryView {
        EntryView {
            session: self.session@,
            peer: self.peer,
            last_receive: self.last_receive,
            last_activity: self.last_activity,
            established_at: self.established_at,
        }
    }
}

/// What a server manager holds.
pub struct ServerManagerView {
    pub limits: SessionLimits,
    pub hs: ServerView,
    pub sessions: Seq<EntryView>,
    /// The failure gate.
    pub gate: Seq<Bucket>,
    /// Closures that the next tick reports.
    pub closed: Seq<Closure>,
}

/// Identifier of an entry.
pub open spec fn sid_of(e: EntryView) -> [u8; SESSION_ID_LEN] {
    e.session.session_id
}

/// Index of a session; the length if there is none.
pub open spec fn session_slot(s: Seq<EntryView>, sid: [u8; SESSION_ID_LEN]) -> int
    decreases s.len(),
{
    if s.len() == 0 {
        0
    } else {
        let k = session_slot(s.drop_last(), sid);
        if k < s.len() - 1 || sid_of(s.last()) == sid {
            k
        } else {
            s.len() as int
        }
    }
}

/// No identifier is used twice.
pub open spec fn sessions_distinct(s: Seq<EntryView>) -> bool {
    forall|i: int, j: int|
        0 <= i < j < s.len() ==> sid_of(#[trigger] s[i]) != sid_of(#[trigger] s[j])
}

/// Index of the first session that was active least recently.
pub open spec fn least_recent(s: Seq<EntryView>) -> int
    decreases s.len(),
{
    if s.len() <= 1 {
        0
    } else {
        let k = least_recent(s.drop_last());
        if s.last().last_activity.nanos() < s[k].last_activity.nanos() {
            s.len() - 1
        } else {
            k
        }
    }
}

/// A span that has not run out, if it is limited at all.
pub open spec fn within(limit: Option<Duration>, now: Instant, since: Instant) -> bool {
    limit matches Some(d) ==> elapsed(now, since) < d.nanos()
}

/// A session that a tick keeps.
pub open spec fn keeps(l: SessionLimits, now: Instant) -> spec_fn(EntryView) -> bool {
    |e: EntryView|
        within(l.idle_timeout, now, e.last_receive) && within(
            l.lifetime_cap,
            now,
            e.established_at,
        )
}

/// The closures of the sessions that a tick removes: the lifetime cap is
/// reported before the idle timeout.
pub open spec fn expired(s: Seq<EntryView>, l: SessionLimits, now: Instant) -> Seq<Closure>
    decreases s.len(),
{
    if s.len() == 0 {
        Seq::empty()
    } else {
        let rest = expired(s.drop_last(), l, now);
        let e = s.last();
        if keeps(l, now)(e) {
            rest
        } else if !within(l.lifetime_cap, now, e.established_at) {
            rest.push((sid_of(e), CloseReason::LifetimeCap))
        } else {
            rest.push((sid_of(e), CloseReason::IdleTimeout))
        }
    }
}

/// What a data packet calls for.
pub enum DataReply {
    /// Dropped.
    Nothing,
    /// To be opened.
    Open,
}

/// One step of a round of cover packets, with the work of the caller done.
pub enum CoverReply {
    /// There was nothing to seal.
    Event(ManagerEvent),
    /// The packet was sealed, or its sealing failed.
    Sealed(SealTicket, Result<Vec<u8>, CryptoError>),
}

/// What a sealing gave.
pub open spec fn sealed_view(sealed: Result<Vec<u8>, CryptoError>) -> Result<
    Seq<u8>,
    CryptoError,
> {
    match sealed {
        Ok(ct) => Ok(ct@),
        Err(e) => Err(e),
    }
}

/// What events say.
pub open spec fn event_views(events: Seq<ManagerEvent>) -> Seq<EventView> {
    Seq::new(events.len(), |i: int| events[i]@)
}

impl ServerManagerView {
    /// Resource bounds, and that every session in the table is active.
    pub open spec fn bounded(self) -> bool {
        &&& sessions_distinct(self.sessions)
        &&& self.sessions.len() <= self.limits.max_sessions || self.sessions.len() <= 1
        &&& forall|i: int|
            0 <= i < self.sessions.len() ==> (#[trigger] self.sessions[i]).session.state
                == ProtocolState::Established
        &&& forall|i: int|
            0 <= i < self.sessions.len() ==> (#[trigger] self.sessions[i]).session.cipher.session_id
                == sid_of(self.sessions[i])
        &&& distinct(self.gate)
        &&& self.limits.max_fail_buckets >= 1 ==> self.gate.len() <= self.limits.max_fail_buckets
    }

    pub open spec fn with_hs(self, hs: ServerView) -> Self {
        ServerManagerView { hs, ..self }
    }

    pub open spec fn with_session(self, k: int, e: EntryView) -> Self {
        ServerManagerView { sessions: self.sessions.update(k, e), ..self }
    }

    pub open spec fn without(self, k: int) -> Self {
        ServerManagerView { sessions: self.sessions.remove(k), ..self }
    }

    pub open spec fn slot(self, sid: [u8; SESSION_ID_LEN]) -> int {
        session_slot(self.sessions, sid)
    }

    pub open spec fn knows(self, sid: [u8; SESSION_ID_LEN]) -> bool {
        self.slot(sid) < self.sessions.len()
    }

    /// The least recently active session is evicted if the table is full; its
    /// closure is reported by the next tick.
    pub open spec fn with_room(self) -> Self {
        if self.sessions.len() >= self.limits.max_sessions && self.sessions.len() > 0 {
            let k = least_recent(self.sessions);
            ServerManagerView {
                closed: self.closed.push((sid_of(self.sessions[k]), CloseReason::Capacity)),
                ..self.without(k)
            }
        } else {
            self
        }
    }

    /// A session joins the table.
    pub open spec fn joined(
        self,
        sid: [u8; SESSION_ID_LEN],
        keys: TrafficKeys,
        from: PeerAddr,
        now: Instant,
    ) -> Self {
        ServerManagerView {
            sessions: self.sessions.push(
                EntryView {
                    session: SessionView::created(
                        Role::Server,
                        keys,
                        sid,
                        ProtocolState::Established,
                        now,
                    ),
                    peer: from,
                    last_receive: now,
                    last_activity: now,
                    established_at: now,
                },
            ),
            ..self
        }
    }

    /// The failure limiter after a packet of `from` arrived.
    pub open spec fn gated(self, from: PeerAddr, now: Instant) -> Self {
        if self.limits.max_fail_buckets == 0 {
            self
        } else {
            ServerManagerView {
                gate: touched(self.gate, from, now, self.limits.gate()),
                ..self
            }
        }
    }

    /// Whether the failure limiter lets a packet of `from` through.
    pub open spec fn passes(self, from: PeerAddr, now: Instant) -> bool {
        self.limits.max_fail_buckets > 0 && tokens_at(self.gate, from, now, self.limits.gate()) > 0
    }

    /// A failure of `from` is counted.
    pub open spec fn failed(self, from: PeerAddr) -> Self {
        ServerManagerView { gate: spent(self.gate, from), ..self }
    }

    /// A data packet: it is opened only if the failure limiter lets it through, its
    /// session is known and its version is right.
    pub open spec fn on_data(
        self,
        dg: Seq<u8>,
        sid: [u8; SESSION_ID_LEN],
        from: PeerAddr,
        now: Instant,
    ) -> (ServerManagerView, DataReply) {
        let s = self.gated(from, now);
        if !self.passes(from, now) || !s.knows(sid) {
            (s, DataReply::Nothing)
        } else if dg[0] != PROTOCOL_VERSION {
            (s.failed(from), DataReply::Nothing)
        } else {
            (s, DataReply::Open)
        }
    }

    /// What an opened packet leads to. An accepted packet refreshes the
    /// session and rebinds its peer; a rejected one counts against its source.
    pub open spec fn on_opened(
        self,
        dg: Seq<u8>,
        sid: [u8; SESSION_ID_LEN],
        opened: Option<Seq<u8>>,
        from: PeerAddr,
        now: Instant,
    ) -> (ServerManagerView, EventView) {
        let k = self.slot(sid);
        if !self.knows(sid) {
            (self, EventView::Nothing)
        } else {
            let e = self.sessions[k];
            let out = e.session.decrypted(dg, opened);
            match out.1 {
                Ok(pt) => {
                    let s = self.with_session(
                        k,
                        EntryView {
                            session: out.0,
                            peer: from,
                            last_receive: now,
                            last_activity: now,
                            ..e
                        },
                    );
                    if pt[0] == MessageType::Data.code() {
                        (s, EventView::AppData(sid, pt))
                    } else if pt[0] == MessageType::Cover.code() {
                        (s, EventView::Nothing)
                    } else if pt[0] == MessageType::Close.code() {
                        (self.without(k), EventView::Closed(sid, CloseReason::PeerClosed))
                    } else {
                        (s.failed(from), EventView::Nothing)
                    }
                },
                Err(SessionError::RekeyRequired) => (
                    self.without(k),
                    EventView::Closed(sid, CloseReason::NonceExhausted),
                ),
                Err(_) => (
                    self.with_session(k, EntryView { session: out.0, ..e }).failed(from),
                    EventView::Nothing,
                ),
            }
        }
    }

    /// What the result of a sealing leads to: a packet for the peer of the
    /// session, which was active then. A ticket that is not the session's
    /// current one is refused, and nothing but a packet changes anything.
    pub open spec fn on_sealed(
        self,
        ticket: SealTicket,
        sealed: Result<Seq<u8>, CryptoError>,
        now: Instant,
    ) -> (ServerManagerView, Result<EventView, ManagerError>) {
        let k = self.slot(ticket.session());
        let e = self.sessions[k];
        if !self.knows(ticket.session()) {
            (self, Err(ManagerError::NoSession))
        } else if ticket.seal().counter != e.session.cipher.send_counter {
            (self, Err(ManagerError::InvalidState("stale seal request")))
        } else {
            match sealed {
                Err(x) => (
                    self,
                    Err(ManagerError::Session(SessionError::Codec(CodecError::Crypto(x)))),
                ),
                Ok(ct) => if ct.len() == INNER_PLAINTEXT_LEN + AEAD_TAG_LEN {
                    (
                        self.with_session(
                            k,
                            EntryView { session: e.session.sent(), last_activity: now, ..e },
                        ),
                        Ok(EventView::SendPacket(ticket.seal().aad@ + ct, e.peer)),
                    )
                } else {
                    (
                        self,
                        Err(
                            ManagerError::Session(
                                SessionError::Codec(
                                    CodecError::Truncated {
                                        field: "aead_region",
                                        min: 1263,
                                        got: ct.len() as usize,
                                    },
                                ),
                            ),
                        ),
                    )
                },
            }
        }
    }

    /// What the sealings of a round of cover packets lead to, one after the
    /// other, up to the first that fails.
    pub open spec fn on_cover_sealed(self, replies: Seq<CoverReply>, now: Instant) -> (
        ServerManagerView,
        Result<Seq<EventView>, ManagerError>,
    )
        decreases replies.len(),
    {
        if replies.len() == 0 {
            (self, Ok(Seq::empty()))
        } else {
            let before = self.on_cover_sealed(replies.drop_last(), now);
            match before.1 {
                Err(e) => (before.0, Err(e)),
                Ok(events) => match replies.last() {
                    CoverReply::Event(v) => (before.0, Ok(events.push(v@))),
                    CoverReply::Sealed(ticket, sealed) => {
                        let out = before.0.on_sealed(ticket, sealed_view(sealed), now);
                        match out.1 {
                            Ok(v) => (out.0, Ok(events.push(v))),
                            Err(e) => (out.0, Err(e)),
                        }
                    },
                },
            }
        }
    }

    /// The table after a tick.
    pub open spec fn ticked(self, now: Instant) -> Self {
        ServerManagerView {
            sessions: self.sessions.filter(keeps(self.limits, now)),
            closed: Seq::empty(),
            ..self
        }
    }
}

proof fn lemma_session_slot(s: Seq<EntryView>, sid: [u8; SESSION_ID_LEN])
    ensures
        0 <= session_slot(s, sid) <= s.len(),
        session_slot(s, sid) < s.len() ==> sid_of(s[session_slot(s, sid)]) == sid,
        forall|j: int| 0 <= j < session_slot(s, sid) ==> sid_of(#[trigger] s[j]) != sid,
    decreases s.len(),
{
    if s.len() > 0 {
        let t = s.drop_last();
        lemma_session_slot(t, sid);
        let k = session_slot(s, sid);
        assert forall|j: int| 0 <= j < k implies sid_of(#[trigger] s[j]) != sid by {
            if j < t.len() {
                assert(sid_of(t[j]) != sid);
            }
        }
    }
}

proof fn lemma_least_recent(s: Seq<EntryView>)
    requires
        s.len() > 0,
    ensures
        0 <= least_recent(s) < s.len(),
        forall|j: int|
            0 <= j < s.len() ==> s[least_recent(s)].last_activity.nanos() <= (
            #[trigger] s[j]).last_activity.nanos(),
    decreases s.len(),
{
    if s.len() > 1 {
        let t = s.drop_last();
        lemma_least_recent(t);
        assert forall|j: int| 0 <= j < s.len() implies s[least_recent(s)].last_activity.nanos() <= (
        #[trigger] s[j]).last_activity.nanos() by {
            if j < t.len() {
                assert(t[j] == s[j]);
            }
        }
    }
}

/// Filtering keeps identifiers distinct, and keeps nothing that was not there.
proof fn lemma_filter_sessions(s: Seq<EntryView>, p: spec_fn(EntryView) -> bool)
    requires
        sessions_distinct(s),
    ensures
        sessions_distinct(s.filter(p)),
        s.filter(p).len() <= s.len(),
        forall|i: int|
            0 <= i < s.filter(p).len() ==> exists|k: int|
                0 <= k < s.len() && s[k] == #[trigger] s.filter(p)[i],
    decreases s.len(),
{
    reveal(Seq::filter);
    if s.len() > 0 {
        let t = s.drop_last();
        lemma_filter_sessions(t, p);
        let f = t.filter(p);
        let g = s.filter(p);
        assert forall|i: int| 0 <= i < f.len() implies sid_of(#[trigger] f[i]) != sid_of(s.last()) by {
            let k = choose|k: int| 0 <= k < t.len() && t[k] == #[trigger] f[i];
            assert(sid_of(s[k]) != sid_of(s[s.len() - 1]));
        }
        assert forall|i: int| 0 <= i < g.len() implies exists|k: int|
            0 <= k < s.len() && s[k] == #[trigger] g[i] by {
            if i < f.len() {
                let k = choose|k: int| 0 <= k < t.len() && t[k] == #[trigger] f[i];
                assert(s[k] == g[i]);
            } else {
                assert(s[s.len() - 1] == g[i]);
            }
        }
        if p(s.last()) {
            assert(g == f.push(s.last()));
            assert forall|i: int, j: int| 0 <= i < j < g.len() implies sid_of(#[trigger] g[i])
                != sid_of(#[trigger] g[j]) by {
                if j < f.len() {
                    assert(sid_of(f[i]) != sid_of(f[j]));
                }
            }
        }
    }
}

proof fn lemma_update_bounded(s: ServerManagerView, k: int, e: EntryView)
    requires
        s.bounded(),
        0 <= k < s.sessions.len(),
        sid_of(e) == sid_of(s.sessions[k]),
        e.session.state == ProtocolState::Established,
        e.session.cipher.session_id == sid_of(e),
    ensures
        s.with_session(k, e).bounded(),
{
    let t = s.with_session(k, e);
    assert forall|i: int, j: int| 0 <= i < j < t.sessions.len() implies sid_of(
        #[trigger] t.sessions[i],
    ) != sid_of(#[trigger] t.sessions[j]) by {
        assert(sid_of(s.sessions[i]) != sid_of(s.sessions[j]));
    }
    assert forall|i: int| 0 <= i < t.sessions.len() implies (#[trigger] t.sessions[i]).session.state
        == ProtocolState::Established && t.sessions[i].session.cipher.session_id == sid_of(
        t.sessions[i],
    ) by {
        assert(s.sessions[i].session.state == ProtocolState::Established);
        assert(s.sessions[i].session.cipher.session_id == sid_of(s.sessions[i]));
    }
}

proof fn lemma_remove_bounded(s: ServerManagerView, k: int)
    requires
        s.bounded(),
        0 <= k < s.sessions.len(),
    ensures
        s.without(k).bounded(),
        forall|i: int|
            0 <= i < s.without(k).sessions.len() ==> sid_of(#[trigger] s.without(k).sessions[i])
                != sid_of(s.sessions[k]),
{
    let t = s.without(k);
    assert forall|i: int, j: int| 0 <= i < j < t.sessions.len() implies sid_of(
        #[trigger] t.sessions[i],
    ) != sid_of(#[trigger] t.sessions[j]) by {
        let i2 = if i >= k {
            i + 1
        } else {
            i
        };
        let j2 = if j >= k {
            j + 1
        } else {
            j
        };
        assert(sid_of(s.sessions[i2]) != sid_of(s.sessions[j2]));
    }
    assert forall|i: int| 0 <= i < t.sessions.len() implies (#[trigger] t.sessions[i]).session.state
        == ProtocolState::Established && t.sessions[i].session.cipher.session_id == sid_of(
        t.sessions[i],
    ) && sid_of(t.sessions[i]) != sid_of(s.sessions[k]) by {
        let m = if i >= k {
            i + 1
        } else {
            i
        };
        assert(s.sessions[m] == t.sessions[i]);
        assert(s.sessions[m].session.state == ProtocolState::Established);
        assert(s.sessions[m].session.cipher.session_id == sid_of(s.sessions[m]));
        if m < k {
            assert(sid_of(s.sessions[m]) != sid_of(s.sessions[k]));
        } else {
            assert(sid_of(s.sessions[k]) != sid_of(s.sessions[m]));
        }
    }
}

proof fn lemma_gate_bounded(s: ServerManagerView, from: PeerAddr, now: Instant)
    requires
        s.bounded(),
    ensures
        s.gated(from, now).bounded(),
        s.gated(from, now).failed(from).bounded(),
        s.failed(from).bounded(),
{
    if s.limits.max_fail_buckets >= 1 {
        table_stays_capped(s.gate, from, now, s.limits.gate());
    }
    lemma_spent(s.gate, from);
    lemma_spent(s.gated(from, now).gate, from);
}

proof fn lemma_spent(g: Seq<Bucket>, from: PeerAddr)
    requires
        distinct(g),
    ensures
        distinct(spent(g, from)),
        spent(g, from).len() == g.len(),
{
    crate::rate::spending_keeps_sources(g, from);
}

/// The table of sessions never outgrows its capacity, no identifier is ever
/// used twice, and the failure gate stays capped: this holds of an empty
/// manager and is kept by every operation.
pub proof fn server_stays_bounded(
    s: ServerManagerView,
    dg: Seq<u8>,
    sid: [u8; SESSION_ID_LEN],
    opened: Option<Seq<u8>>,
    keys: TrafficKeys,
    from: PeerAddr,
    now: Instant,
)
    requires
        s.bounded(),
    ensures
        !s.knows(sid) ==> s.with_room().joined(sid, keys, from, now).bounded(),
        s.on_data(dg, sid, from, now).0.bounded(),
        s.on_opened(dg, sid, opened, from, now).0.bounded(),
        s.ticked(now).bounded(),
        s.knows(sid) ==> s.without(s.slot(sid)).bounded(),
{
    lemma_session_slot(s.sessions, sid);
    lemma_gate_bounded(s, from, now);
    if s.knows(sid) {
        let k = s.slot(sid);
        let e = s.sessions[k];
        let out = e.session.decrypted(dg, opened);
        lemma_remove_bounded(s, k);
        assert(e.session.state == ProtocolState::Established);
        assert(e.session.cipher.session_id == sid_of(e));
        crate::envelope::receive_errors_are_uniform(e.session.cipher, dg, opened);
        if out.1 is Ok {
            let t = EntryView {
                session: out.0,
                peer: from,
                last_receive: now,
                last_activity: now,
                ..e
            };
            lemma_update_bounded(s, k, t);
            lemma_gate_bounded(s.with_session(k, t), from, now);
        } else if out.1 != Err::<Seq<u8>, SessionError>(SessionError::RekeyRequired) {
            let t = EntryView { session: out.0, ..e };
            lemma_update_bounded(s, k, t);
            lemma_gate_bounded(s.with_session(k, t), from, now);
        }
    } else {
        let r = s.with_room();
        if s.sessions.len() >= s.limits.max_sessions && s.sessions.len() > 0 {
            lemma_least_recent(s.sessions);
            lemma_remove_bounded(s, least_recent(s.sessions));
        }
        let t = r.joined(sid, keys, from, now);
        assert forall|i: int| 0 <= i < r.sessions.len() implies sid_of(#[trigger] r.sessions[i])
            != sid by {
            if r.sessions.len() == s.sessions.len() {
                assert(r.sessions[i] == s.sessions[i]);
            } else {
                let k = least_recent(s.sessions);
                let m = if i >= k {
                    i + 1
                } else {
                    i
                };
                assert(r.sessions[i] == s.sessions[m]);
            }
        }
        assert forall|i: int, j: int| 0 <= i < j < t.sessions.len() implies sid_of(
            #[trigger] t.sessions[i],
        ) != sid_of(#[trigger] t.sessions[j]) by {
            if j < r.sessions.len() {
                assert(sid_of(r.sessions[i]) != sid_of(r.sessions[j]));
            } else {
                assert(sid_of(r.sessions[i]) != sid);
            }
        }
        assert forall|i: int| 0 <= i < t.sessions.len() implies (
        #[trigger] t.sessions[i]).session.state == ProtocolState::Established
            && t.sessions[i].session.cipher.session_id == sid_of(t.sessions[i]) by {
            if i < r.sessions.len() {
                assert(r.sessions[i].session.state == ProtocolState::Established);
                assert(r.sessions[i].session.cipher.session_id == sid_of(r.sessions[i]));
            }
        }
    }
    let p = keeps(s.limits, now);
    lemma_filter_sessions(s.sessions, p);
    let f = s.sessions.filter(p);
    assert forall|i: int| 0 <= i < f.len() implies (#[trigger] f[i]).session.state
        == ProtocolState::Established && f[i].session.cipher.session_id == sid_of(f[i]) by {
        let k = choose|k: int| 0 <= k < s.sessions.len() && s.sessions[k] == #[trigger] f[i];
        assert(s.sessions[k].session.state == ProtocolState::Established);
        assert(s.sessions[k].session.cipher.session_id == sid_of(s.sessions[k]));
    }
}

/// Only a key-holder can move or keep alive a session: a packet that does not
/// open authentically changes nothing but the budget of its source.
pub proof fn forged_packet_changes_no_session(
    s: ServerManagerView,
    dg: Seq<u8>,
    sid: [u8; SESSION_ID_LEN],
    from: PeerAddr,
    now: Instant,
)
    requires
        s.bounded(),
    ensures
        s.on_data(dg, sid, from, now).0.sessions == s.sessions,
        s.on_opened(dg, sid, None, from, now).0.sessions =~= s.sessions,
        s.on_opened(dg, sid, None, from, now).1 is Nothing,
{
    lemma_session_slot(s.sessions, sid);
    if s.knows(sid) {
        let k = s.slot(sid);
        assert(s.sessions[k].session.state == ProtocolState::Established);
    }
}

/// Once a round has failed, what follows changes nothing.
proof fn lemma_cover_failed(s: ServerManagerView, replies: Seq<CoverReply>, k: int, now: Instant)
    requires
        0 <= k <= replies.len(),
        s.on_cover_sealed(replies.subrange(0, k), now).1 is Err,
    ensures
        s.on_cover_sealed(replies, now) == s.on_cover_sealed(replies.subrange(0, k), now),
    decreases replies.len(),
{
    if k == replies.len() {
        assert(replies.subrange(0, k) =~= replies);
    } else {
        let t = replies.drop_last();
        assert(t.subrange(0, k) =~= replies.subrange(0, k));
        lemma_cover_failed(s, t, k, now);
    }
}

/// A round of cover packets succeeds or fails as a whole: it gives one event for
/// each reply, in order, a sealed packet for each sealing; or the error of the
/// first reply that fails, and no event.
pub proof fn cover_round_is_all_or_nothing(
    s: ServerManagerView,
    replies: Seq<CoverReply>,
    now: Instant,
)
    ensures
        match s.on_cover_sealed(replies, now).1 {
            Ok(events) => {
                &&& events.len() == replies.len()
                &&& forall|i: int|
                    0 <= i < replies.len() ==> match #[trigger] replies[i] {
                        CoverReply::Event(v) => events[i] == v@,
                        CoverReply::Sealed(ticket, sealed) => sealed matches Ok(ct)
                            && events[i] matches EventView::SendPacket(p, _) && p
                            == ticket.seal().aad@ + ct@,
                    }
            },
            Err(e) => exists|i: int|
                #![trigger replies[i]]
                0 <= i < replies.len() && s.on_cover_sealed(
                    replies.subrange(0, i),
                    now,
                ).1 is Ok && (replies[i] matches CoverReply::Sealed(ticket, sealed)
                    && s.on_cover_sealed(replies.subrange(0, i), now).0.on_sealed(
                    ticket,
                    sealed_view(sealed),
                    now,
                ).1 == Err::<EventView, ManagerError>(e)),
        },
    decreases replies.len(),
{
    if replies.len() > 0 {
        let t = replies.drop_last();
        let n = replies.len() - 1;
        cover_round_is_all_or_nothing(s, t, now);
        assert(replies.subrange(0, n) =~= t);
        match s.on_cover_sealed(t, now).1 {
            Ok(_) => {
                assert(replies[n] == replies.last());
                assert(forall|i: int| 0 <= i < n ==> #[trigger] replies[i] == t[i]);
            },
            Err(e) => {
                let i = choose|i: int|
                    #![trigger t[i]]
                    0 <= i < t.len() && s.on_cover_sealed(t.subrange(0, i), now).1 is Ok && (
                    t[i] matches CoverReply::Sealed(ticket, sealed) && s.on_cover_sealed(
                        t.subrange(0, i),
                        now,
                    ).0.on_sealed(ticket, sealed_view(sealed), now).1 == Err::<
                        EventView,
                        ManagerError,
                    >(e));
                assert(t.subrange(0, i) =~= replies.subrange(0, i));
                assert(replies[i] == t[i]);
            },
        }
    }
}

/// At capacity the least recently active session makes room, and no other: a
/// session that sent or received later than another one stays before it.
pub proof fn least_active_session_makes_room(s: ServerManagerView, k: int)
    requires
        s.bounded(),
        s.sessions.len() >= s.limits.max_sessions,
        0 <= k < s.sessions.len(),
    ensures
        ({
            let gone = s.sessions[least_recent(s.sessions)];
            &&& gone.last_activity.nanos() <= s.sessions[k].last_activity.nanos()
            &&& s.with_room().closed == s.closed.push((sid_of(gone), CloseReason::Capacity))
            &&& s.with_room().sessions.contains(s.sessions[k]) <==> sid_of(s.sessions[k])
                != sid_of(gone)
        }),
{
    lemma_least_recent(s.sessions);
    let m = least_recent(s.sessions);
    let r = s.sessions.remove(m);
    if k != m {
        let j = if k > m {
            k - 1
        } else {
            k
        };
        assert(r[j] == s.sessions[k]);
    } else if r.contains(s.sessions[k]) {
        let j = choose|j: int| 0 <= j < r.len() && r[j] == s.sessions[k];
        let i = if j >= m {
            j + 1
        } else {
            j
        };
        assert(sid_of(s.sessions[i]) == sid_of(s.sessions[m]));
    }
}

proof fn lemma_expired(s: Seq<EntryView>, l: SessionLimits, now: Instant)
    ensures
        forall|i: int|
            0 <= i < s.len() && !keeps(l, now)(#[trigger] s[i]) ==> expired(s, l, now).contains(
                (
                    sid_of(s[i]),
                    if within(l.lifetime_cap, now, s[i].established_at) {
                        CloseReason::IdleTimeout
                    } else {
                        CloseReason::LifetimeCap
                    },
                ),
            ),
        forall|c: Closure| #[trigger]
            expired(s, l, now).contains(c) ==> exists|i: int|
                0 <= i < s.len() && sid_of(#[trigger] s[i]) == c.0 && !keeps(l, now)(s[i]),
    decreases s.len(),
{
    if s.len() > 0 {
        let t = s.drop_last();
        lemma_expired(t, l, now);
        let rest = expired(t, l, now);
        let all = expired(s, l, now);
        let n = s.len() - 1;
        assert forall|i: int| 0 <= i < s.len() && !keeps(l, now)(#[trigger] s[i]) implies {
            let reason = if within(l.lifetime_cap, now, s[i].established_at) {
                CloseReason::IdleTimeout
            } else {
                CloseReason::LifetimeCap
            };
            all.contains((sid_of(s[i]), reason))
        } by {
            if i < n {
                assert(t[i] == s[i]);
                let reason = if within(l.lifetime_cap, now, s[i].established_at) {
                    CloseReason::IdleTimeout
                } else {
                    CloseReason::LifetimeCap
                };
                assert(rest.contains((sid_of(s[i]), reason)));
                let k = choose|k: int| 0 <= k < rest.len() && rest[k] == (sid_of(s[i]), reason);
                assert(all[k] == rest[k]);
            } else {
                assert(all[rest.len() as int] == all.last());
            }
        }
        assert forall|c: Closure| #[trigger] all.contains(c) implies exists|i: int|
            0 <= i < s.len() && sid_of(#[trigger] s[i]) == c.0 && !keeps(l, now)(s[i]) by {
            let k = choose|k: int| 0 <= k < all.len() && all[k] == c;
            if k < rest.len() {
                assert(rest[k] == c);
                assert(rest.contains(c));
                let i = choose|i: int|
                    0 <= i < t.len() && sid_of(#[trigger] t[i]) == c.0 && !keeps(l, now)(t[i]);
                assert(s[i] == t[i]);
            } else {
                assert(sid_of(s[n]) == c.0);
            }
        }
    }
}

/// A tick removes exactly the sessions that are idle for too long or too old,
/// and reports each of them with its reason; every other session stays as it
/// is.
pub proof fn tick_removes_exactly_the_expired(s: ServerManagerView, k: int, now: Instant)
    requires
        s.bounded(),
        0 <= k < s.sessions.len(),
    ensures
        ({
            let e = s.sessions[k];
            let idle = !within(s.limits.idle_timeout, now, e.last_receive);
            let old_age = !within(s.limits.lifetime_cap, now, e.established_at);
            let reported = expired(s.sessions, s.limits, now);
            &&& s.ticked(now).knows(sid_of(e)) <==> !idle && !old_age
            &&& !idle && !old_age ==> s.ticked(now).sessions.contains(e)
            &&& old_age ==> reported.contains((sid_of(e), CloseReason::LifetimeCap))
            &&& idle && !old_age ==> reported.contains((sid_of(e), CloseReason::IdleTimeout))
            &&& !idle && !old_age ==> forall|c: Closure| #[trigger]
                reported.contains(c) ==> c.0 != sid_of(e)
        }),
{
    let p = keeps(s.limits, now);
    let e = s.sessions[k];
    let f = s.sessions.filter(p);
    lemma_expired(s.sessions, s.limits, now);
    lemma_session_slot(f, sid_of(e));
    if p(e) {
        s.sessions.lemma_filter_contains(p, k);
        let j = choose|j: int| 0 <= j < f.len() && f[j] == e;
        assert(sid_of(f[j]) == sid_of(e));
    } else if s.ticked(now).knows(sid_of(e)) {
        let j = session_slot(f, sid_of(e));
        s.sessions.lemma_filter_pred(p, j);
        assert(f.contains(f[j]));
        s.sessions.lemma_filter_contains_rev(p, f[j]);
        let i = choose|i: int| 0 <= i < s.sessions.len() && s.sessions[i] == f[j];
        assert(i == k);
    }
}

/// A session that was removed is not brought back by late packets: packets of
/// an unknown session have no effect on the table.
pub proof fn closed_session_stays_closed(
    s: ServerManagerView,
    dg: Seq<u8>,
    sid: [u8; SESSION_ID_LEN],
    opened: Option<Seq<u8>>,
    from: PeerAddr,
    now: Instant,
)
    requires
        !s.knows(sid),
    ensures
        s.on_data(dg, sid, from, now).0.sessions == s.sessions,
        s.on_data(dg, sid, from, now).1 is Nothing,
        s.on_opened(dg, sid, opened, from, now) == (s, EventView::Nothing),
{
}

/// A source that has used up its failure tokens is not served until its window
/// is over, also when the failure limiter is full.
pub proof fn exhausted_source_is_dropped(
    s: ServerManagerView,
    dg: Seq<u8>,
    sid: [u8; SESSION_ID_LEN],
    from: PeerAddr,
    now: Instant,
)
    requires
        s.bounded(),
        has_bucket(s.gate, from),
        s.gate[slot(s.gate, from)].tokens == 0,
        elapsed(now, s.gate[slot(s.gate, from)].last_refill) < s.limits.fail_window.nanos(),
    ensures
        !s.passes(from, now),
        s.on_data(dg, sid, from, now).1 is Nothing,
        s.on_data(dg, sid, from, now).0.sessions == s.sessions,
{
    exhausted_source_waits_for_its_window(s.gate, from, now, s.limits.gate());
}

/// A source without failure tokens is not served: its packets are dropped
/// before anything is opened, valid or not.
pub proof fn gated_source_is_dropped(
    s: ServerManagerView,
    dg: Seq<u8>,
    sid: [u8; SESSION_ID_LEN],
    from: PeerAddr,
    now: Instant,
)
    requires
        !s.passes(from, now),
    ensures
        s.on_data(dg, sid, from, now).1 is Nothing,
        s.on_data(dg, sid, from, now).0.sessions == s.sessions,
{
}

/// The session identifier in a datagram.
pub open spec fn sid_at(dg: Seq<u8>) -> [u8; SESSION_ID_LEN] {
    choose|a: [u8; SESSION_ID_LEN]| #[trigger] a@ == dg.subrange(1, 9)
}

proof fn lemma_sid_at(dg: Seq<u8>, sid: [u8; SESSION_ID_LEN])
    requires
        sid@ == dg.subrange(1, 9),
    ensures
        sid_at(dg) == sid,
{
    lemma_array_ext(sid_at(dg), sid);
}

/// What handling a datagram leads to.
pub enum ManagerStep {
    Event(ManagerEvent),
    Authenticate(M1Auth),
    Decapsulate(M3Check),
    Open(OpenTicket),
}

/// What a checked confirmation leads to.
pub enum ConfirmStep {
    Event(ManagerEvent),
    /// Derive the traffic keys of this outcome, then hand both to
    /// [`ServerSessionManager::on_handshake_complete`].
    Establish(HandshakeOutcome, PeerAddr),
}

/// Server-side session manager.
pub struct ServerSessionManager {
    limits: SessionLimits,
    hs: ServerHandshake,
    sessions: Vec<SessionEntry>,
    fail_buckets: BucketTable,
    pending_closed: Vec<Closure>,
}

spec fn entry_views(s: Seq<SessionEntry>) -> Seq<EntryView> {
    Seq::new(s.len(), |i: int| s[i]@)
}

impl View for ServerSessionManager {
    type V = ServerManagerView;

    closed spec fn view(&self) -> ServerManagerView {
        ServerManagerView {
            limits: self.limits,
            hs: self.hs@,
            sessions: entry_views(self.sessions@),
            gate: self.fail_buckets@,
            closed: self.pending_closed@,
        }
    }
}

/// What a step has to be, given what a handshake datagram calls for.
pub open spec fn handshake_step_is(
    r: ManagerStep,
    reply: ServerReply,
    sid: Seq<u8>,
    from: PeerAddr,
) -> bool {
    match reply {
        ServerReply::Nothing => r matches ManagerStep::Event(e) && e@ is Nothing,
        ServerReply::Resend(d, to) => r matches ManagerStep::Event(e) && e@ == EventView::Send(
            d,
            to,
        ),
        ServerReply::Authenticate(m1) => r matches ManagerStep::Authenticate(a)
            && crate::handshake_v2::server::step_is(
            ServerStep::Authenticate(a),
            reply,
            sid,
            from,
        ),
        ServerReply::Decapsulate(m3) => r matches ManagerStep::Decapsulate(c)
            && crate::handshake_v2::server::step_is(ServerStep::Decapsulate(c), reply, sid, from),
    }
}

/// The counter of a session is used up.
pub open spec fn used_up(e: EntryView) -> bool {
    e.session.cipher.send_counter >= MAX_PACKET_NONCE
}

/// A cover packet of session `e`, or its closure if its counter is used up.
pub open spec fn cover_step_is(e: EntryView, r: SealStep) -> bool {
    match r {
        SealStep::Seal(t) => {
            &&& !used_up(e)
            &&& t.session() == sid_of(e)
            &&& !t.closes()
            &&& exists|fill: Seq<u8>|
                fill.len() == PAYLOAD_LEN && #[trigger] e.session.cipher.seals(
                    MessageType::Cover,
                    fill,
                    t.seal(),
                )
        },
        SealStep::Event(v) => used_up(e) && v@ == EventView::Closed(
            sid_of(e),
            CloseReason::NonceExhausted,
        ),
    }
}

/// Identifiers in strictly ascending byte order.
pub open spec fn ascending(s: Seq<[u8; SESSION_ID_LEN]>) -> bool {
    forall|i: int, j: int|
        0 <= i < j < s.len() ==> be_value((#[trigger] s[i])@) < be_value((#[trigger] s[j])@)
}

/// `sids` are the identifiers of the sessions `s`.
pub open spec fn lists(sids: Seq<[u8; SESSION_ID_LEN]>, s: Seq<EntryView>) -> bool {
    &&& sids.len() == s.len()
    &&& forall|e: EntryView| #[trigger] s.contains(e) ==> sids.contains(sid_of(e))
    &&& forall|x: [u8; SESSION_ID_LEN]| #[trigger]
        sids.contains(x) ==> session_slot(s, x) < s.len()
}

/// `steps` ask for one cover packet on each of the sessions `sids` of `s`, or
/// report its closure.
pub open spec fn covers(
    steps: Seq<SealStep>,
    sids: Seq<[u8; SESSION_ID_LEN]>,
    s: ServerManagerView,
) -> bool {
    &&& steps.len() == sids.len()
    &&& forall|i: int|
        0 <= i < steps.len() ==> cover_step_is(s.sessions[s.slot(sids[i])], #[trigger] steps[i])
}

/// One more identifier is inserted into a sorted list.
proof fn lemma_sorted_insert(
    sids: Seq<[u8; SESSION_ID_LEN]>,
    s: Seq<EntryView>,
    i: int,
    at: int,
)
    requires
        sessions_distinct(s),
        0 <= i < s.len(),
        ascending(sids),
        lists(sids, s.subrange(0, i)),
        0 <= at <= sids.len(),
        forall|j: int|
            0 <= j < at ==> be_value((#[trigger] sids[j])@) < be_value(sid_of(s[i])@),
        at < sids.len() ==> be_value(sids[at]@) >= be_value(sid_of(s[i])@),
    ensures
        ascending(sids.insert(at, sid_of(s[i]))),
        lists(sids.insert(at, sid_of(s[i])), s.subrange(0, i + 1)),
{
    let sid = sid_of(s[i]);
    let p = s.subrange(0, i);
    let q = s.subrange(0, i + 1);
    let t = sids.insert(at, sid);
    assert forall|j: int| 0 <= j < sids.len() implies be_value((#[trigger] sids[j])@) != be_value(
        sid@,
    ) by {
        assert(sids.contains(sids[j]));
        let k = session_slot(p, sids[j]);
        lemma_session_slot(p, sids[j]);
        assert(sid_of(s[k]) != sid_of(s[i]));
        if be_value(sids[j]@) == be_value(sid@) {
            lemma_be_bytes_of_value(sids[j]@);
            lemma_be_bytes_of_value(sid@);
            lemma_array_ext(sids[j], sid);
        }
    }
    assert forall|a: int, b: int| 0 <= a < b < t.len() implies be_value((#[trigger] t[a])@)
        < be_value((#[trigger] t[b])@) by {
        let a2 = if a > at {
            a - 1
        } else {
            a
        };
        let b2 = if b > at {
            b - 1
        } else {
            b
        };
        if a != at && b != at {
            assert(be_value(sids[a2]@) < be_value(sids[b2]@));
        } else if a == at {
            assert(be_value(sids[at]@) > be_value(sid@));
            if b2 > at {
                assert(be_value(sids[at]@) < be_value(sids[b2]@));
            }
        } else {
            assert(be_value(sids[a]@) < be_value(sid@));
        }
    }
    assert forall|e: EntryView| #[trigger] q.contains(e) implies t.contains(sid_of(e)) by {
        let m = choose|m: int| 0 <= m < q.len() && q[m] == e;
        if m == i {
            assert(t[at] == sid);
        } else {
            assert(p[m] == e);
            assert(p.contains(e));
            let j = choose|j: int| 0 <= j < sids.len() && sids[j] == sid_of(e);
            if j < at {
                assert(t[j] == sids[j]);
            } else {
                assert(t[j + 1] == sids[j]);
            }
        }
    }
    assert forall|x: [u8; SESSION_ID_LEN]| #[trigger] t.contains(x) implies session_slot(q, x)
        < q.len() by {
        let j = choose|j: int| 0 <= j < t.len() && t[j] == x;
        assert(q.drop_last() =~= p);
        lemma_session_slot(p, x);
        if j == at {
            assert(q.last() == s[i]);
        } else {
            let j2 = if j > at {
                j - 1
            } else {
                j
            };
            assert(sids[j2] == x);
            assert(sids.contains(x));
        }
    }
}

/// A session whose turn has not come yet is still in the table, as it was.
proof fn lemma_next_to_cover(
    start: ServerManagerView,
    mid: ServerManagerView,
    sids: Seq<[u8; SESSION_ID_LEN]>,
    i: int,
)
    requires
        start.bounded(),
        mid.bounded(),
        ascending(sids),
        lists(sids, start.sessions),
        0 <= i < sids.len(),
        forall|e: EntryView| #[trigger]
            mid.sessions.contains(e) <==> start.sessions.contains(e) && !(used_up(e)
                && sids.subrange(0, i).contains(sid_of(e))),
    ensures
        mid.knows(sids[i]),
        mid.sessions[mid.slot(sids[i])] == start.sessions[start.slot(sids[i])],
{
    let sid = sids[i];
    assert(sids.contains(sid));
    let k = start.slot(sid);
    lemma_session_slot(start.sessions, sid);
    let e = start.sessions[k];
    assert(start.sessions.contains(e));
    if sids.subrange(0, i).contains(sid) {
        let j = choose|j: int| 0 <= j < i && sids.subrange(0, i)[j] == sid;
        assert(be_value(sids[j]@) < be_value(sids[i]@));
    }
    assert(mid.sessions.contains(e));
    let m = choose|m: int| 0 <= m < mid.sessions.len() && mid.sessions[m] == e;
    lemma_session_slot(mid.sessions, sid);
    let n = mid.slot(sid);
    assert(n <= m);
    if n < m {
        assert(sid_of(mid.sessions[n]) != sid_of(mid.sessions[m]));
    }
}

/// The table after the turn of one more session.
proof fn lemma_covered(
    start: ServerManagerView,
    mid: ServerManagerView,
    end: ServerManagerView,
    sids: Seq<[u8; SESSION_ID_LEN]>,
    i: int,
)
    requires
        start.bounded(),
        mid.bounded(),
        ascending(sids),
        lists(sids, start.sessions),
        0 <= i < sids.len(),
        forall|e: EntryView| #[trigger]
            mid.sessions.contains(e) <==> start.sessions.contains(e) && !(used_up(e)
                && sids.subrange(0, i).contains(sid_of(e))),
        end == if used_up(mid.sessions[mid.slot(sids[i])]) {
            mid.without(mid.slot(sids[i]))
        } else {
            mid
        },
    ensures
        forall|e: EntryView| #[trigger]
            end.sessions.contains(e) <==> start.sessions.contains(e) && !(used_up(e)
                && sids.subrange(0, i + 1).contains(sid_of(e))),
{
    lemma_next_to_cover(start, mid, sids, i);
    let sid = sids[i];
    let k = mid.slot(sid);
    lemma_session_slot(mid.sessions, sid);
    lemma_remove_bounded(mid, k);
    let gone = mid.sessions[k];
    let a = sids.subrange(0, i);
    let b = sids.subrange(0, i + 1);
    assert(b =~= a.push(sid));
    assert forall|e: EntryView| #[trigger]
        end.sessions.contains(e) <==> start.sessions.contains(e) && !(used_up(e) && b.contains(
            sid_of(e),
        )) by {
        assert(b.contains(sid_of(e)) <==> a.contains(sid_of(e)) || sid_of(e) == sid) by {
            if a.contains(sid_of(e)) {
                let j = choose|j: int| 0 <= j < a.len() && a[j] == sid_of(e);
                assert(b[j] == sid_of(e));
            }
            if sid_of(e) == sid {
                assert(b[i] == sid);
            }
            if b.contains(sid_of(e)) && sid_of(e) != sid {
                let j = choose|j: int| 0 <= j < b.len() && b[j] == sid_of(e);
                assert(a[j] == sid_of(e));
            }
        }
        if mid.sessions.contains(e) && sid_of(e) == sid {
            let m = choose|m: int| 0 <= m < mid.sessions.len() && mid.sessions[m] == e;
            if m < k {
                assert(sid_of(mid.sessions[m]) != sid_of(mid.sessions[k]));
            } else if k < m {
                assert(sid_of(mid.sessions[k]) != sid_of(mid.sessions[m]));
            }
            assert(e == gone);
        }
        assert(mid.sessions.contains(gone));
        assert(mid.sessions.contains(e) <==> start.sessions.contains(e) && !(used_up(e)
            && a.contains(sid_of(e))));
        if used_up(gone) {
            let t = mid.sessions.remove(k);
            assert(end.sessions == t);
            if t.contains(e) {
                let m = choose|m: int| 0 <= m < t.len() && t[m] == e;
                assert(sid_of(mid.without(k).sessions[m]) != sid_of(gone));
                if m < k {
                    assert(mid.sessions[m] == e);
                } else {
                    assert(mid.sessions[m + 1] == e);
                }
            } else if mid.sessions.contains(e) && sid_of(e) != sid {
                let m = choose|m: int| 0 <= m < mid.sessions.len() && mid.sessions[m] == e;
                if m < k {
                    assert(t[m] == e);
                } else {
                    assert(t[m - 1] == e);
                }
            }
        }
    }
}

/// A consistent manager keeps its resource bounds, and so does its handshake
/// machine.
pub proof fn server_manager_is_bounded(m: ServerSessionManager)
    requires
        m.wf(),
    ensures
        m@.bounded(),
        m@.hs.bounded(),
{
    server_machine_is_bounded(m.hs);
}

impl ServerSessionManager {
    /// Internal consistency.
    pub closed spec fn wf(self) -> bool {
        self.hs.wf() && self@.bounded()
    }

    /// Creates a manager. The version is checked first, then that there is a
    /// roster.
    pub fn new(cfg: &ServerConfig, limits: SessionLimits) -> (r: Result<Self, ManagerError>)
        ensures
            match r {
                Ok(m) => {
                    &&& cfg.version == PROTOCOL_VERSION
                    &&& cfg.roster@.len() > 0
                    &&& m.wf()
                    &&& m@ == (ServerManagerView {
                        limits,
                        hs: ServerView {
                            cfg: cfg@,
                            pending: Seq::empty(),
                            buckets: Seq::empty(),
                        },
                        sessions: Seq::empty(),
                        gate: Seq::empty(),
                        closed: Seq::empty(),
                    })
                },
                Err(e) => e matches ManagerError::InvalidConfig(t) && if cfg.version
                    != PROTOCOL_VERSION {
                    t@ == unsupported_version(cfg.version)
                } else {
                    cfg.roster@.len() == 0 && t@ == "roster must not be empty (fail closed)"@
                },
            },
    {
        if cfg.version != PROTOCOL_VERSION {
            return Err(ManagerError::InvalidConfig(unsupported_version_text(cfg.version)));
        }
        if cfg.roster.len() == 0 {
            return Err(
                ManagerError::InvalidConfig(
                    String::from_str("roster must not be empty (fail closed)"),
                ),
            );
        }
        let m = ServerSessionManager {
            limits,
            hs: ServerHandshake::new(cfg),
            sessions: Vec::new(),
            fail_buckets: BucketTable::new(),
            pending_closed: Vec::new(),
        };
        assert(m@.sessions =~= Seq::empty());
        assert(m@.closed =~= Seq::empty());
        Ok(m)
    }

    /// Number of established sessions.
    pub fn session_count(&self) -> (r: usize)
        ensures
            r == self@.sessions.len(),
    {
        self.sessions.len()
    }

    /// Number of pending handshakes.
    pub fn pending_handshakes(&self) -> (r: usize)
        ensures
            r == self@.hs.pending.len(),
    {
        self.hs.pending_len()
    }

    /// Number of buckets of the failure gate.
    pub fn fail_bucket_count(&self) -> (r: usize)
        ensures
            r == self@.gate.len(),
    {
        self.fail_buckets.len()
    }

    /// The keys against which client signatures are verified.
    pub fn roster(&self) -> (r: &[MlDsaPublicKey])
        ensures
            r@ == self@.hs.cfg.roster,
    {
        self.hs.roster()
    }

    /// The handshake machine.
    pub fn handshake(&self) -> (r: &ServerHandshake)
        ensures
            r@ == self@.hs,
    {
        &self.hs
    }

    fn find(&self, sid: &[u8; SESSION_ID_LEN]) -> (r: usize)
        ensures
            r == self@.slot(*sid),
            r <= self.sessions@.len(),
            r < self.sessions@.len() ==> sid_of(self.sessions@[r as int]@) == *sid,
            self@.knows(*sid) <==> r < self.sessions@.len(),
    {
        let ghost s = self@.sessions;
        let mut i: usize = 0;
        while i < self.sessions.len()
            invariant
                i <= self.sessions@.len(),
                s == entry_views(self.sessions@),
                forall|j: int| 0 <= j < i ==> sid_of(#[trigger] s[j]) != *sid,
            decreases self.sessions@.len() - i,
        {
            assert(s[i as int] == self.sessions@[i as int]@);
            if arrays_eq(self.sessions[i].session.session_id(), sid) {
                proof {
                    lemma_session_slot(s, *sid);
                }
                return i;
            }
            i += 1;
        }
        proof {
            lemma_session_slot(s, *sid);
        }
        i
    }

    /// Counts a failure of a source.
    fn fail_gate_consume(&mut self, from: PeerAddr)
        requires
            old(self).wf(),
        ensures
            final(self).wf(),
            final(self)@ == old(self)@.failed(from),
    {
        proof {
            lemma_spent(self.fail_buckets@, from);
        }
        self.fail_buckets.consume(from);
    }

    /// Whether a packet of a source may be opened. No token is taken.
    fn fail_gate_peek(&mut self, from: PeerAddr, now: Instant) -> (r: bool)
        requires
            old(self).wf(),
        ensures
            final(self).wf(),
            final(self)@ == old(self)@.gated(from, now),
            r == old(self)@.passes(from, now),
    {
        if self.limits.max_fail_buckets == 0 {
            return false;
        }
        let l = BucketLimits {
            burst: self.limits.fail_burst,
            window: self.limits.fail_window,
            cap: self.limits.max_fail_buckets,
        };
        proof {
            lemma_gate_bounded(self@, from, now);
        }
        self.fail_buckets.peek(from, now, &l)
    }

    /// Processes a received datagram.
    pub fn handle_datagram(&mut self, pkt: &WirePacket, from: PeerAddr, now: Instant) -> (r:
        ManagerStep)
        requires
            old(self).wf(),
        ensures
            final(self).wf(),
            if known_type(pkt@[9]) {
                let out = old(self)@.hs.on_datagram(pkt@, from, now);
                &&& final(self)@ == old(self)@.with_hs(out.0)
                &&& handshake_step_is(r, out.1, pkt@.subrange(1, 9), from)
            } else {
                let sid = sid_at(pkt@);
                let out = old(self)@.on_data(pkt@, sid, from, now);
                &&& final(self)@ == out.0
                &&& match out.1 {
                    DataReply::Nothing => r matches ManagerStep::Event(e) && e@ is Nothing,
                    DataReply::Open => {
                        &&& r matches ManagerStep::Open(t)
                        &&& t.packet() == pkt@
                        &&& t.source() == from
                        &&& old(self)@.sessions[old(self)@.slot(sid)].session.cipher.opens(
                            pkt@,
                            t.open(),
                        )
                    },
                }
            },
    {
        if is_handshake_fragment(pkt) {
            match self.hs.handle_datagram(pkt, from, now) {
                ServerStep::Event(ServerEvent::Emit(packets, peer)) => ManagerStep::Event(
                    ManagerEvent::Send { packets, peer },
                ),
                ServerStep::Event(_) => ManagerStep::Event(ManagerEvent::Nothing),
                ServerStep::Authenticate(a) => ManagerStep::Authenticate(a),
                ServerStep::Decapsulate(c) => ManagerStep::Decapsulate(c),
            }
        } else {
            self.on_data_packet(pkt, from, now)
        }
    }

    fn on_data_packet(&mut self, pkt: &WirePacket, from: PeerAddr, now: Instant) -> (r: ManagerStep)
        requires
            old(self).wf(),
        ensures
            final(self).wf(),
            ({
                let sid = sid_at(pkt@);
                let out = old(self)@.on_data(pkt@, sid, from, now);
                &&& final(self)@ == out.0
                &&& match out.1 {
                    DataReply::Nothing => r matches ManagerStep::Event(e) && e@ is Nothing,
                    DataReply::Open => {
                        &&& r matches ManagerStep::Open(t)
                        &&& t.packet() == pkt@
                        &&& t.source() == from
                        &&& old(self)@.sessions[old(self)@.slot(sid)].session.cipher.opens(
                            pkt@,
                            t.open(),
                        )
                    },
                }
            }),
    {
        if !self.fail_gate_peek(from, now) {
            return ManagerStep::Event(ManagerEvent::Nothing);
        }
        let bytes: &[u8] = &pkt.bytes;
        let sid: [u8; SESSION_ID_LEN] = take_array(bytes, 1);
        proof {
            lemma_sid_at(pkt@, sid);
        }
        let k: usize = self.find(&sid);
        if k == self.sessions.len() {
            return ManagerStep::Event(ManagerEvent::Nothing);
        }
        assert(self@.sessions[k as int] == self.sessions@[k as int]@);
        match self.sessions[k].session.open_request(pkt) {
            Ok(request) => ManagerStep::Open(OpenTicket::make(pkt.duplicate(), from, request)),
            Err(_) => {
                self.fail_gate_consume(from);
                ManagerStep::Event(ManagerEvent::Nothing)
            },
        }
    }

    /// Resumes with what the opening of a packet gave, `None` if it did not
    /// authenticate.
    pub fn on_opened(&mut self, ticket: OpenTicket, opened: Option<Vec<u8>>, now: Instant) -> (r:
        ManagerEvent)
        requires
            old(self).wf(),
        ensures
            final(self).wf(),
            ({
                let pt = match opened {
                    Some(v) => Some(v@),
                    None => None,
                };
                let out = old(self)@.on_opened(
                    ticket.packet(),
                    sid_at(ticket.packet()),
                    pt,
                    ticket.source(),
                    now,
                );
                final(self)@ == out.0 && r@ == out.1
            }),
    {
        let from = ticket.from();
        let pkt = ticket.wire();
        let bytes: &[u8] = &pkt.bytes;
        let sid: [u8; SESSION_ID_LEN] = take_array(bytes, 1);
        let ghost pt = match &opened {
            Some(v) => Some(v@),
            None => None,
        };
        let ghost start = self@;
        proof {
            lemma_sid_at(pkt@, sid);
            lemma_session_slot(start.sessions, sid);
        }
        let k: usize = self.find(&sid);
        if k == self.sessions.len() {
            return ManagerEvent::Nothing;
        }
        let ghost e0 = start.sessions[k as int];
        let ghost out = e0.session.decrypted(pkt@, pt);
        let ghost before = self.sessions@;
        assert(e0 == self.sessions@[k as int]@);
        proof {
            assert(e0.session.state == ProtocolState::Established);
            assert(e0.session.cipher.session_id == sid_of(e0));
            crate::envelope::receive_errors_are_uniform(e0.session.cipher, pkt@, pt);
        }
        let mut entry = self.take_out(k);
        let result = entry.session.decrypt(pkt, opened);
        match result {
            Ok(inner) => {
                entry.last_receive = now;
                entry.last_activity = now;
                entry.peer = from;
                self.put_back(k, entry, Ghost(start), Ghost(before));
                assert(inner.encoding()[0] == inner.msg_type.code());
                match inner.msg_type {
                    MessageType::Data => ManagerEvent::AppData { sid, inner },
                    MessageType::Cover => ManagerEvent::Nothing,
                    MessageType::Close => {
                        let _ = self.take_out(k);
                        assert(self@.sessions =~= start.without(k as int).sessions);
                        ManagerEvent::Closed { sid, reason: CloseReason::PeerClosed }
                    },
                    MessageType::Handshake => {
                        self.fail_gate_consume(from);
                        ManagerEvent::Nothing
                    },
                }
            },
            Err(SessionError::RekeyRequired) => {
                ManagerEvent::Closed { sid, reason: CloseReason::NonceExhausted }
            },
            Err(_) => {
                self.put_back(k, entry, Ghost(start), Ghost(before));
                self.fail_gate_consume(from);
                ManagerEvent::Nothing
            },
        }
    }

    /// Takes a session out of the table.
    fn take_out(&mut self, k: usize) -> (r: SessionEntry)
        requires
            old(self).wf(),
            k < old(self).sessions@.len(),
        ensures
            final(self).wf(),
            final(self).sessions@ == old(self).sessions@.remove(k as int),
            final(self)@ == old(self)@.without(k as int),
            r == old(self).sessions@[k as int],
    {
        let ghost before = self@;
        let r = self.sessions.remove(k);
        proof {
            assert(entry_views(self.sessions@) =~= before.sessions.remove(k as int));
            lemma_remove_bounded(before, k as int);
        }
        r
    }

    /// Puts a session that was taken out back in its place.
    fn put_back(
        &mut self,
        k: usize,
        entry: SessionEntry,
        Ghost(start): Ghost<ServerManagerView>,
        Ghost(before): Ghost<Seq<SessionEntry>>,
    )
        requires
            old(self).hs.wf(),
            start.bounded(),
            start.sessions == entry_views(before),
            k < before.len(),
            old(self).sessions@ == before.remove(k as int),
            old(self)@ == start.without(k as int),
            sid_of(entry@) == sid_of(start.sessions[k as int]),
            entry@.session.state == ProtocolState::Established,
            entry@.session.cipher.session_id == sid_of(entry@),
        ensures
            final(self).wf(),
            final(self)@ == start.with_session(k as int, entry@),
    {
        self.sessions.insert(k, entry);
        proof {
            assert(self.sessions@ =~= before.update(k as int, entry));
            assert(entry_views(self.sessions@) =~= start.sessions.update(k as int, entry@));
            lemma_update_bounded(start, k as int, entry@);
        }
    }

    /// Resumes with the verdicts on a client signature; a client that no key
    /// of the roster knows is dropped.
    pub fn on_authenticated(
        &mut self,
        auth: M1Auth,
        verdicts: Result<Vec<bool>, CryptoError>,
    ) -> (r: Result<Option<M1Respond>, ManagerError>)
        requires
            old(self).wf(),
        ensures
            final(self).wf(),
            match verdicts {
                Err(e) => final(self)@ == old(self)@ && r == Err::<
                    Option<M1Respond>,
                    ManagerError,
                >(ManagerError::Handshake(HandshakeV2Error::Crypto(e))),
                Ok(v) => match matched(old(self)@.hs.cfg.roster, v@) {
                    None => final(self)@ == old(self)@.with_hs(
                        old(self)@.hs.forgotten(auth.session()),
                    ) && (r matches Ok(q) && q is None),
                    Some(key) => {
                        &&& final(self)@ == old(self)@
                        &&& r matches Ok(Some(q))
                        &&& q.session() == auth.session()
                        &&& q.source() == auth.source()
                        &&& q.hello() == auth.hello()
                        &&& q.identity() == key
                    },
                },
            },
    {
        match self.hs.on_authenticated(auth, verdicts) {
            Ok(AuthStep::Respond(q)) => Ok(Some(q)),
            Ok(AuthStep::Event(_)) => Ok(None),
            Err(e) => Err(ManagerError::Handshake(e)),
        }
    }

    /// Resumes with fresh keys for a client.
    pub fn on_keys(&self, request: M1Respond, reply: Result<ServerKeys, CryptoError>) -> (r: Result<
        M2Sign,
        ManagerError,
    >)
        ensures
            match reply {
                Err(e) => r == Err::<M2Sign, ManagerError>(
                    ManagerError::Handshake(HandshakeV2Error::Crypto(e)),
                ),
                Ok(keys) => r matches Ok(q) && crate::handshake_v2::server::answers(
                    self@.hs,
                    request,
                    keys,
                    q,
                ),
            },
    {
        match self.hs.on_keys(request, reply) {
            Ok(q) => Ok(q),
            Err(e) => Err(ManagerError::Handshake(e)),
        }
    }

    /// Resumes with the signature of the answer.
    pub fn on_signed(
        &mut self,
        request: M2Sign,
        signature: Result<MlDsaSignature, CryptoError>,
        now: Instant,
    ) -> (r: Result<ManagerEvent, ManagerError>)
        requires
            old(self).wf(),
        ensures
            final(self).wf(),
            match signature {
                Err(e) => final(self)@ == old(self)@ && r == Err::<ManagerEvent, ManagerError>(
                    ManagerError::Handshake(HandshakeV2Error::Crypto(e)),
                ),
                Ok(sig) => if crate::handshake_v2::server::pending_slot(
                    old(self)@.hs.pending,
                    request.session(),
                ) < old(self)@.hs.pending.len() {
                    &&& final(self)@ == old(self)@.with_hs(
                        old(self)@.hs.answered(request.session(), request.confirm(sig), now),
                    )
                    &&& r matches Ok(v) && v@ == EventView::Send(
                        crate::handshake_v2::fragment::fragments(
                            crate::handshake_v2::fragment::HS_TYPE_SERVER_HELLO,
                            request.wire_version(),
                            request.session(),
                            request.confirm(sig).m2,
                        ),
                        request.source(),
                    )
                } else {
                    final(self)@ == old(self)@ && (r matches Ok(v) && v@ is Nothing)
                },
            },
    {
        match self.hs.on_signed(request, signature, now) {
            Ok(ServerEvent::Emit(packets, peer)) => Ok(ManagerEvent::Send { packets, peer }),
            Ok(_) => Ok(ManagerEvent::Nothing),
            Err(e) => Err(ManagerError::Handshake(e)),
        }
    }

    /// Resumes with the decapsulated secret of a confirmation.
    pub fn on_decapsulated(
        &mut self,
        check: M3Check,
        secret: Result<SharedSecret, CryptoError>,
        now: Instant,
    ) -> (r: Result<ConfirmStep, ManagerError>)
        requires
            old(self).wf(),
        ensures
            final(self).wf(),
            match secret {
                Err(e) => final(self)@ == old(self)@ && r == Err::<ConfirmStep, ManagerError>(
                    ManagerError::Handshake(HandshakeV2Error::Crypto(e)),
                ),
                Ok(ss_b) => {
                    let out = old(self)@.hs.on_decapsulated(
                        check.confirm(),
                        ss_b@,
                        check.source(),
                        now,
                    );
                    &&& final(self)@ == old(self)@.with_hs(out.0)
                    &&& match out.1 {
                        Some(v) => r matches Ok(ConfirmStep::Establish(o, from)) && o@ == v && from
                            == check.source(),
                        None => r matches Ok(ConfirmStep::Event(v)) && v@ is Nothing,
                    }
                },
            },
    {
        let from = check.from();
        match self.hs.on_decapsulated(check, secret, now) {
            Ok(ServerEvent::Complete(o)) => Ok(ConfirmStep::Establish(o, from)),
            Ok(_) => Ok(ConfirmStep::Event(ManagerEvent::Nothing)),
            Err(e) => Err(ManagerError::Handshake(e)),
        }
    }

    /// Establishes the session of a completed handshake. An identifier in use
    /// is never taken over; at capacity the least recently active session makes
    /// room.
    pub fn on_handshake_complete(
        &mut self,
        outcome: HandshakeOutcome,
        from: PeerAddr,
        keys: Result<TrafficKeys, CryptoError>,
        now: Instant,
    ) -> (r: Result<ManagerEvent, ManagerError>)
        requires
            old(self).wf(),
        ensures
            final(self).wf(),
            if old(self)@.knows(outcome.session_id) {
                final(self)@ == old(self)@ && (r matches Ok(v) && v@ is Nothing)
            } else {
                match keys {
                    Ok(k) => {
                        &&& final(self)@ == old(self)@.with_room().joined(
                            outcome.session_id,
                            k,
                            from,
                            now,
                        )
                        &&& r matches Ok(v) && v@ == EventView::Established(
                            outcome.session_id,
                            from,
                        )
                    },
                    Err(e) => {
                        &&& final(self)@ == old(self)@.with_room()
                        &&& r == Err::<ManagerEvent, ManagerError>(
                            ManagerError::Session(SessionError::Codec(CodecError::Crypto(e))),
                        )
                    },
                }
            },
    {
        let sid = outcome.session_id;
        let ghost start = self@;
        if self.find(&sid) < self.sessions.len() {
            return Ok(ManagerEvent::Nothing);
        }
        if self.sessions.len() >= self.limits.max_sessions && self.sessions.len() > 0 {
            self.evict_least_recent();
        }
        let ghost room = self@;
        let session = match WireSession::established(Role::Server, &outcome, keys, now) {
            Ok(s) => s,
            Err(e) => return Err(ManagerError::Session(e)),
        };
        let entry = SessionEntry {
            session,
            peer: from,
            last_receive: now,
            last_activity: now,
            established_at: now,
        };
        self.sessions.push(entry);
        proof {
            assert(entry_views(self.sessions@) =~= room.sessions.push(entry@));
            server_stays_bounded(start, Seq::empty(), sid, None, keys->Ok_0, from, now);
        }
        Ok(ManagerEvent::Established { sid, peer: from })
    }

    fn evict_least_recent(&mut self)
        requires
            old(self).wf(),
            old(self)@.sessions.len() > 0,
            old(self)@.sessions.len() >= old(self)@.limits.max_sessions,
        ensures
            final(self).wf(),
            final(self)@ == old(self)@.with_room(),
    {
        let n: usize = self.sessions.len();
        let mut best: usize = 0;
        let mut i: usize = 1;
        let ghost s = self@.sessions;
        proof {
            assert(s.subrange(0, 1).len() == 1);
        }
        while i < n
            invariant
                1 <= i <= n,
                n == s.len(),
                s == entry_views(self.sessions@),
                best < i,
                best == least_recent(s.subrange(0, i as int)),
            decreases n - i,
        {
            let ghost t = s.subrange(0, i + 1);
            proof {
                assert(t.drop_last() =~= s.subrange(0, i as int));
                assert(t.last() == s[i as int]);
                assert(t[best as int] == s[best as int]);
                assert(s[i as int] == self.sessions@[i as int]@);
                assert(s[best as int] == self.sessions@[best as int]@);
            }
            if !not_before(self.sessions[i].last_activity, self.sessions[best].last_activity) {
                best = i;
            }
            i += 1;
        }
        assert(s.subrange(0, n as int) =~= s);
        assert(s[best as int] == self.sessions@[best as int]@);
        let stale: [u8; SESSION_ID_LEN] = *self.sessions[best].session.session_id();
        let _ = self.take_out(best);
        self.pending_closed.push((stale, CloseReason::Capacity));
    }

    /// Pads a payload and asks for its sealing as application data.
    pub fn app_outbound(&mut self, sid: &[u8; SESSION_ID_LEN], payload: &[u8]) -> (r: Result<
        SealStep,
        ManagerError,
    >)
        requires
            old(self).wf(),
        ensures
            final(self).wf(),
            if payload@.len() > PAYLOAD_LEN {
                final(self)@ == old(self)@ && r == Err::<SealStep, ManagerError>(
                    ManagerError::Session(
                        SessionError::Codec(
                            CodecError::WrongLength {
                                field: "payload",
                                expected: PAYLOAD_LEN,
                                got: payload@.len() as usize,
                            },
                        ),
                    ),
                )
            } else if !old(self)@.knows(*sid) {
                final(self)@ == old(self)@ && r == Err::<SealStep, ManagerError>(
                    ManagerError::NoSession,
                )
            } else {
                let k = old(self)@.slot(*sid);
                let e = old(self)@.sessions[k];
                if used_up(e) {
                    &&& final(self)@ == old(self)@.without(k)
                    &&& r matches Ok(SealStep::Event(v)) && v@ == EventView::Closed(
                        *sid,
                        CloseReason::NonceExhausted,
                    )
                } else {
                    &&& final(self)@ == old(self)@
                    &&& r matches Ok(SealStep::Seal(t)) && t.session() == *sid && !t.closes()
                        && e.session.cipher.seals(MessageType::Data, padded(payload@), t.seal())
                }
            },
    {
        if payload.len() > PAYLOAD_LEN {
            return Err(
                ManagerError::Session(
                    SessionError::Codec(
                        CodecError::WrongLength {
                            field: "payload",
                            expected: PAYLOAD_LEN,
                            got: payload.len(),
                        },
                    ),
                ),
            );
        }
        let mut slot = [0u8; PAYLOAD_LEN];
        write_at(&mut slot, 0, payload);
        assert(slot@ =~= padded(payload@));
        let k: usize = self.find(sid);
        if k == self.sessions.len() {
            return Err(ManagerError::NoSession);
        }
        let ghost start = self@;
        let ghost before = self.sessions@;
        let ghost e0 = start.sessions[k as int];
        assert(e0 == self.sessions@[k as int]@);
        proof {
            assert(e0.session.state == ProtocolState::Established);
            assert(e0.session.cipher.session_id == sid_of(e0));
        }
        let mut entry = self.take_out(k);
        match entry.session.seal_request(MessageType::Data, &slot) {
            Ok(request) => {
                self.put_back(k, entry, Ghost(start), Ghost(before));
                assert(self@.sessions =~= start.sessions);
                Ok(SealStep::Seal(SealTicket::make(*sid, request, false)))
            },
            Err(SessionError::RekeyRequired) => {
                Ok(
                    SealStep::Event(
                        ManagerEvent::Closed { sid: *sid, reason: CloseReason::NonceExhausted },
                    ),
                )
            },
            Err(e) => {
                assert(false);
                Err(ManagerError::Session(e))
            },
        }
    }

    /// Asks for the sealing of a cover packet with a random payload.
    pub fn cover_packet(&mut self, sid: &[u8; SESSION_ID_LEN]) -> (r: Result<SealStep, ManagerError>)
        requires
            old(self).wf(),
        ensures
            final(self).wf(),
            if !old(self)@.knows(*sid) {
                final(self)@ == old(self)@ && r == Err::<SealStep, ManagerError>(
                    ManagerError::NoSession,
                )
            } else {
                let k = old(self)@.slot(*sid);
                match r {
                    Ok(step) => {
                        &&& cover_step_is(old(self)@.sessions[k], step)
                        &&& final(self)@ == if step is Seal {
                            old(self)@
                        } else {
                            old(self)@.without(k)
                        }
                    },
                    Err(e) => final(self)@ == old(self)@ && (e matches ManagerError::Session(
                        SessionError::Crypto(c),
                    ) && random_failure(c)),
                }
            },
    {
        let k: usize = self.find(sid);
        if k == self.sessions.len() {
            return Err(ManagerError::NoSession);
        }
        let ghost start = self@;
        let ghost before = self.sessions@;
        let ghost e0 = start.sessions[k as int];
        assert(e0 == self.sessions@[k as int]@);
        proof {
            assert(e0.session.state == ProtocolState::Established);
            assert(e0.session.cipher.session_id == sid_of(e0));
        }
        let mut entry = self.take_out(k);
        match entry.session.cover() {
            Ok(request) => {
                self.put_back(k, entry, Ghost(start), Ghost(before));
                assert(self@.sessions =~= start.sessions);
                Ok(SealStep::Seal(SealTicket::make(*sid, request, false)))
            },
            Err(SessionError::RekeyRequired) => {
                Ok(
                    SealStep::Event(
                        ManagerEvent::Closed { sid: *sid, reason: CloseReason::NonceExhausted },
                    ),
                )
            },
            Err(e) => {
                self.put_back(k, entry, Ghost(start), Ghost(before));
                assert(self@.sessions =~= start.sessions);
                Err(ManagerError::Session(e))
            },
        }
    }

    /// The identifiers of all sessions, in ascending order.
    fn sorted_sids(&self) -> (r: Vec<[u8; SESSION_ID_LEN]>)
        requires
            self.wf(),
        ensures
            ascending(r@),
            lists(r@, self@.sessions),
    {
        let ghost s = self@.sessions;
        let mut out: Vec<[u8; SESSION_ID_LEN]> = Vec::new();
        let mut i: usize = 0;
        assert(s.subrange(0, 0) =~= Seq::empty());
        while i < self.sessions.len()
            invariant
                i <= self.sessions@.len(),
                s == entry_views(self.sessions@),
                sessions_distinct(s),
                ascending(out@),
                lists(out@, s.subrange(0, i as int)),
            decreases self.sessions@.len() - i,
        {
            let sid: [u8; SESSION_ID_LEN] = *self.sessions[i].session.session_id();
            assert(s[i as int] == self.sessions@[i as int]@);
            let key: u64 = sid_key(&sid);
            let mut at: usize = 0;
            while at < out.len() && sid_key(&out[at]) < key
                invariant
                    at <= out@.len(),
                    key == be_value(sid@),
                    forall|j: int| 0 <= j < at ==> be_value((#[trigger] out@[j])@) < key,
                decreases out@.len() - at,
            {
                at += 1;
            }
            proof {
                lemma_sorted_insert(out@, s, i as int, at as int);
            }
            out.insert(at, sid);
            i += 1;
        }
        assert(s.subrange(0, i as int) =~= s);
        out
    }

    /// Asks for one cover packet on every session, in ascending order of their
    /// identifiers. Sessions whose counter is used up are closed. A failure
    /// ends the batch.
    pub fn cover_packet_all(&mut self) -> (r: Result<Vec<SealStep>, ManagerError>)
        requires
            old(self).wf(),
        ensures
            final(self).wf(),
            final(self)@ == (ServerManagerView {
                sessions: final(self)@.sessions,
                ..old(self)@
            }),
            match r {
                Ok(steps) => {
                    &&& exists|sids: Seq<[u8; SESSION_ID_LEN]>| #[trigger]
                        ascending(sids) && lists(sids, old(self)@.sessions) && covers(
                            steps@,
                            sids,
                            old(self)@,
                        )
                    &&& forall|e: EntryView| #[trigger]
                        final(self)@.sessions.contains(e) <==> old(self)@.sessions.contains(e)
                            && !used_up(e)
                },
                Err(e) => {
                    &&& e matches ManagerError::Session(SessionError::Crypto(c)) && random_failure(c)
                    &&& forall|x: EntryView| #[trigger]
                        final(self)@.sessions.contains(x) ==> old(self)@.sessions.contains(x)
                    &&& forall|x: EntryView| #[trigger]
                        old(self)@.sessions.contains(x) && !used_up(x)
                            ==> final(self)@.sessions.contains(x)
                },
            },
    {
        let ghost start = self@;
        let sids = self.sorted_sids();
        let mut out: Vec<SealStep> = Vec::new();
        let mut i: usize = 0;
        while i < sids.len()
            invariant
                i <= sids@.len(),
                self.wf(),
                start == old(self)@,
                start.bounded(),
                ascending(sids@),
                lists(sids@, start.sessions),
                self@ == (ServerManagerView { sessions: self@.sessions, ..start }),
                covers(out@, sids@.subrange(0, i as int), start),
                forall|e: EntryView| #[trigger]
                    self@.sessions.contains(e) <==> start.sessions.contains(e) && !(used_up(e)
                        && sids@.subrange(0, i as int).contains(sid_of(e))),
            decreases sids@.len() - i,
        {
            let ghost mid = self@;
            let sid: [u8; SESSION_ID_LEN] = sids[i];
            let ghost k = mid.slot(sid);
            proof {
                lemma_next_to_cover(start, mid, sids@, i as int);
            }
            match self.cover_packet(&sid) {
                Ok(step) => {
                    proof {
                        lemma_covered(start, mid, self@, sids@, i as int);
                        assert(self@.sessions == mid.sessions || self@.sessions
                            == mid.sessions.remove(k));
                    }
                    out.push(step);
                },
                Err(e) => return Err(e),
            }
            i += 1;
        }
        assert(sids@.subrange(0, i as int) =~= sids@);
        proof {
            assert forall|e: EntryView| #[trigger] start.sessions.contains(e) implies sids@.contains(
                sid_of(e),
            ) by {}
        }
        Ok(out)
    }

    /// Resumes with the result of a sealing: the packet to send. A ticket that
    /// is not the session's current one is refused.
    pub fn on_sealed(
        &mut self,
        ticket: SealTicket,
        sealed: Result<Vec<u8>, CryptoError>,
        now: Instant,
    ) -> (r: Result<ManagerEvent, ManagerError>)
        requires
            old(self).wf(),
        ensures
            final(self).wf(),
            ({
                let out = old(self)@.on_sealed(ticket, sealed_view(sealed), now);
                &&& final(self)@ == out.0
                &&& match r {
                    Ok(v) => out.1 == Ok::<EventView, ManagerError>(v@),
                    Err(e) => out.1 == Err::<EventView, ManagerError>(e),
                }
            }),
    {
        let (sid, request, _) = ticket.take();
        let k: usize = self.find(&sid);
        if k == self.sessions.len() {
            return Err(ManagerError::NoSession);
        }
        let ghost start = self@;
        let ghost before = self.sessions@;
        let ghost e0 = start.sessions[k as int];
        assert(e0 == self.sessions@[k as int]@);
        proof {
            assert(e0.session.state == ProtocolState::Established);
            assert(e0.session.cipher.session_id == sid_of(e0));
        }
        if request.counter != self.sessions[k].session.send_counter() {
            return Err(ManagerError::InvalidState("stale seal request"));
        }
        let peer = self.sessions[k].peer;
        let mut entry = self.take_out(k);
        let result = entry.session.encrypt(request, sealed);
        if result.is_ok() {
            entry.last_activity = now;
        }
        self.put_back(k, entry, Ghost(start), Ghost(before));
        match result {
            Ok(packet) => Ok(ManagerEvent::SendPacket { packet, peer }),
            Err(e) => {
                assert(self@.sessions =~= start.sessions);
                Err(ManagerError::Session(e))
            },
        }
    }

    /// Resumes a round of cover packets with all its sealings: every event, in
    /// order, or the first error and no event at all.
    pub fn on_cover_sealed(&mut self, replies: Vec<CoverReply>, now: Instant) -> (r: Result<
        Vec<ManagerEvent>,
        ManagerError,
    >)
        requires
            old(self).wf(),
        ensures
            final(self).wf(),
            ({
                let out = old(self)@.on_cover_sealed(replies@, now);
                &&& final(self)@ == out.0
                &&& match r {
                    Ok(events) => out.1 == Ok::<Seq<EventView>, ManagerError>(
                        event_views(events@),
                    ),
                    Err(e) => out.1 == Err::<Seq<EventView>, ManagerError>(e),
                }
            }),
    {
        let ghost all = replies@;
        let ghost start = self@;
        let n: usize = replies.len();
        let mut rest = replies;
        let mut events: Vec<ManagerEvent> = Vec::new();
        let mut i: usize = 0;
        proof {
            assert(all.subrange(0, 0) =~= Seq::empty());
            assert(event_views(events@) =~= Seq::empty());
            assert(rest@ =~= all.subrange(0, n as int));
        }
        while i < n
            invariant
                i <= n,
                n == all.len(),
                all == replies@,
                start == old(self)@,
                self.wf(),
                rest@ == all.subrange(i as int, n as int),
                start.on_cover_sealed(all.subrange(0, i as int), now) == (
                    self@,
                    Ok::<Seq<EventView>, ManagerError>(event_views(events@)),
                ),
            decreases n - i,
        {
            let ghost before = self@;
            let ghost sent = events@;
            proof {
                assert(all.subrange(0, i + 1).drop_last() =~= all.subrange(0, i as int));
                assert(all.subrange(0, i + 1).last() == all[i as int]);
                assert(rest@[0] == all[i as int]);
            }
            let reply = rest.remove(0);
            assert(rest@ =~= all.subrange(i + 1, n as int));
            let event = match reply {
                CoverReply::Event(v) => v,
                CoverReply::Sealed(ticket, sealed) => match self.on_sealed(ticket, sealed, now) {
                    Ok(v) => v,
                    Err(e) => {
                        proof {
                            let part = all.subrange(0, i + 1);
                            assert(start.on_cover_sealed(part, now) == (
                                self@,
                                Err::<Seq<EventView>, ManagerError>(e),
                            ));
                            lemma_cover_failed(start, all, i + 1, now);
                        }
                        return Err(e);
                    },
                },
            };
            events.push(event);
            assert(event_views(events@) =~= event_views(sent).push(event@));
            i += 1;
        }
        assert(all.subrange(0, n as int) =~= all);
        Ok(events)
    }

    /// Closes a session at the application's request, without a message.
    pub fn close_session(&mut self, sid: &[u8; SESSION_ID_LEN]) -> (r: Result<
        ManagerEvent,
        ManagerError,
    >)
        requires
            old(self).wf(),
        ensures
            final(self).wf(),
            if old(self)@.knows(*sid) {
                &&& final(self)@ == old(self)@.without(old(self)@.slot(*sid))
                &&& r matches Ok(v) && v@ == EventView::Closed(*sid, CloseReason::UserClosed)
            } else {
                final(self)@ == old(self)@ && r == Err::<ManagerEvent, ManagerError>(
                    ManagerError::NoSession,
                )
            },
    {
        let k: usize = self.find(sid);
        if k == self.sessions.len() {
            return Err(ManagerError::NoSession);
        }
        let _ = self.take_out(k);
        Ok(ManagerEvent::Closed { sid: *sid, reason: CloseReason::UserClosed })
    }

    /// Removes sessions that are idle or too old, and reports their closure and
    /// the closures that were waiting.
    pub fn tick(&mut self, now: Instant) -> (r: Vec<ManagerEvent>)
        requires
            old(self).wf(),
        ensures
            final(self).wf(),
            final(self)@ == old(self)@.ticked(now),
            reports(
                r@,
                expired(old(self)@.sessions, old(self)@.limits, now) + old(self)@.closed,
            ),
    {
        let mut out: Vec<ManagerEvent> = Vec::new();
        let ghost start = self@;
        let ghost all = start.sessions;
        let ghost p = keeps(self.limits, now);
        let limits = self.limits;
        let n: usize = self.sessions.len();
        let mut k: usize = 0;
        let mut i: usize = 0;
        proof {
            server_stays_bounded(
                start,
                Seq::empty(),
                arbitrary(),
                None,
                arbitrary(),
                PeerAddr::V4 { ip: 0, port: 0 },
                now,
            );
            assert(all.subrange(0, 0).filter(p) =~= Seq::empty()) by {
                reveal(Seq::filter);
            }
            assert(entry_views(self.sessions@) =~= all.subrange(0, 0).filter(p) + all.subrange(
                0,
                n as int,
            ));
        }
        while k < n
            invariant
                k <= n,
                n == all.len(),
                limits == self.limits,
                p == keeps(limits, now),
                i == all.subrange(0, k as int).filter(p).len(),
                self.limits == old(self).limits,
                self.hs == old(self).hs,
                self.fail_buckets == old(self).fail_buckets,
                self.pending_closed == old(self).pending_closed,
                entry_views(self.sessions@) == all.subrange(0, k as int).filter(p) + all.subrange(
                    k as int,
                    n as int,
                ),
                reports(out@, expired(all.subrange(0, k as int), limits, now)),
            decreases n - k,
        {
            let ghost kept = all.subrange(0, k as int).filter(p);
            let ghost rest = all.subrange(k as int, n as int);
            let ghost before = self.sessions@;
            assert(entry_views(before).len() == before.len());
            assert(entry_views(before)[i as int] == rest[0]);
            let entry = &self.sessions[i];
            let idle_ok: bool = in_time(limits.idle_timeout, now, entry.last_receive);
            let life_ok: bool = in_time(limits.lifetime_cap, now, entry.established_at);
            let sid: [u8; SESSION_ID_LEN] = *entry.session.session_id();
            proof {
                assert(all.subrange(0, k + 1).drop_last() =~= all.subrange(0, k as int));
                assert(all.subrange(0, k + 1).last() == rest[0]);
                reveal(Seq::filter);
                assert(all.subrange(k + 1, n as int) =~= rest.subrange(1, rest.len() as int));
            }
            if idle_ok && life_ok {
                i += 1;
                proof {
                    assert(entry_views(self.sessions@) =~= kept.push(rest[0]) + all.subrange(
                        k + 1,
                        n as int,
                    ));
                }
            } else {
                let reason = if !life_ok {
                    CloseReason::LifetimeCap
                } else {
                    CloseReason::IdleTimeout
                };
                out.push(ManagerEvent::Closed { sid, reason });
                self.sessions.remove(i);
                proof {
                    assert(self.sessions@ == before.remove(i as int));
                    assert(entry_views(self.sessions@) =~= entry_views(before).remove(i as int));
                    assert(entry_views(before).remove(i as int) =~= kept + rest.subrange(
                        1,
                        rest.len() as int,
                    ));
                }
            }
            k += 1;
        }
        proof {
            assert(all.subrange(0, n as int) =~= all);
            assert(entry_views(self.sessions@) =~= all.filter(p));
        }
        let ghost gone = expired(all, limits, now);
        let m: usize = self.pending_closed.len();
        let mut j: usize = 0;
        while j < m
            invariant
                j <= m,
                m == start.closed.len(),
                start.closed == self.pending_closed@,
                self.limits == old(self).limits,
                self.hs == old(self).hs,
                self.fail_buckets == old(self).fail_buckets,
                entry_views(self.sessions@) == all.filter(p),
                reports(out@, gone + start.closed.subrange(0, j as int)),
            decreases m - j,
        {
            let (sid, reason) = self.pending_closed[j];
            out.push(ManagerEvent::Closed { sid, reason });
            proof {
                assert(gone + start.closed.subrange(0, j + 1) =~= (gone + start.closed.subrange(
                    0,
                    j as int,
                )).push(start.closed[j as int]));
            }
            j += 1;
        }
        assert(start.closed.subrange(0, m as int) =~= start.closed);
        self.pending_closed = Vec::new();
        assert(self@.closed =~= Seq::empty());
        out
    }
}

/// The rank of an identifier.
fn sid_key(sid: &[u8; SESSION_ID_LEN]) -> (r: u64)
    ensures
        r == be_value(sid@),
{
    assert(sid@.subrange(0, 8) =~= sid@);
    u64_from_be(sid, 0)
}

fn in_time(limit: Option<Duration>, now: Instant, since: Instant) -> (r: bool)
    ensures
        r == within(limit, now, since),
{
    match limit {
        None => true,
        Some(d) => !at_least(now.duration_since(since), d),
    }
}

/// A session is known exactly if it is in the table, and its slot is where it
/// stands.
pub proof fn known_sessions_are_in_the_table(s: ServerManagerView, k: int)
    requires
        s.bounded(),
        0 <= k < s.sessions.len(),
    ensures
        s.knows(s.sessions[k].session.session_id),
        s.slot(s.sessions[k].session.session_id) == k,
{
    lemma_slot_at(s.sessions, k);
}

proof fn lemma_slot_at(s: Seq<EntryView>, k: int)
    requires
        sessions_distinct(s),
        0 <= k < s.len(),
    ensures
        session_slot(s, sid_of(s[k])) == k,
{
    let m = session_slot(s, sid_of(s[k]));
    lemma_session_slot(s, sid_of(s[k]));
    if m < k {
        assert(sid_of(s[m]) != sid_of(s[k]));
    }
}

/// An unknown session is not in the table.
pub proof fn unknown_sessions_are_not_in_the_table(
    s: ServerManagerView,
    sid: [u8; SESSION_ID_LEN],
    k: int,
)
    requires
        !s.knows(sid),
        0 <= k < s.sessions.len(),
    ensures
        s.sessions[k].session.session_id != sid,
{
    lemma_session_slot(s.sessions, sid);
}

/// A datagram belongs to the session whose identifier stands behind its first
/// byte.
pub proof fn datagram_names_its_session(dg: Seq<u8>, sid: [u8; SESSION_ID_LEN])
    requires
        sid@ == dg.subrange(1, 9),
    ensures
        sid_at(dg) == sid,
{
    lemma_sid_at(dg, sid);
}

/// An accepted data or cover packet keeps its session alive: its idle time starts
/// anew, replies go where the packet came from, and data reaches the application.
/// Hence no tick removes the session until it has been idle for the whole timeout
/// since then, or is too old. No other session is touched.
pub proof fn accepted_packet_keeps_the_session_alive(
    s: ServerManagerView,
    k: int,
    dg: Seq<u8>,
    pt: Seq<u8>,
    from: PeerAddr,
    now: Instant,
    later: Instant,
)
    requires
        s.bounded(),
        0 <= k < s.sessions.len(),
        s.sessions[k].session.decrypted(dg, Some(pt)).1 is Ok,
        pt[0] == 1 || pt[0] == 2,
    ensures
        ({
            let e = s.sessions[k];
            let sid = e.session.session_id;
            let out = s.on_opened(dg, sid, Some(pt), from, now);
            let f = out.0.sessions[k];
            &&& out.1 == if pt[0] == 1 {
                EventView::AppData(sid, pt)
            } else {
                EventView::Nothing
            }
            &&& out.0.sessions.len() == s.sessions.len()
            &&& f.session == e.session.decrypted(dg, Some(pt)).0
            &&& f.session.session_id == sid
            &&& f.last_receive == now
            &&& f.last_activity == now
            &&& f.peer == from
            &&& f.established_at == e.established_at
            &&& forall|i: int|
                0 <= i < s.sessions.len() && i != k ==> #[trigger] out.0.sessions[i]
                    == s.sessions[i]
            &&& out.0.gate == s.gate && out.0.closed == s.closed && out.0.limits == s.limits
            &&& (s.limits.idle_timeout matches Some(d) ==> elapsed(later, now) < d.nanos()) && (
            s.limits.lifetime_cap matches Some(d) ==> elapsed(later, e.established_at) < d.nanos())
                ==> out.0.ticked(later).knows(sid)
        }),
{
    let e = s.sessions[k];
    let sid = e.session.session_id;
    lemma_slot_at(s.sessions, k);
    assert(e.session.state == ProtocolState::Established);
    assert(e.session.cipher.session_id == sid_of(e));
    let t = s.on_opened(dg, sid, Some(pt), from, now).0;
    crate::envelope::receive_errors_are_uniform(e.session.cipher, dg, Some(pt));
    lemma_update_bounded(s, k, t.sessions[k]);
    tick_removes_exactly_the_expired(t, k, later);
}

/// A session that has been idle for its timeout, or has reached its longest
/// lifetime, does not survive a tick; the reason is reported, and the lifetime
/// comes first.
pub proof fn tick_ends_a_session_at_its_limit(s: ServerManagerView, k: int, now: Instant)
    requires
        s.bounded(),
        0 <= k < s.sessions.len(),
    ensures
        ({
            let e = s.sessions[k];
            let sid = e.session.session_id;
            let idle = s.limits.idle_timeout matches Some(d) && elapsed(now, e.last_receive)
                >= d.nanos();
            let old_age = s.limits.lifetime_cap matches Some(d) && elapsed(now, e.established_at)
                >= d.nanos();
            let reported = expired(s.sessions, s.limits, now);
            &&& s.ticked(now).knows(sid) <==> !idle && !old_age
            &&& old_age ==> reported.contains((sid, CloseReason::LifetimeCap))
            &&& idle && !old_age ==> reported.contains((sid, CloseReason::IdleTimeout))
            &&& !idle && !old_age ==> s.ticked(now).sessions.contains(e)
        }),
{
    tick_removes_exactly_the_expired(s, k, now);
}

/// A tick reports every session that it removes once, and nothing else: as many
/// closures are reported as sessions leave. Nothing waits after it, and the limits,
/// the handshakes and the failure gate stay as they are.
pub proof fn tick_reports_each_removal_once(s: ServerManagerView, now: Instant)
    ensures
        expired(s.sessions, s.limits, now).len() + s.ticked(now).sessions.len()
            == s.sessions.len(),
        s.ticked(now).closed.len() == 0,
        s.ticked(now).limits == s.limits,
        s.ticked(now).hs == s.hs,
        s.ticked(now).gate == s.gate,
{
    lemma_expired_len(s.sessions, s.limits, now);
}

proof fn lemma_expired_len(s: Seq<EntryView>, l: SessionLimits, now: Instant)
    ensures
        expired(s, l, now).len() + s.filter(keeps(l, now)).len() == s.len(),
    decreases s.len(),
{
    reveal(Seq::filter);
    if s.len() > 0 {
        lemma_expired_len(s.drop_last(), l, now);
    }
}

/// A close message of the peer, and the end of the counter, remove exactly their
/// session and tell the application why.
pub proof fn ended_session_is_removed(
    s: ServerManagerView,
    k: int,
    dg: Seq<u8>,
    opened: Option<Seq<u8>>,
    from: PeerAddr,
    now: Instant,
    j: int,
)
    requires
        s.bounded(),
        0 <= k < s.sessions.len(),
        0 <= j < s.sessions.len(),
    ensures
        ({
            let sid = s.sessions[k].session.session_id;
            let r = s.sessions[k].session.decrypted(dg, opened).1;
            let closing = r matches Ok(pt) && pt[0] == 3;
            let used = r == Err::<Seq<u8>, SessionError>(SessionError::RekeyRequired);
            let out = s.on_opened(dg, sid, opened, from, now);
            closing || used ==> {
                &&& out.1 == EventView::Closed(
                    sid,
                    if closing {
                        CloseReason::PeerClosed
                    } else {
                        CloseReason::NonceExhausted
                    },
                )
                &&& !out.0.knows(sid)
                &&& j != k ==> out.0.sessions.contains(s.sessions[j])
                &&& out.0.sessions.len() == s.sessions.len() - 1
            }
        }),
{
    lemma_slot_at(s.sessions, k);
    let sid = s.sessions[k].session.session_id;
    let t = s.sessions.remove(k);
    lemma_session_slot(t, sid);
    let m = session_slot(t, sid);
    if m < t.len() {
        let i = if m >= k {
            m + 1
        } else {
            m
        };
        assert(sid_of(s.sessions[i]) == sid_of(s.sessions[k]));
    }
    if j < k {
        assert(t[j] == s.sessions[j]);
    } else if j > k {
        assert(t[j - 1] == s.sessions[j]);
    }
}

/// A packet that is rejected costs its source a failure token and neither keeps
/// its session alive nor moves it; nothing of it reaches the application. A
/// handshake message inside a session costs a token, too.
pub proof fn rejected_packet_costs_a_token(
    s: ServerManagerView,
    k: int,
    dg: Seq<u8>,
    opened: Option<Seq<u8>>,
    from: PeerAddr,
    now: Instant,
)
    requires
        s.bounded(),
        0 <= k < s.sessions.len(),
    ensures
        ({
            let e = s.sessions[k];
            let sid = e.session.session_id;
            let r = e.session.decrypted(dg, opened).1;
            let out = s.on_opened(dg, sid, opened, from, now);
            let f = out.0.sessions[k];
            &&& r is Err && r != Err::<Seq<u8>, SessionError>(SessionError::RekeyRequired) ==> {
                &&& out.1 is Nothing
                &&& out.0.gate == spent(s.gate, from)
                &&& out.0.sessions.len() == s.sessions.len()
                &&& f.last_receive == e.last_receive
                &&& f.last_activity == e.last_activity
                &&& f.peer == e.peer
                &&& f.established_at == e.established_at
            }
            &&& (r matches Ok(pt) && pt[0] == 0) ==> out.1 is Nothing && out.0.gate == spent(
                s.gate,
                from,
            )
        }),
{
    lemma_slot_at(s.sessions, k);
}

/// A data packet is opened exactly if its source has a failure token, its session
/// is known and its version is supported. One of another version costs a token;
/// one of an unknown session costs none.
pub proof fn packet_is_opened_exactly_if(
    s: ServerManagerView,
    dg: Seq<u8>,
    sid: [u8; SESSION_ID_LEN],
    from: PeerAddr,
    now: Instant,
)
    requires
        s.limits.max_fail_buckets > 0,
    ensures
        ({
            let tokens = tokens_at(s.gate, from, now, s.limits.gate());
            let looked = touched(s.gate, from, now, s.limits.gate());
            let out = s.on_data(dg, sid, from, now);
            &&& s.passes(from, now) <==> tokens > 0
            &&& out.1 is Open <==> tokens > 0 && s.knows(sid) && dg[0] == 1
            &&& out.0.gate == if tokens > 0 && s.knows(sid) && dg[0] != 1 {
                spent(looked, from)
            } else {
                looked
            }
            &&& out.0.sessions == s.sessions && out.0.hs == s.hs && out.0.closed == s.closed
                && out.0.limits == s.limits
        }),
{
}

/// Without any bucket the failure gate is shut.
pub proof fn gate_without_buckets_is_shut(
    s: ServerManagerView,
    dg: Seq<u8>,
    sid: [u8; SESSION_ID_LEN],
    from: PeerAddr,
    now: Instant,
)
    requires
        s.limits.max_fail_buckets == 0,
    ensures
        !s.passes(from, now),
        s.on_data(dg, sid, from, now).1 is Nothing,
        s.on_data(dg, sid, from, now).0 == s,
{
}

/// A session that joins is established, belongs to the server's role, answers where
/// its handshake came from, and is as fresh as can be; the others stay.
pub proof fn joined_session_is_fresh(
    s: ServerManagerView,
    sid: [u8; SESSION_ID_LEN],
    keys: TrafficKeys,
    from: PeerAddr,
    now: Instant,
)
    ensures
        ({
            let t = s.joined(sid, keys, from, now);
            let e = t.sessions.last();
            &&& t.sessions.drop_last() == s.sessions
            &&& t.limits == s.limits && t.hs == s.hs && t.gate == s.gate && t.closed == s.closed
            &&& e.session.session_id == sid && e.session.cipher.session_id == sid
            &&& e.session.role == Role::Server && e.session.cipher.role == Role::Server
            &&& e.session.state == ProtocolState::Established
            &&& e.session.cipher.keys == keys
            &&& e.session.cipher.send_counter == 0
            &&& e.peer == from
            &&& e.last_receive == now && e.last_activity == now && e.established_at == now
        }),
{
    assert(s.joined(sid, keys, from, now).sessions.drop_last() =~= s.sessions);
}

/// Below its capacity a table loses nobody; at capacity it loses one.
pub proof fn only_a_full_table_makes_room(s: ServerManagerView)
    ensures
        s.sessions.len() < s.limits.max_sessions ==> s.with_room() == s,
        s.sessions.len() >= s.limits.max_sessions && s.sessions.len() > 0 ==> {
            &&& s.with_room().sessions.len() == s.sessions.len() - 1
            &&& s.with_room().closed.len() == s.closed.len() + 1
            &&& s.with_room().gate == s.gate && s.with_room().hs == s.hs
        },
{
    if s.sessions.len() > 0 {
        lemma_least_recent(s.sessions);
    }
}

/// A sealed packet goes to the peer of its session, uses up one counter and counts
/// as activity, but not as something received: sending alone does not keep a
/// session from idling away. No other session is touched.
pub proof fn sealed_packet_goes_to_the_peer(
    s: ServerManagerView,
    k: int,
    ticket: SealTicket,
    ct: Seq<u8>,
    now: Instant,
)
    requires
        s.bounded(),
        0 <= k < s.sessions.len(),
        ticket.session() == s.sessions[k].session.session_id,
        ticket.seal().counter == s.sessions[k].session.cipher.send_counter,
        s.sessions[k].session.cipher.send_counter < MAX_PACKET_NONCE,
        ct.len() == 1263,
    ensures
        ({
            let e = s.sessions[k];
            let out = s.on_sealed(ticket, Ok(ct), now);
            let f = out.0.sessions[k];
            &&& out.1 == Ok::<EventView, ManagerError>(
                EventView::SendPacket(ticket.seal().aad@ + ct, e.peer),
            )
            &&& f.session.cipher.send_counter == e.session.cipher.send_counter + 1
            &&& f.session == e.session.sent()
            &&& f.last_activity == now
            &&& f.last_receive == e.last_receive
            &&& f.established_at == e.established_at
            &&& f.peer == e.peer
            &&& out.0.sessions.len() == s.sessions.len()
            &&& forall|i: int|
                0 <= i < s.sessions.len() && i != k ==> #[trigger] out.0.sessions[i]
                    == s.sessions[i]
        }),
{
    lemma_slot_at(s.sessions, k);
}

/// A sealing that failed, one of the wrong size, a ticket that is not the current
/// one and a ticket of an unknown session change nothing, and each has its error.
pub proof fn failed_sealing_changes_nothing(
    s: ServerManagerView,
    ticket: SealTicket,
    sealed: Result<Seq<u8>, CryptoError>,
    now: Instant,
)
    requires
        s.bounded(),
        !s.knows(ticket.session()) || ticket.seal().counter != s.sessions[s.slot(
            ticket.session(),
        )].session.cipher.send_counter || sealed is Err || sealed->Ok_0.len() != 1263,
    ensures
        ({
            let out = s.on_sealed(ticket, sealed, now);
            &&& out.0 == s
            &&& out.1 is Err
            &&& !s.knows(ticket.session()) ==> out.1 == Err::<EventView, ManagerError>(
                ManagerError::NoSession,
            )
            &&& s.knows(ticket.session()) && ticket.seal().counter == s.sessions[s.slot(
                ticket.session(),
            )].session.cipher.send_counter ==> (sealed matches Err(x) ==> out.1 == Err::<
                EventView,
                ManagerError,
            >(ManagerError::Session(SessionError::Codec(CodecError::Crypto(x)))))
        }),
{
}

/// A session is used up from the threshold of its counter on, and not before.
pub proof fn counter_threshold_ends_a_session(e: EntryView)
    ensures
        used_up(e) <==> e.session.cipher.send_counter >= 0xffff_fffe_ffff_ffff,
{
}

/// A round of cover packets asks once for every session, in ascending order of the
/// identifiers, and seals each packet as cover under the keys of its session.
pub proof fn cover_round_asks_every_session_once(
    steps: Seq<SealStep>,
    sids: Seq<[u8; SESSION_ID_LEN]>,
    s: ServerManagerView,
    k: int,
)
    requires
        s.bounded(),
        ascending(sids),
        lists(sids, s.sessions),
        covers(steps, sids, s),
        0 <= k < s.sessions.len(),
    ensures
        steps.len() == s.sessions.len(),
        exists|i: int|
            #![trigger steps[i]]
            0 <= i < steps.len() && match steps[i] {
                SealStep::Seal(t) => t.session() == s.sessions[k].session.session_id && !t.closes()
                    && t.seal().plaintext@[0] == 2 && t.seal().counter
                    == s.sessions[k].session.cipher.send_counter,
                SealStep::Event(v) => v@ == EventView::Closed(
                    s.sessions[k].session.session_id,
                    CloseReason::NonceExhausted,
                ),
            },
{
    let e = s.sessions[k];
    assert(s.sessions.contains(e));
    assert(sids.contains(sid_of(e)));
    let i = choose|i: int| 0 <= i < sids.len() && sids[i] == sid_of(e);
    lemma_slot_at(s.sessions, k);
    assert(cover_step_is(e, steps[i]));
    if let SealStep::Seal(t) = steps[i] {
        let fill = choose|fill: Seq<u8>|
            fill.len() == PAYLOAD_LEN && #[trigger] e.session.cipher.seals(
                MessageType::Cover,
                fill,
                t.seal(),
            );
        crate::envelope::sealing_protects_the_payload(
            e.session.cipher,
            MessageType::Cover,
            fill,
            t.seal(),
        );
    }
}

/// The outcome of a sealing, and the events of a round, are taken as they are.
pub proof fn replies_are_taken_as_they_are(
    sealed: Result<Vec<u8>, CryptoError>,
    events: Seq<ManagerEvent>,
)
    ensures
        sealed matches Ok(ct) ==> sealed_view(sealed) == Ok::<Seq<u8>, CryptoError>(ct@),
        sealed matches Err(e) ==> sealed_view(sealed) == Err::<Seq<u8>, CryptoError>(e),
        event_views(events).len() == events.len(),
        forall|i: int| 0 <= i < events.len() ==> #[trigger] event_views(events)[i] == events[i]@,
{
}

/// A step follows from what a handshake datagram calls for, as that of the
/// handshake machine does.
pub proof fn handshake_step_follows_from_the_reply(
    r: ManagerStep,
    reply: ServerReply,
    sid: Seq<u8>,
    from: PeerAddr,
)
    requires
        handshake_step_is(r, reply, sid, from),
    ensures
        reply is Nothing ==> (r matches ManagerStep::Event(e) && e@ is Nothing),
        reply matches ServerReply::Resend(d, to) ==> (r matches ManagerStep::Event(e) && e@
            == EventView::Send(d, to)),
        reply matches ServerReply::Authenticate(m1) ==> (r matches ManagerStep::Authenticate(a)
            && a.session() == sid && a.source() == from && a.hello().encoding() == m1),
        reply matches ServerReply::Decapsulate(m3) ==> (r matches ManagerStep::Decapsulate(c)
            && c.session() == sid && c.source() == from && c.confirm().encoding() == m3),
{
}

/// Identifiers in ascending order are compared like numbers, their first byte
/// being the most significant one.
pub proof fn ascending_is_by_value(sids: Seq<[u8; SESSION_ID_LEN]>, i: int, j: int)
    requires
        ascending(sids),
        0 <= i < j < sids.len(),
    ensures
        be_value(sids[i]@) < be_value(sids[j]@),
{
}

} // verus!
