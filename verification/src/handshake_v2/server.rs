//! Server side of the handshake.
//!
//! The machine keeps a bounded table of pending handshakes. It computes and
//! hands out events; the caller sends datagrams and does the ML-KEM and ML-DSA
//! work that the machine asks for, in this order:
//!
//! - [`ServerStep::Authenticate`]: verify the client signature against every
//!   key of the roster;
//! - [`AuthStep::Respond`]: make fresh keys and encapsulate to the client;
//! - [`M2Sign`]: sign the server's answer;
//! - [`ServerStep::Decapsulate`]: decapsulate the client's confirmation.
//!
//! Nothing that a peer sends is answered with an error.
use crate::bytes::{arrays_eq, lemma_array_ext, zeros};
use crate::codec::{WirePacket, PROTOCOL_VERSION, SESSION_ID_LEN};
use crate::crypto::{
    ct_eq, hkdf_sha256_of, hmac_sha256_of, sha256_of, x25519, x25519_of, X25519_BASE,
};
use crate::error::CryptoError;
use crate::handshake_v2::client::{ClientExchange, ClientView};
use crate::handshake_v2::fragment::{
    assembler_is_well_formed, body_len, datagrams, frag_body_len, frag_count, frag_datagram,
    fragment_message, fragment_of, fragments, is_fragment, lemma_one_more_fragment, AssemblerView,
    FragmentAssembler, FragmentResult, HandshakeFragment,
    HS_TYPE_CLIENT_CONFIRM, HS_TYPE_CLIENT_HELLO, HS_TYPE_SERVER_HELLO, M1_BODY_LEN,
    M2_BODY_LEN,
};
use crate::handshake_v2::key_schedule::{
    compute_client_finished, derive_master, finished_is_keyed_by_the_master, finished_of,
    master_is_a_hybrid, master_of,
};
use crate::handshake_v2::message::{
    client_confirm_roundtrip, client_hello_roundtrip, encode_m2, m2_layout, m3_layout,
    server_hello_roundtrip, ClientConfirm, ClientHello, ServerHello,
};
use crate::handshake_v2::outcome::{HandshakeOutcome, HandshakeV2Error, OutcomeView};
use crate::handshake_v2::transcript::{
    digests_hash_the_messages, digests_ignore_slots, th1, th1_from_m1, th2, th2_from_m1_m2, th3, th3_from_m1_m2_m3,
};
use crate::keys::{
    MlDsaPublicKey, MlDsaSignature, MlKemCiphertext, MlKemPublicKey, MlKemSecretKey, Secret32,
    SharedSecret,
};
use crate::net::PeerAddr;
use crate::rate::{
    distinct, exhausted_source_waits_for_its_window, has_bucket, slot, spending_takes_one_token,
    spent, table_stays_capped, tokens_at, touched, touching_gives_a_bucket, Bucket, BucketLimits,
    BucketTable,
};
use crate::time::{at_least, elapsed, Duration, Instant};
use vstd::prelude::*;
use vstd::slice::slice_to_vec;

verus! {

/// Most rate buckets, however many sources a flood pretends to have.
pub const MAX_RATE_BUCKETS: usize = 4096;

/// Server configuration.
#[derive(Clone)]
pub struct ServerConfig {
    /// Protocol version; only the supported one can complete a handshake.
    pub version: u8,
    /// Keys of the clients that are let in, provisioned out of band.
    pub roster: Vec<MlDsaPublicKey>,
    /// Most pending handshakes.
    pub max_pending: usize,
    /// Lifetime of a pending handshake that does not advance.
    pub pending_ttl: Duration,
    /// Budget of a source per window.
    pub rate_limit_burst: u32,
    /// The window of the budget.
    pub rate_limit_window: Duration,
}

/// What a configuration holds.
pub struct ServerConfigView {
    pub version: u8,
    pub roster: Seq<MlDsaPublicKey>,
    pub max_pending: usize,
    pub pending_ttl: Duration,
    pub rate_limit_burst: u32,
    pub rate_limit_window: Duration,
}

impl View for ServerConfig {
    type V = ServerConfigView;

    open spec fn view(&self) -> ServerConfigView {
        ServerConfigView {
            version: self.version,
            roster: self.roster@,
            max_pending: self.max_pending,
            pending_ttl: self.pending_ttl,
            rate_limit_burst: self.rate_limit_burst,
            rate_limit_window: self.rate_limit_window,
        }
    }
}

impl ServerConfig {
    /// The defaults.
    pub fn new(roster: Vec<MlDsaPublicKey>) -> (r: Self)
        ensures
            r.version == PROTOCOL_VERSION,
            r.roster == roster,
            r.max_pending == 64,
            r.pending_ttl.nanos() == 30_000_000_000,
            r.rate_limit_burst == 16,
            r.rate_limit_window.nanos() == 10_000_000_000,
    {
        ServerConfig {
            version: PROTOCOL_VERSION,
            roster,
            max_pending: 64,
            pending_ttl: Duration::from_secs(30),
            rate_limit_burst: 16,
            rate_limit_window: Duration::from_secs(10),
        }
    }

    /// A second copy.
    pub fn duplicate(&self) -> (r: Self)
        ensures
            r@ == self@,
    {
        let mut roster: Vec<MlDsaPublicKey> = Vec::new();
        let mut i: usize = 0;
        while i < self.roster.len()
            invariant
                i <= self.roster@.len(),
                roster@ == self.roster@.subrange(0, i as int),
            decreases self.roster@.len() - i,
        {
            roster.push(self.roster[i]);
            i += 1;
            assert(roster@ =~= self.roster@.subrange(0, i as int));
        }
        assert(roster@ =~= self.roster@);
        ServerConfig {
            version: self.version,
            roster,
            max_pending: self.max_pending,
            pending_ttl: self.pending_ttl,
            rate_limit_burst: self.rate_limit_burst,
            rate_limit_window: self.rate_limit_window,
        }
    }
}

/// Output of the server machine.
pub enum ServerEvent {
    /// Send these datagrams to the peer.
    Emit(Vec<WirePacket>, PeerAddr),
    /// The client's confirmation was genuine.
    Complete(HandshakeOutcome),
    /// Nothing to do.
    Nothing,
}

/// A request to verify a client signature against the whole roster.
pub struct M1Auth {
    sid: [u8; SESSION_ID_LEN],
    from: PeerAddr,
    digest: [u8; 32],
    m1: ClientHello,
}

/// A request for fresh keys and an encapsulation to an authenticated client.
pub struct M1Respond {
    sid: [u8; SESSION_ID_LEN],
    from: PeerAddr,
    m1: ClientHello,
    client: MlDsaPublicKey,
}

/// What the respond step gave.
pub struct ServerKeys {
    pub kem_public: MlKemPublicKey,
    pub kem_secret: MlKemSecretKey,
    pub x_secret: Secret32,
    pub ss_a: SharedSecret,
    pub ct2: MlKemCiphertext,
}

/// A request to sign the server's answer.
pub struct M2Sign {
    sid: [u8; SESSION_ID_LEN],
    from: PeerAddr,
    m1: ClientHello,
    client: MlDsaPublicKey,
    digest: [u8; 32],
    x_s: [u8; 32],
    dh: SharedSecret,
    keys: ServerKeys,
    version: u8,
}

/// A request to decapsulate a client's confirmation.
pub struct M3Check {
    from: PeerAddr,
    m3: ClientConfirm,
}

/// What handling a datagram leads to.
pub enum ServerStep {
    Event(ServerEvent),
    Authenticate(M1Auth),
    Decapsulate(M3Check),
}

/// What the verdicts on a client signature lead to.
pub enum AuthStep {
    Event(ServerEvent),
    Respond(M1Respond),
}

impl M1Auth {
    pub closed spec fn session(&self) -> Seq<u8> {
        self.sid@
    }

    pub closed spec fn source(&self) -> PeerAddr {
        self.from
    }

    /// The digest that must have been signed.
    pub closed spec fn signed(&self) -> Seq<u8> {
        self.digest@
    }

    pub closed spec fn hello(&self) -> ClientHello {
        self.m1
    }

    pub fn digest(&self) -> (r: &[u8; 32])
        ensures
            r@ == self.signed(),
    {
        &self.digest
    }

    pub fn signature(&self) -> (r: &MlDsaSignature)
        ensures
            *r == self.hello().client_sig,
    {
        &self.m1.client_sig
    }

    /// The key that the answer will be encapsulated to.
    pub fn eph_pk_c(&self) -> (r: &MlKemPublicKey)
        ensures
            *r == self.hello().eph_pk_c,
    {
        &self.m1.eph_pk_c
    }
}

impl M1Respond {
    pub closed spec fn session(&self) -> Seq<u8> {
        self.sid@
    }

    pub closed spec fn source(&self) -> PeerAddr {
        self.from
    }

    pub closed spec fn hello(&self) -> ClientHello {
        self.m1
    }

    /// The roster key that authenticated the client.
    pub closed spec fn identity(&self) -> MlDsaPublicKey {
        self.client
    }

    /// The key to encapsulate to.
    pub fn eph_pk_c(&self) -> (r: &MlKemPublicKey)
        ensures
            *r == self.hello().eph_pk_c,
    {
        &self.m1.eph_pk_c
    }
}

impl M2Sign {
    pub closed spec fn session(&self) -> Seq<u8> {
        self.sid@
    }

    pub closed spec fn source(&self) -> PeerAddr {
        self.from
    }

    /// What is kept until the confirmation arrives, once the answer is signed.
    pub closed spec fn confirm(&self, sig: MlDsaSignature) -> ConfirmView {
        ConfirmView {
            m1: self.m1.encoding(),
            m2: m2_layout(
                self.version,
                self.sid@,
                self.keys.kem_public.bytes@,
                self.x_s@,
                self.keys.ct2.bytes@,
                sig.bytes@,
            ),
            ss_a: self.keys.ss_a@,
            dh: self.dh@,
            kem_secret: self.keys.kem_secret@,
            client: self.client,
        }
    }

    /// The version of the answer.
    pub closed spec fn wire_version(&self) -> u8 {
        self.version
    }

    /// The digest to sign.
    pub closed spec fn to_sign(&self) -> Seq<u8> {
        self.digest@
    }

    pub fn digest(&self) -> (r: &[u8; 32])
        ensures
            r@ == self.to_sign(),
    {
        &self.digest
    }
}

impl M3Check {
    pub open spec fn session(&self) -> Seq<u8> {
        self.confirm().sid@
    }

    pub closed spec fn source(&self) -> PeerAddr {
        self.from
    }

    pub closed spec fn confirm(&self) -> ClientConfirm {
        self.m3
    }

    /// The session whose confirmation this is.
    pub fn session_id(&self) -> (r: &[u8; SESSION_ID_LEN])
        ensures
            r@ == self.session(),
    {
        &self.m3.sid
    }

    /// Where the confirmation came from.
    pub fn from(&self) -> (r: PeerAddr)
        ensures
            r == self.source(),
    {
        self.from
    }

    /// The ciphertext to decapsulate.
    pub fn ct3(&self) -> (r: &MlKemCiphertext)
        ensures
            *r == self.confirm().ct3,
    {
        &self.m3.ct3
    }
}

/// Kept between the server's answer and the client's confirmation.
struct AwaitM3 {
    m1: Vec<u8>,
    m2: Vec<u8>,
    ss_a: SharedSecret,
    dh: SharedSecret,
    kem_secret: MlKemSecretKey,
    client: MlDsaPublicKey,
}

enum PendingStage {
    AwaitM1(FragmentAssembler),
    AwaitM3(AwaitM3),
}

struct PendingSession {
    sid: [u8; SESSION_ID_LEN],
    source: PeerAddr,
    last_seen: Instant,
    started: Instant,
    stage: PendingStage,
}

/// What is kept until the client's confirmation arrives.
pub struct ConfirmView {
    pub m1: Seq<u8>,
    pub m2: Seq<u8>,
    pub ss_a: Seq<u8>,
    pub dh: Seq<u8>,
    pub kem_secret: Seq<u8>,
    pub client: MlDsaPublicKey,
}

/// The two stages of a pending handshake.
pub enum StageView {
    AwaitM1(AssemblerView),
    AwaitM3(ConfirmView),
}

/// What a pending handshake holds.
pub struct PendingView {
    pub sid: Seq<u8>,
    pub source: PeerAddr,
    pub last_seen: Instant,
    pub started: Instant,
    pub stage: StageView,
}

/// What a server machine holds.
pub struct ServerView {
    pub cfg: ServerConfigView,
    pub pending: Seq<PendingView>,
    pub buckets: Seq<Bucket>,
}

/// What a datagram is answered with.
pub enum ServerReply {
    Nothing,
    /// Send the cached answer again.
    Resend(Seq<Seq<u8>>, PeerAddr),
    /// Authenticate this ClientHello.
    Authenticate(Seq<u8>),
    /// Check this ClientConfirm.
    Decapsulate(Seq<u8>),
}

impl View for PendingSession {
    type V = PendingView;

    closed spec fn view(&self) -> PendingView {
        PendingView {
            sid: self.sid@,
            source: self.source,
            last_seen: self.last_seen,
            started: self.started,
            stage: match self.stage {
                PendingStage::AwaitM1(a) => StageView::AwaitM1(a@),
                PendingStage::AwaitM3(c) => StageView::AwaitM3(
                    ConfirmView {
                        m1: c.m1@,
                        m2: c.m2@,
                        ss_a: c.ss_a@,
                        dh: c.dh@,
                        kem_secret: c.kem_secret@,
                        client: c.client,
                    },
                ),
            },
        }
    }
}

impl PendingSession {
    spec fn wf(self) -> bool {
        match self.stage {
            PendingStage::AwaitM1(a) => a.wf() && a@.hs_type == HS_TYPE_CLIENT_HELLO,
            PendingStage::AwaitM3(c) => c.m1@.len() == M1_BODY_LEN && c.m2@.len() == M2_BODY_LEN,
        }
    }
}

/// A pending handshake that advanced less than a lifetime ago.
pub open spec fn alive(now: Instant, ttl: Duration) -> spec_fn(PendingView) -> bool {
    |e: PendingView| elapsed(now, e.last_seen) < ttl.nanos()
}

/// Index of the pending handshake of a session; the length if there is none.
pub open spec fn pending_slot(s: Seq<PendingView>, sid: Seq<u8>) -> int
    decreases s.len(),
{
    if s.len() == 0 {
        0
    } else {
        let k = pending_slot(s.drop_last(), sid);
        if k < s.len() - 1 || s.last().sid == sid {
            k
        } else {
            s.len() as int
        }
    }
}

/// No session has two pending handshakes.
pub open spec fn sids_distinct(s: Seq<PendingView>) -> bool {
    forall|i: int, j: int| 0 <= i < j < s.len() ==> #[trigger] s[i].sid != #[trigger] s[j].sid
}

/// The last roster key whose verdict is positive.
pub open spec fn matched(roster: Seq<MlDsaPublicKey>, verdicts: Seq<bool>) -> Option<MlDsaPublicKey>
    decreases roster.len(),
{
    if roster.len() == 0 {
        None
    } else if roster.len() <= verdicts.len() && verdicts[roster.len() - 1] {
        Some(roster.last())
    } else {
        matched(roster.drop_last(), verdicts)
    }
}

/// A client is let in exactly if one of the keys of the roster verified its
/// signature, and is then known by a key that did.
pub proof fn roster_decides(roster: Seq<MlDsaPublicKey>, verdicts: Seq<bool>)
    requires
        verdicts.len() == roster.len(),
    ensures
        matched(roster, verdicts) is Some <==> exists|i: int|
            0 <= i < verdicts.len() && #[trigger] verdicts[i],
        matched(roster, verdicts) matches Some(k) ==> exists|i: int|
            0 <= i < verdicts.len() && #[trigger] verdicts[i] && roster[i] == k,
{
    lemma_matched(roster, verdicts);
}

proof fn lemma_matched(roster: Seq<MlDsaPublicKey>, verdicts: Seq<bool>)
    requires
        roster.len() <= verdicts.len(),
    ensures
        matched(roster, verdicts) is Some <==> exists|i: int|
            0 <= i < roster.len() && #[trigger] verdicts[i],
        matched(roster, verdicts) matches Some(k) ==> exists|i: int|
            0 <= i < roster.len() && #[trigger] verdicts[i] && roster[i] == k,
    decreases roster.len(),
{
    if roster.len() > 0 {
        let n = roster.len() - 1;
        lemma_matched(roster.drop_last(), verdicts);
        if verdicts[n] {
        } else {
            assert(matched(roster, verdicts) == matched(roster.drop_last(), verdicts));
        }
    }
}

impl ServerView {
    /// The budget of a source.
    pub open spec fn limits(self) -> BucketLimits {
        BucketLimits {
            burst: self.cfg.rate_limit_burst,
            window: self.cfg.rate_limit_window,
            cap: MAX_RATE_BUCKETS,
        }
    }

    pub open spec fn has_token(self, from: PeerAddr, now: Instant) -> bool {
        tokens_at(self.buckets, from, now, self.limits()) > 0
    }

    /// One token of the source is spent, if it has one.
    pub open spec fn charged(self, from: PeerAddr, now: Instant) -> Self {
        ServerView {
            buckets: spent(touched(self.buckets, from, now, self.limits()), from),
            ..self
        }
    }

    /// Pending handshakes that have not advanced for a lifetime are dropped.
    pub open spec fn evicted(self, now: Instant) -> Self {
        ServerView { pending: self.pending.filter(alive(now, self.cfg.pending_ttl)), ..self }
    }

    pub open spec fn with_entry(self, k: int, e: PendingView) -> Self {
        ServerView { pending: self.pending.update(k, e), ..self }
    }

    pub open spec fn without(self, k: int) -> Self {
        ServerView { pending: self.pending.remove(k), ..self }
    }

    /// A complete ClientHello that is worth authenticating: right version and
    /// right session inside.
    pub open spec fn checkable(self, sid: Seq<u8>, m: Seq<u8>) -> bool {
        m[0] == PROTOCOL_VERSION && m[0] == self.cfg.version && m.subrange(1, 9) == sid
    }

    /// A ClientHello fragment of a session that is being collected.
    pub open spec fn on_collect(
        self,
        k: int,
        a: AssemblerView,
        dg: Seq<u8>,
        from: PeerAddr,
        now: Instant,
    ) -> (ServerView, ServerReply) {
        let e = self.pending[k];
        let body = dg.subrange(12, 12 + frag_body_len(dg[9], dg[10] as int));
        let b = a.offered(dg[9], dg[11], dg[10], body);
        match a.report(dg[9], dg[11], dg[10], body) {
            FragmentResult::Ignored => (self, ServerReply::Nothing),
            FragmentResult::Advanced => (
                self.with_entry(
                    k,
                    PendingView { last_seen: now, stage: StageView::AwaitM1(b), ..e },
                ),
                ServerReply::Nothing,
            ),
            FragmentResult::Completed => {
                let s = self.with_entry(k, PendingView { stage: StageView::AwaitM1(b), ..e });
                if !s.has_token(from, now) {
                    (s.charged(from, now), ServerReply::Nothing)
                } else if !self.checkable(e.sid, b.buffer) {
                    (s.charged(from, now).without(k), ServerReply::Nothing)
                } else {
                    (s.charged(from, now), ServerReply::Authenticate(b.buffer))
                }
            },
        }
    }

    /// A ClientHello fragment of a session that was already answered: its
    /// first fragment has the cached answer sent again.
    pub open spec fn on_duplicate(
        self,
        k: int,
        c: ConfirmView,
        dg: Seq<u8>,
        from: PeerAddr,
        now: Instant,
    ) -> (ServerView, ServerReply) {
        let e = self.pending[k];
        if dg[10] != 0 {
            (self, ServerReply::Nothing)
        } else if !self.has_token(from, now) {
            (self.charged(from, now), ServerReply::Nothing)
        } else {
            (
                self.charged(from, now),
                ServerReply::Resend(
                    fragments(HS_TYPE_SERVER_HELLO, self.cfg.version, e.sid, c.m2),
                    e.source,
                ),
            )
        }
    }

    /// A ClientHello fragment of an unknown session: only a first fragment,
    /// within the budget of its source and within the capacity, opens a
    /// pending handshake.
    pub open spec fn on_new(self, dg: Seq<u8>, from: PeerAddr, now: Instant) -> (
        ServerView,
        ServerReply,
    ) {
        if dg[10] != 0 {
            (self, ServerReply::Nothing)
        } else if !self.has_token(from, now) || self.pending.len() >= self.cfg.max_pending {
            (self.charged(from, now), ServerReply::Nothing)
        } else {
            let s = self.charged(from, now);
            (
                ServerView {
                    pending: s.pending.push(
                        PendingView {
                            sid: dg.subrange(1, 9),
                            source: from,
                            last_seen: now,
                            started: now,
                            stage: StageView::AwaitM1(
                                AssemblerView::fresh(HS_TYPE_CLIENT_HELLO).offered(
                                    dg[9],
                                    dg[11],
                                    dg[10],
                                    dg.subrange(12, 12 + frag_body_len(dg[9], dg[10] as int)),
                                ),
                            ),
                        },
                    ),
                    ..s
                },
                ServerReply::Nothing,
            )
        }
    }

    /// A ClientHello fragment.
    pub open spec fn on_m1(self, dg: Seq<u8>, from: PeerAddr, now: Instant) -> (
        ServerView,
        ServerReply,
    ) {
        let s = self.evicted(now);
        let k = pending_slot(s.pending, dg.subrange(1, 9));
        if k < s.pending.len() {
            if s.pending[k].source != from {
                (s, ServerReply::Nothing)
            } else {
                match s.pending[k].stage {
                    StageView::AwaitM1(a) => s.on_collect(k, a, dg, from, now),
                    StageView::AwaitM3(c) => s.on_duplicate(k, c, dg, from, now),
                }
            }
        } else {
            s.on_new(dg, from, now)
        }
    }

    /// A confirmation that is worth checking: it belongs to a handshake that
    /// waits for one, from the source that started it.
    pub open spec fn awaits(self, sid: Seq<u8>, from: PeerAddr) -> bool {
        let k = pending_slot(self.pending, sid);
        k < self.pending.len() && self.pending[k].source == from
            && self.pending[k].stage is AwaitM3
    }

    /// A ClientConfirm fragment. The source's budget is charged before
    /// anything is looked up.
    pub open spec fn on_m3(self, dg: Seq<u8>, from: PeerAddr, now: Instant) -> (
        ServerView,
        ServerReply,
    ) {
        let s = self.evicted(now).charged(from, now);
        let sid = dg.subrange(1, 9);
        let m3 = dg.subrange(12, 1125);
        if self.evicted(now).has_token(from, now) && s.awaits(sid, from) && s.checkable(sid, m3) {
            (s, ServerReply::Decapsulate(m3))
        } else {
            (s, ServerReply::Nothing)
        }
    }

    /// Any datagram.
    pub open spec fn on_datagram(self, dg: Seq<u8>, from: PeerAddr, now: Instant) -> (
        ServerView,
        ServerReply,
    ) {
        if !is_fragment(dg) {
            (self, ServerReply::Nothing)
        } else if dg[9] == HS_TYPE_CLIENT_HELLO {
            self.on_m1(dg, from, now)
        } else if dg[9] == HS_TYPE_CLIENT_CONFIRM {
            self.on_m3(dg, from, now)
        } else {
            (self, ServerReply::Nothing)
        }
    }

    /// What a confirmation and its decapsulated secret lead to. A genuine one
    /// completes the handshake that awaits it from this source; nothing else has
    /// any effect.
    pub open spec fn on_decapsulated(
        self,
        m3: ClientConfirm,
        ss_b: Seq<u8>,
        from: PeerAddr,
        now: Instant,
    ) -> (ServerView, Option<OutcomeView>) {
        let k = pending_slot(self.pending, m3.sid@);
        let e = self.pending[k];
        if self.awaits(m3.sid@, from) && e.stage->AwaitM3_0.genuine(m3, ss_b) {
            (
                self.without(k),
                Some(
                    OutcomeView {
                        master: e.stage->AwaitM3_0.master(m3, ss_b),
                        session_id: m3.sid,
                        peer_identity: e.stage->AwaitM3_0.client,
                        handshake_nanos: elapsed(now, e.started),
                    },
                ),
            )
        } else {
            (self, None)
        }
    }

    /// The pending handshake of a session is dropped, if there is one.
    pub open spec fn forgotten(self, sid: Seq<u8>) -> Self {
        let k = pending_slot(self.pending, sid);
        if k < self.pending.len() {
            self.without(k)
        } else {
            self
        }
    }

    /// The pending handshake of a session waits for the confirmation.
    pub open spec fn answered(self, sid: Seq<u8>, c: ConfirmView, now: Instant) -> Self {
        let k = pending_slot(self.pending, sid);
        self.with_entry(
            k,
            PendingView { last_seen: now, stage: StageView::AwaitM3(c), ..self.pending[k] },
        )
    }
}

impl ConfirmView {
    /// TH3 with a confirmation.
    pub open spec fn th3(self, m3: ClientConfirm) -> Seq<u8> {
        th3(self.m1, self.m2, m3.encoding())
    }

    /// The master secret that a confirmation leads to.
    pub open spec fn master(self, m3: ClientConfirm, ss_b: Seq<u8>) -> Seq<u8> {
        master_of(self.ss_a, ss_b, self.dh, m3.version, m3.sid@, self.th3(m3))
    }

    /// The confirmation proves knowledge of that secret.
    pub open spec fn genuine(self, m3: ClientConfirm, ss_b: Seq<u8>) -> bool {
        finished_of(self.master(m3, ss_b), m3.version, m3.sid@, self.th3(m3)) == m3.client_finished@
    }
}

/// The two sides agree: if the server keeps the client's hello and its own, and
/// both hold the same two encapsulated secrets and the same Diffie-Hellman
/// secret, then the confirmation that the client sends is genuine to the
/// server, and both derive the same master secret.
pub proof fn both_sides_agree(
    client: ClientView,
    m2: ServerHello,
    ex: ClientExchange,
    kept: ConfirmView,
    m3: ClientConfirm,
)
    requires
        client.wf(),
        kept.m1 == client.hello.encoding(),
        kept.m2 == m2.encoding(),
        kept.ss_a == ex.ss_a@,
        kept.dh == x25519_of(client.x_secret, m2.x_s@),
        m3.encoding() == client.m3(m2, ex),
        m3.version == client.cfg.version,
        m3.sid == client.sid,
        m3.ct3 == ex.ct3,
    ensures
        kept.master(m3, ex.ss_b@) == client.master(m2, ex),
        kept.genuine(m3, ex.ss_b@),
{
    let z = m3_layout(client.cfg.version, client.sid@, ex.ct3.bytes@, zeros(16));
    client_hello_roundtrip(client.hello, client.hello);
    server_hello_roundtrip(m2, m2);
    client_confirm_roundtrip(m3, m3);
    digests_ignore_slots(kept.m1, kept.m1, kept.m2, kept.m2, m3.encoding(), z);
    let mac = finished_of(
        client.master(m2, ex),
        client.cfg.version,
        client.sid@,
        client.th3(m2, ex.ct3.bytes@),
    );
    assert(client.m3(m2, ex).len() == m3.encoding().len());
    assert(m3.encoding().subrange(1097, 1113) =~= m3.client_finished@);
    assert(client.m3(m2, ex).subrange(1097, client.m3(m2, ex).len() as int) =~= mac);
}

/// The hello of a client is collected in any order, with any repetitions, after
/// its first fragment has opened a pending handshake: the datagram that makes it
/// complete leads to the authentication of exactly that hello, within the budget
/// of its source.
pub proof fn hello_is_collected(
    s: ServerView,
    hello: ClientHello,
    order: Seq<int>,
    idx: int,
    from: PeerAddr,
    now: Instant,
)
    requires
        s.cfg.version == PROTOCOL_VERSION,
        hello.version == PROTOCOL_VERSION,
        forall|k: int|
            0 <= k < order.len() ==> 0 <= #[trigger] order[k] < frag_count(HS_TYPE_CLIENT_HELLO),
        0 <= idx < frag_count(HS_TYPE_CLIENT_HELLO),
        ({
            let t = s.evicted(now);
            let k = pending_slot(t.pending, hello.sid@);
            &&& k < t.pending.len()
            &&& t.pending[k].source == from
            &&& t.pending[k].stage == StageView::AwaitM1(
                AssemblerView::fresh(HS_TYPE_CLIENT_HELLO).fed(hello.encoding(), order),
            )
        }),
    ensures
        ({
            let dg = frag_datagram(
                HS_TYPE_CLIENT_HELLO,
                PROTOCOL_VERSION,
                hello.sid@,
                hello.encoding(),
                idx,
            );
            let before = AssemblerView::fresh(HS_TYPE_CLIENT_HELLO).fed(hello.encoding(), order);
            let after = AssemblerView::fresh(HS_TYPE_CLIENT_HELLO).fed(
                hello.encoding(),
                order.push(idx),
            );
            let k = pending_slot(s.evicted(now).pending, hello.sid@);
            let out = s.on_datagram(dg, from, now);
            &&& out.0.pending.len() == s.evicted(now).pending.len()
            &&& out.0.pending[k].sid == hello.sid@
            &&& out.0.pending[k].stage == StageView::AwaitM1(after)
            &&& out.1 == if after.complete() && !before.complete() && s.evicted(now).has_token(
                from,
                now,
            ) {
                ServerReply::Authenticate(hello.encoding())
            } else {
                ServerReply::Nothing
            }
        }),
{
    client_hello_roundtrip(hello, hello);
    lemma_one_more_fragment(HS_TYPE_CLIENT_HELLO, hello.sid@, hello.encoding(), order, idx);
    assert(hello.encoding().subrange(1, 9) =~= hello.sid@);
    lemma_pending_slot(s.evicted(now).pending, hello.sid@);
}

/// A first fragment opens a pending handshake, within the budget of its source
/// and the capacity of the table.
pub proof fn first_fragment_opens_a_handshake(
    s: ServerView,
    hello: ClientHello,
    from: PeerAddr,
    now: Instant,
)
    requires
        hello.version == PROTOCOL_VERSION,
        pending_slot(s.evicted(now).pending, hello.sid@) >= s.evicted(now).pending.len(),
        s.evicted(now).has_token(from, now),
        s.evicted(now).pending.len() < s.cfg.max_pending,
    ensures
        ({
            let dg = frag_datagram(
                HS_TYPE_CLIENT_HELLO,
                PROTOCOL_VERSION,
                hello.sid@,
                hello.encoding(),
                0,
            );
            let e = s.on_datagram(dg, from, now).0.pending.last();
            &&& s.on_datagram(dg, from, now).0.pending.len() == s.evicted(now).pending.len() + 1
            &&& e.sid == hello.sid@
            &&& e.source == from
            &&& e.stage == StageView::AwaitM1(
                AssemblerView::fresh(HS_TYPE_CLIENT_HELLO).fed(hello.encoding(), seq![0int]),
            )
        }),
{
    client_hello_roundtrip(hello, hello);
    let none = Seq::<int>::empty();
    lemma_one_more_fragment(HS_TYPE_CLIENT_HELLO, hello.sid@, hello.encoding(), none, 0);
    assert(none.push(0) =~= seq![0int]);
}

/// The datagram of a confirmation.
pub open spec fn confirm_datagram(m3: ClientConfirm) -> Seq<u8> {
    frag_datagram(HS_TYPE_CLIENT_CONFIRM, PROTOCOL_VERSION, m3.sid@, m3.encoding(), 0)
}

/// The confirmation of a client reaches the check of exactly that confirmation,
/// if its handshake waits for one and its source has budget.
pub proof fn confirmation_is_checked(
    s: ServerView,
    m3: ClientConfirm,
    from: PeerAddr,
    now: Instant,
)
    requires
        s.cfg.version == PROTOCOL_VERSION,
        m3.version == PROTOCOL_VERSION,
        s.evicted(now).has_token(from, now),
        s.evicted(now).awaits(m3.sid@, from),
    ensures
        s.on_datagram(confirm_datagram(m3), from, now) == (
            s.evicted(now).charged(from, now),
            ServerReply::Decapsulate(m3.encoding()),
        ),
{
    client_confirm_roundtrip(m3, m3);
    let none = Seq::<int>::empty();
    let dg = confirm_datagram(m3);
    lemma_one_more_fragment(HS_TYPE_CLIENT_CONFIRM, m3.sid@, m3.encoding(), none, 0);
    assert(dg.subrange(12, 1125) =~= m3.encoding());
    assert(m3.encoding().subrange(1, 9) =~= m3.sid@);
}

/// A confirmation from a source that did not start the handshake, or for a
/// session that awaits none, is dropped: no pending handshake is touched, but
/// for the eviction of expired ones.
pub proof fn stray_confirmation_is_dropped(
    s: ServerView,
    dg: Seq<u8>,
    from: PeerAddr,
    now: Instant,
)
    requires
        is_fragment(dg),
        dg[9] == HS_TYPE_CLIENT_CONFIRM,
        !s.evicted(now).awaits(dg.subrange(1, 9), from),
    ensures
        s.on_datagram(dg, from, now) == (
            s.evicted(now).charged(from, now),
            ServerReply::Nothing,
        ),
        s.on_datagram(dg, from, now).0.pending == s.evicted(now).pending,
{
}

/// A handshake that awaits its confirmation is kept as it is by every datagram
/// from every source, until it expires.
pub proof fn answered_handshake_is_kept(
    s: ServerView,
    sid: Seq<u8>,
    dg: Seq<u8>,
    from: PeerAddr,
    now: Instant,
)
    requires
        s.bounded(),
        pending_slot(s.evicted(now).pending, sid) < s.evicted(now).pending.len(),
        s.evicted(now).pending[pending_slot(s.evicted(now).pending, sid)].stage is AwaitM3,
    ensures
        ({
            let t = s.on_datagram(dg, from, now).0;
            let k = pending_slot(t.pending, sid);
            &&& k < t.pending.len()
            &&& t.pending[k] == s.evicted(now).pending[pending_slot(s.evicted(now).pending, sid)]
        }),
{
    let p = alive(now, s.cfg.pending_ttl);
    let u = s.evicted(now);
    let k = pending_slot(u.pending, sid);
    let e = u.pending[k];
    let t = s.on_datagram(dg, from, now).0;
    let j = pending_slot(u.pending, dg.subrange(1, 9));
    lemma_pending_slot(u.pending, sid);
    lemma_pending_slot(u.pending, dg.subrange(1, 9));
    lemma_filter_sids(s.pending, p);
    pending_is_bounded(s, dg, from, now);
    if t.pending == s.pending {
        let m = choose|m: int| 0 <= m < s.pending.len() && s.pending[m] == #[trigger] u.pending[k];
        lemma_slot_at(t.pending, m);
    } else if t.pending.len() < u.pending.len() && j < k {
        assert(t.pending[k - 1] == e);
        lemma_slot_at(t.pending, k - 1);
    } else {
        assert(t.pending[k] == e);
        lemma_slot_at(t.pending, k);
    }
}

/// A handshake that awaits its confirmation outlives the eviction, if it has not
/// expired.
proof fn lemma_awaiting_outlives(s: ServerView, sid: Seq<u8>, now: Instant)
    requires
        sids_distinct(s.pending),
        pending_slot(s.pending, sid) < s.pending.len(),
        elapsed(now, s.pending[pending_slot(s.pending, sid)].last_seen)
            < s.cfg.pending_ttl.nanos(),
    ensures
        ({
            let u = s.evicted(now).pending;
            &&& pending_slot(u, sid) < u.len()
            &&& u[pending_slot(u, sid)] == s.pending[pending_slot(s.pending, sid)]
        }),
{
    let p = alive(now, s.cfg.pending_ttl);
    let k = pending_slot(s.pending, sid);
    let u = s.evicted(now).pending;
    lemma_pending_slot(s.pending, sid);
    lemma_filter_keeps(s.pending, p, k);
    lemma_filter_sids(s.pending, p);
    let j = choose|j: int| 0 <= j < u.len() && u[j] == s.pending[k];
    lemma_slot_at(u, j);
}

/// A forged confirmation is dropped silently and poisons nothing: the pending
/// handshakes stay as they are, and the genuine confirmation that arrives later
/// from the same source, within its budget and the lifetime of the handshake, is
/// checked against what was kept and completes the handshake. The outcome has
/// the session, the client that was authenticated and the master secret of that
/// handshake, and the handshake is no longer pending.
pub proof fn genuine_confirmation_survives_a_forged_one(
    s: ServerView,
    kept: ConfirmView,
    forged: ClientConfirm,
    ss_f: Seq<u8>,
    m3: ClientConfirm,
    ss_b: Seq<u8>,
    from: PeerAddr,
    t1: Instant,
    t2: Instant,
)
    requires
        s.bounded(),
        s.cfg.version == PROTOCOL_VERSION,
        forged.version == PROTOCOL_VERSION,
        m3.version == PROTOCOL_VERSION,
        forged.sid == m3.sid,
        s.evicted(t1).has_token(from, t1),
        s.evicted(t1).awaits(m3.sid@, from),
        ({
            let e = s.evicted(t1).pending[pending_slot(s.evicted(t1).pending, m3.sid@)];
            &&& e.stage == StageView::AwaitM3(kept)
            &&& elapsed(t2, e.last_seen) < s.cfg.pending_ttl.nanos()
        }),
        !kept.genuine(forged, ss_f),
        kept.genuine(m3, ss_b),
        s.on_datagram(confirm_datagram(forged), from, t1).0.evicted(t2).has_token(from, t2),
    ensures
        ({
            let e = s.evicted(t1).pending[pending_slot(s.evicted(t1).pending, m3.sid@)];
            let first = s.on_datagram(confirm_datagram(forged), from, t1);
            let second = first.0.on_datagram(confirm_datagram(m3), from, t2);
            let k = pending_slot(second.0.pending, m3.sid@);
            let last = second.0.on_decapsulated(m3, ss_b, from, t2);
            &&& first.1 == ServerReply::Decapsulate(forged.encoding())
            &&& first.0.pending == s.evicted(t1).pending
            &&& first.0.on_decapsulated(forged, ss_f, from, t1) == (
                first.0,
                None::<OutcomeView>,
            )
            &&& second.1 == ServerReply::Decapsulate(m3.encoding())
            &&& k < second.0.pending.len()
            &&& second.0.pending[k] == e
            &&& last.0 == second.0.without(k)
            &&& pending_slot(last.0.pending, m3.sid@) >= last.0.pending.len()
            &&& last.1 == Some(
                (OutcomeView {
                    master: kept.master(m3, ss_b),
                    session_id: m3.sid,
                    peer_identity: kept.client,
                    handshake_nanos: elapsed(t2, e.started),
                }),
            )
        }),
{
    let sid = m3.sid@;
    let first = s.on_datagram(confirm_datagram(forged), from, t1).0;
    confirmation_is_checked(s, forged, from, t1);
    answered_handshake_is_kept(s, sid, confirm_datagram(forged), from, t1);
    pending_is_bounded(s, confirm_datagram(forged), from, t1);
    lemma_awaiting_outlives(first, sid, t2);
    confirmation_is_checked(first, m3, from, t2);
    answered_handshake_is_kept(first, sid, confirm_datagram(m3), from, t2);
    pending_is_bounded(first, confirm_datagram(m3), from, t2);
    let second = first.on_datagram(confirm_datagram(m3), from, t2).0;
    let k = pending_slot(second.pending, sid);
    let rest = second.without(k).pending;
    lemma_pending_slot(second.pending, sid);
    lemma_pending_slot(rest, sid);
    let m = pending_slot(rest, sid);
    if m < rest.len() {
        assert(rest[m].sid == sid);
        if m < k {
            assert(second.pending[m].sid != second.pending[k].sid);
        } else {
            assert(second.pending[k].sid != second.pending[m + 1].sid);
        }
    }
}

/// A client is not shut out by a forgery: if a forged confirmation came first
/// from its address, its own one still completes the handshake, and both sides
/// hold the same master secret.
pub proof fn client_completes_after_a_forgery(
    s: ServerView,
    client: ClientView,
    m2: ServerHello,
    ex: ClientExchange,
    kept: ConfirmView,
    forged: ClientConfirm,
    ss_f: Seq<u8>,
    m3: ClientConfirm,
    from: PeerAddr,
    t1: Instant,
    t2: Instant,
)
    requires
        client.wf(),
        kept.m1 == client.hello.encoding(),
        kept.m2 == m2.encoding(),
        kept.ss_a == ex.ss_a@,
        kept.dh == x25519_of(client.x_secret, m2.x_s@),
        m3.encoding() == client.m3(m2, ex),
        m3.version == client.cfg.version,
        m3.sid == client.sid,
        m3.ct3 == ex.ct3,
        s.bounded(),
        s.cfg.version == PROTOCOL_VERSION,
        client.cfg.version == PROTOCOL_VERSION,
        forged.version == PROTOCOL_VERSION,
        forged.sid == client.sid,
        s.evicted(t1).has_token(from, t1),
        s.evicted(t1).awaits(client.sid@, from),
        ({
            let e = s.evicted(t1).pending[pending_slot(s.evicted(t1).pending, client.sid@)];
            &&& e.stage == StageView::AwaitM3(kept)
            &&& elapsed(t2, e.last_seen) < s.cfg.pending_ttl.nanos()
        }),
        !kept.genuine(forged, ss_f),
        s.on_datagram(confirm_datagram(forged), from, t1).0.evicted(t2).has_token(from, t2),
    ensures
        ({
            let first = s.on_datagram(confirm_datagram(forged), from, t1);
            let second = first.0.on_datagram(confirm_datagram(m3), from, t2);
            let last = second.0.on_decapsulated(m3, ex.ss_b@, from, t2);
            &&& first.0.on_decapsulated(forged, ss_f, from, t1) == (
                first.0,
                None::<OutcomeView>,
            )
            &&& second.1 == ServerReply::Decapsulate(m3.encoding())
            &&& last.1 matches Some(o)
            &&& o.session_id == client.sid
            &&& o.peer_identity == kept.client
            &&& o.master == client.master(m2, ex)
        }),
{
    both_sides_agree(client, m2, ex, kept, m3);
    genuine_confirmation_survives_a_forged_one(
        s,
        kept,
        forged,
        ss_f,
        m3,
        ex.ss_b@,
        from,
        t1,
        t2,
    );
}

/// The answer that is sent again for a repeated hello is, byte for byte, the
/// answer that was sent first.
pub proof fn resent_answer_is_identical(
    s: ServerView,
    sid: Seq<u8>,
    c: ConfirmView,
    signed_at: Instant,
    dg: Seq<u8>,
    from: PeerAddr,
    now: Instant,
)
    requires
        sids_distinct(s.pending),
        pending_slot(s.pending, sid) < s.pending.len(),
        s.pending[pending_slot(s.pending, sid)].source == from,
        is_fragment(dg),
        dg[9] == HS_TYPE_CLIENT_HELLO,
        dg[10] == 0,
        dg.subrange(1, 9) == sid,
        elapsed(now, signed_at) < s.cfg.pending_ttl.nanos(),
        s.answered(sid, c, signed_at).evicted(now).has_token(from, now),
    ensures
        s.answered(sid, c, signed_at).on_datagram(dg, from, now).1 == ServerReply::Resend(
            fragments(HS_TYPE_SERVER_HELLO, s.cfg.version, sid, c.m2),
            from,
        ),
{
    let t = s.answered(sid, c, signed_at);
    let k = pending_slot(s.pending, sid);
    lemma_pending_slot(s.pending, sid);
    assert(t.pending[k].sid == sid);
    lemma_same_sids(s.pending, t.pending);
    lemma_slot_at(t.pending, k);
    lemma_awaiting_outlives(t, sid, now);
}

/// A session identifier in use cannot be taken over from another source: such a
/// fragment has no effect but the eviction of expired entries.
pub proof fn collision_is_harmless(
    s: ServerView,
    dg: Seq<u8>,
    from: PeerAddr,
    now: Instant,
)
    requires
        is_fragment(dg),
        dg[9] == HS_TYPE_CLIENT_HELLO,
        pending_slot(s.evicted(now).pending, dg.subrange(1, 9)) < s.evicted(now).pending.len(),
        s.evicted(now).pending[pending_slot(
            s.evicted(now).pending,
            dg.subrange(1, 9),
        )].source != from,
    ensures
        s.on_datagram(dg, from, now) == (s.evicted(now), ServerReply::Nothing),
{
}

/// Memory is committed only to the first fragment of a hello: no other datagram
/// ever adds a pending handshake.
pub proof fn only_first_fragments_allocate(
    s: ServerView,
    dg: Seq<u8>,
    from: PeerAddr,
    now: Instant,
)
    requires
        !(is_fragment(dg) && dg[9] == HS_TYPE_CLIENT_HELLO && dg[10] == 0),
    ensures
        s.on_datagram(dg, from, now).0.pending.len() <= s.pending.len(),
{
    lemma_filter_sids_len(s.pending, alive(now, s.cfg.pending_ttl));
    let u = s.evicted(now);
    lemma_pending_slot(u.pending, dg.subrange(1, 9));
}

/// A source that has used up its budget is not served until its window is over,
/// also when the budget table is full: nothing is authenticated, decapsulated or
/// sent again for it, and no handshake is opened.
pub proof fn exhausted_source_is_not_served(
    s: ServerView,
    dg: Seq<u8>,
    from: PeerAddr,
    now: Instant,
)
    requires
        distinct(s.buckets),
        has_bucket(s.buckets, from),
        s.buckets[slot(s.buckets, from)].tokens == 0,
        elapsed(now, s.buckets[slot(s.buckets, from)].last_refill)
            < s.cfg.rate_limit_window.nanos(),
    ensures
        !s.has_token(from, now),
        s.on_datagram(dg, from, now).1 is Nothing,
        s.on_datagram(dg, from, now).0.pending.len() <= s.pending.len(),
{
    exhausted_source_waits_for_its_window(s.buckets, from, now, s.limits());
    s.pending.lemma_filter_len(alive(now, s.cfg.pending_ttl));
    lemma_pending_slot(s.evicted(now).pending, dg.subrange(1, 9));
}

/// The table of pending handshakes never outgrows its capacity, no session
/// identifier is ever pending twice, and the budget table stays capped.
pub proof fn pending_is_bounded(s: ServerView, dg: Seq<u8>, from: PeerAddr, now: Instant)
    requires
        s.bounded(),
    ensures
        s.on_datagram(dg, from, now).0.bounded(),
{
    let sid = dg.subrange(1, 9);
    let p = alive(now, s.cfg.pending_ttl);
    lemma_filter_sids_len(s.pending, p);
    lemma_filter_sids(s.pending, p);
    let u = s.evicted(now);
    lemma_pending_slot(u.pending, sid);
    table_stays_capped(s.buckets, from, now, s.limits());
    let k = pending_slot(u.pending, sid);
    let t = s.on_datagram(dg, from, now).0;
    if is_fragment(dg) && dg[9] == HS_TYPE_CLIENT_HELLO {
        if k < u.pending.len() {
            assert forall|i: int, j: int| 0 <= i < j < t.pending.len() implies #[trigger] t.pending[i].sid
                != #[trigger] t.pending[j].sid by {
                if t.pending.len() == u.pending.len() {
                    assert(u.pending[i].sid != u.pending[j].sid);
                } else {
                    let i2 = if i >= k {
                        i + 1
                    } else {
                        i
                    };
                    let j2 = if j >= k {
                        j + 1
                    } else {
                        j
                    };
                    assert(u.pending[i2].sid != u.pending[j2].sid);
                }
            }
        } else {
            assert forall|i: int, j: int| 0 <= i < j < t.pending.len() implies #[trigger] t.pending[i].sid
                != #[trigger] t.pending[j].sid by {
                if j < u.pending.len() {
                    assert(u.pending[i].sid != u.pending[j].sid);
                } else {
                    assert(u.pending[i].sid != sid);
                }
            }
        }
    }
}

impl ServerView {
    /// Resource bounds.
    pub open spec fn bounded(self) -> bool {
        &&& sids_distinct(self.pending)
        &&& self.pending.len() <= self.cfg.max_pending
        &&& distinct(self.buckets)
        &&& self.buckets.len() <= MAX_RATE_BUCKETS
    }
}

proof fn lemma_pending_slot(s: Seq<PendingView>, sid: Seq<u8>)
    ensures
        0 <= pending_slot(s, sid) <= s.len(),
        pending_slot(s, sid) < s.len() ==> s[pending_slot(s, sid)].sid == sid,
        forall|j: int| 0 <= j < pending_slot(s, sid) ==> #[trigger] s[j].sid != sid,
    decreases s.len(),
{
    if s.len() > 0 {
        let t = s.drop_last();
        lemma_pending_slot(t, sid);
        let k = pending_slot(s, sid);
        assert forall|j: int| 0 <= j < k implies #[trigger] s[j].sid != sid by {
            if j < t.len() {
                assert(t[j].sid != sid);
            }
        }
    }
}

proof fn lemma_slot_at(s: Seq<PendingView>, k: int)
    requires
        sids_distinct(s),
        0 <= k < s.len(),
    ensures
        pending_slot(s, s[k].sid) == k,
{
    let m = pending_slot(s, s[k].sid);
    lemma_pending_slot(s, s[k].sid);
    if k < m {
    } else if m < k {
        assert(s[m].sid != s[k].sid);
    }
}

proof fn lemma_same_sids(s: Seq<PendingView>, t: Seq<PendingView>)
    requires
        s.len() == t.len(),
        forall|i: int| 0 <= i < s.len() ==> #[trigger] s[i].sid == t[i].sid,
        sids_distinct(s),
    ensures
        sids_distinct(t),
{
    assert forall|i: int, j: int| 0 <= i < j < t.len() implies #[trigger] t[i].sid
        != #[trigger] t[j].sid by {
        assert(s[i].sid == t[i].sid && s[j].sid == t[j].sid);
    }
}

proof fn lemma_filter_keeps(s: Seq<PendingView>, p: spec_fn(PendingView) -> bool, k: int)
    requires
        0 <= k < s.len(),
        p(s[k]),
    ensures
        exists|j: int| 0 <= j < s.filter(p).len() && s.filter(p)[j] == s[k],
    decreases s.len(),
{
    reveal(Seq::filter);
    let t = s.drop_last();
    if k < t.len() {
        lemma_filter_keeps(t, p, k);
        let j = choose|j: int| 0 <= j < t.filter(p).len() && t.filter(p)[j] == t[k];
        assert(s.filter(p)[j] == s[k]);
    } else {
        let j = t.filter(p).len() as int;
        assert(s.filter(p)[j] == s[k]);
    }
}

proof fn lemma_filter_sids_len(s: Seq<PendingView>, p: spec_fn(PendingView) -> bool)
    ensures
        s.filter(p).len() <= s.len(),
{
    s.lemma_filter_len(p);
}

proof fn lemma_filter_sids(s: Seq<PendingView>, p: spec_fn(PendingView) -> bool)
    requires
        sids_distinct(s),
    ensures
        sids_distinct(s.filter(p)),
        forall|i: int|
            0 <= i < s.filter(p).len() ==> exists|k: int|
                0 <= k < s.len() && s[k] == #[trigger] s.filter(p)[i],
    decreases s.len(),
{
    reveal(Seq::filter);
    if s.len() > 0 {
        let t = s.drop_last();
        lemma_filter_sids(t, p);
        let f = t.filter(p);
        let g = s.filter(p);
        assert forall|i: int| 0 <= i < f.len() implies f[i].sid != s.last().sid by {
            let k = choose|k: int| 0 <= k < t.len() && t[k] == #[trigger] f[i];
            assert(s[k].sid != s[s.len() - 1].sid);
        }
        assert forall|i: int| 0 <= i < g.len() implies exists|k: int|
            0 <= k < s.len() && s[k] == #[trigger] g[i] by {
            if i < f.len() {
                let k = choose|k: int| 0 <= k < t.len() && t[k] == #[trigger] f[i];
                assert(s[k] == g[i]);
            } else {
                assert(s[s.len() - 1] == g[i]);
            }
        }
        if p(s.last()) {
            assert(g == f.push(s.last()));
            assert forall|i: int, j: int| 0 <= i < j < g.len() implies #[trigger] g[i].sid
                != #[trigger] g[j].sid by {
                if j < f.len() {
                    assert(f[i].sid != f[j].sid);
                }
            }
        }
    }
}

/// The answer to an authenticated client, made from fresh keys: what will be
/// kept for each possible signature, and the digest to sign, which is TH2 of
/// the client's hello and of the signed answer.
pub open spec fn answers(s: ServerView, request: M1Respond, keys: ServerKeys, q: M2Sign) -> bool {
    &&& q.session() == request.session()
    &&& q.source() == request.source()
    &&& q.wire_version() == s.cfg.version
    &&& forall|sig: MlDsaSignature|
        (#[trigger] q.confirm(sig)) == (ConfirmView {
            m1: request.hello().encoding(),
            m2: m2_layout(
                s.cfg.version,
                request.session(),
                keys.kem_public.bytes@,
                x25519_of(keys.x_secret@, X25519_BASE@),
                keys.ct2.bytes@,
                sig.bytes@,
            ),
            ss_a: keys.ss_a@,
            dh: x25519_of(keys.x_secret@, request.hello().x_c@),
            kem_secret: keys.kem_secret@,
            client: request.identity(),
        })
    &&& forall|sig: MlDsaSignature|
        q.to_sign() == th2(request.hello().encoding(), (#[trigger] q.confirm(sig)).m2)
}

/// Server-side handshake machine.
pub struct ServerHandshake {
    cfg: ServerConfig,
    pending: Vec<PendingSession>,
    buckets: BucketTable,
}

spec fn views(s: Seq<PendingSession>) -> Seq<PendingView> {
    Seq::new(s.len(), |i: int| s[i]@)
}

impl View for ServerHandshake {
    type V = ServerView;

    closed spec fn view(&self) -> ServerView {
        ServerView { cfg: self.cfg@, pending: views(self.pending@), buckets: self.buckets@ }
    }
}

/// What a step of the machine has to be, given what the datagram calls for.
pub open spec fn step_is(
    r: ServerStep,
    reply: ServerReply,
    sid: Seq<u8>,
    from: PeerAddr,
) -> bool {
    match reply {
        ServerReply::Nothing => r matches ServerStep::Event(e) && e is Nothing,
        ServerReply::Resend(d, to) => r matches ServerStep::Event(ServerEvent::Emit(p, peer))
            && datagrams(p@) == d && peer == to,
        ServerReply::Authenticate(m1) => {
            &&& r matches ServerStep::Authenticate(a)
            &&& a.session() == sid
            &&& a.source() == from
            &&& a.hello().encoding() == m1
            &&& a.signed() == th1(m1)
        },
        ServerReply::Decapsulate(m3) => {
            &&& r matches ServerStep::Decapsulate(c)
            &&& c.session() == sid
            &&& c.source() == from
            &&& c.confirm().encoding() == m3
            &&& c.confirm().version == PROTOCOL_VERSION
        },
    }
}

/// A consistent machine keeps its resource bounds.
pub proof fn server_machine_is_bounded(h: ServerHandshake)
    requires
        h.wf(),
    ensures
        h@.bounded(),
{
}

impl ServerHandshake {
    /// Internal consistency.
    pub closed spec fn wf(self) -> bool {
        &&& self@.bounded()
        &&& forall|i: int| 0 <= i < self.pending@.len() ==> (#[trigger] self.pending@[i]).wf()
    }

    /// A machine without pending handshakes.
    pub fn new(cfg: &ServerConfig) -> (r: Self)
        ensures
            r.wf(),
            r@ == (ServerView { cfg: cfg@, pending: Seq::empty(), buckets: Seq::empty() }),
    {
        let r = ServerHandshake {
            cfg: cfg.duplicate(),
            pending: Vec::new(),
            buckets: BucketTable::new(),
        };
        assert(r@.pending =~= Seq::empty());
        r
    }

    /// Number of pending handshakes.
    pub fn pending_len(&self) -> (r: usize)
        ensures
            r == self@.pending.len(),
    {
        self.pending.len()
    }

    /// The keys against which client signatures are verified.
    pub fn roster(&self) -> (r: &[MlDsaPublicKey])
        ensures
            r@ == self@.cfg.roster,
    {
        self.cfg.roster.as_slice()
    }

    /// The version of this server.
    pub fn version(&self) -> (r: u8)
        ensures
            r == self@.cfg.version,
    {
        self.cfg.version
    }

    /// Number of sources with a budget.
    pub fn rate_bucket_count(&self) -> (r: usize)
        ensures
            r == self@.buckets.len(),
    {
        self.buckets.len()
    }

    fn limits(&self) -> (r: BucketLimits)
        ensures
            r == self@.limits(),
    {
        BucketLimits {
            burst: self.cfg.rate_limit_burst,
            window: self.cfg.rate_limit_window,
            cap: MAX_RATE_BUCKETS,
        }
    }

    /// Removes pending handshakes that have not advanced within their lifetime.
    pub fn evict_expired(&mut self, now: Instant)
        requires
            old(self).wf(),
        ensures
            final(self).wf(),
            final(self)@ == old(self)@.evicted(now),
    {
        let n: usize = self.pending.len();
        let ghost all = views(self.pending@);
        let ghost p = alive(now, self.cfg.pending_ttl);
        let ttl = self.cfg.pending_ttl;
        let mut k: usize = 0;
        let mut i: usize = 0;
        proof {
            lemma_filter_sids_len(all, p);
            lemma_filter_sids(all, p);
            assert(all.subrange(0, 0).filter(p) =~= Seq::empty()) by {
                reveal(Seq::filter);
            }
            assert(views(self.pending@) =~= all.subrange(0, 0).filter(p) + all.subrange(
                0,
                n as int,
            ));
        }
        while k < n
            invariant
                k <= n,
                n == all.len(),
                p == alive(now, ttl),
                i == all.subrange(0, k as int).filter(p).len(),
                self.cfg == old(self).cfg,
                self.buckets == old(self).buckets,
                forall|j: int| 0 <= j < self.pending@.len() ==> (#[trigger] self.pending@[j]).wf(),
                views(self.pending@) == all.subrange(0, k as int).filter(p) + all.subrange(
                    k as int,
                    n as int,
                ),
            decreases n - k,
        {
            let ghost kept = all.subrange(0, k as int).filter(p);
            let ghost rest = all.subrange(k as int, n as int);
            let ghost before = self.pending@;
            assert(views(before).len() == before.len());
            assert(views(before)[i as int] == rest[0]);
            let live: bool = !at_least(now.duration_since(self.pending[i].last_seen), ttl);
            proof {
                assert(all.subrange(0, k + 1).drop_last() =~= all.subrange(0, k as int));
                reveal(Seq::filter);
                assert(all.subrange(k + 1, n as int) =~= rest.subrange(1, rest.len() as int));
            }
            if live {
                i += 1;
                proof {
                    assert(views(self.pending@) =~= kept.push(rest[0]) + all.subrange(
                        k + 1,
                        n as int,
                    ));
                }
            } else {
                self.pending.remove(i);
                proof {
                    assert(self.pending@ == before.remove(i as int));
                    assert(views(self.pending@) =~= views(before).remove(i as int));
                    assert(views(before).remove(i as int) =~= kept + rest.subrange(
                        1,
                        rest.len() as int,
                    ));
                }
            }
            k += 1;
        }
        proof {
            assert(all.subrange(0, n as int) =~= all);
            assert(views(self.pending@) =~= all.filter(p));
        }
    }

    /// Charges the budget of a source; whether it had a token.
    fn rate_ok(&mut self, from: PeerAddr, now: Instant) -> (r: bool)
        requires
            old(self).wf(),
        ensures
            final(self).wf(),
            final(self)@ == old(self)@.charged(from, now),
            final(self).pending == old(self).pending,
            r == old(self)@.has_token(from, now),
    {
        let l = self.limits();
        proof {
            table_stays_capped(self.buckets@, from, now, l);
        }
        self.buckets.take(from, now, &l)
    }

    /// Index of the pending handshake of a session, the length if there is
    /// none.
    fn find(&self, sid: &[u8; SESSION_ID_LEN]) -> (r: usize)
        ensures
            r == pending_slot(self@.pending, sid@),
            r <= self.pending@.len(),
            r < self.pending@.len() ==> self.pending@[r as int].sid@ == sid@,
    {
        let ghost s = self@.pending;
        let mut i: usize = 0;
        while i < self.pending.len()
            invariant
                i <= self.pending@.len(),
                s == views(self.pending@),
                forall|j: int| 0 <= j < i ==> #[trigger] s[j].sid != sid@,
            decreases self.pending@.len() - i,
        {
            proof {
                lemma_array_ext(self.pending@[i as int].sid, *sid);
                assert(s[i as int].sid == self.pending@[i as int].sid@);
            }
            if arrays_eq(&self.pending[i].sid, sid) {
                proof {
                    lemma_pending_slot(s, sid@);
                }
                return i;
            }
            i += 1;
        }
        proof {
            lemma_pending_slot(s, sid@);
        }
        i
    }

    /// Replaces the pending handshake at `k`.
    fn replace(&mut self, k: usize, e: PendingSession)
        requires
            old(self).wf(),
            k < old(self).pending@.len(),
            e.wf(),
            e.sid@ == old(self).pending@[k as int].sid@,
        ensures
            final(self).wf(),
            final(self)@ == old(self)@.with_entry(k as int, e@),
    {
        let ghost before = self@.pending;
        self.pending[k] = e;
        proof {
            assert(views(self.pending@) =~= before.update(k as int, e@));
            assert(before[k as int].sid == e@.sid);
            lemma_same_sids(before, self@.pending);
        }
    }

    fn drop_at(&mut self, k: usize)
        requires
            old(self).wf(),
            k < old(self).pending@.len(),
        ensures
            final(self).wf(),
            final(self)@ == old(self)@.without(k as int),
    {
        let ghost before = self@.pending;
        self.pending.remove(k);
        proof {
            assert(views(self.pending@) =~= before.remove(k as int));
            assert forall|i: int, j: int| 0 <= i < j < self@.pending.len() implies #[trigger] self@.pending[i].sid
                != #[trigger] self@.pending[j].sid by {
                let i2 = if i >= k {
                    i + 1
                } else {
                    i
                };
                let j2 = if j >= k {
                    j + 1
                } else {
                    j
                };
                assert(before[i2].sid != before[j2].sid);
            }
        }
    }

    /// Processes a received datagram.
    pub fn handle_datagram(&mut self, pkt: &WirePacket, from: PeerAddr, now: Instant) -> (r:
        ServerStep)
        requires
            old(self).wf(),
        ensures
            final(self).wf(),
            final(self)@ == old(self)@.on_datagram(pkt@, from, now).0,
            step_is(r, old(self)@.on_datagram(pkt@, from, now).1, pkt@.subrange(1, 9), from),
    {
        let t: u8 = pkt.bytes[9];
        if t != HS_TYPE_CLIENT_HELLO && t != HS_TYPE_CLIENT_CONFIRM {
            return ServerStep::Event(ServerEvent::Nothing);
        }
        let frag = match HandshakeFragment::from_datagram(pkt) {
            Ok(f) => f,
            Err(_) => return ServerStep::Event(ServerEvent::Nothing),
        };
        if t == HS_TYPE_CLIENT_HELLO {
            self.on_m1_fragment(frag, from, now, Ghost(pkt@))
        } else {
            self.on_m3_fragment(frag, from, now, Ghost(pkt@))
        }
    }

    fn on_m1_fragment(
        &mut self,
        frag: HandshakeFragment,
        from: PeerAddr,
        now: Instant,
        Ghost(dg): Ghost<Seq<u8>>,
    ) -> (r: ServerStep)
        requires
            old(self).wf(),
            fragment_of(dg, frag),
            dg[9] == HS_TYPE_CLIENT_HELLO,
        ensures
            final(self).wf(),
            final(self)@ == old(self)@.on_m1(dg, from, now).0,
            step_is(r, old(self)@.on_m1(dg, from, now).1, dg.subrange(1, 9), from),
    {
        self.evict_expired(now);
        let k: usize = self.find(&frag.sid);
        if k == self.pending.len() {
            return self.open_pending(frag, from, now, Ghost(dg));
        }
        assert(self@.pending[k as int] == self.pending@[k as int]@);
        assert(self.pending@[k as int].wf());
        if self.pending[k].source != from {
            return ServerStep::Event(ServerEvent::Nothing);
        }
        match &self.pending[k].stage {
            PendingStage::AwaitM1(_) => self.collect(k, frag, from, now, Ghost(dg)),
            PendingStage::AwaitM3(_) => self.resend(k, frag, from, now, Ghost(dg)),
        }
    }

    /// A first fragment of an unknown session.
    fn open_pending(
        &mut self,
        frag: HandshakeFragment,
        from: PeerAddr,
        now: Instant,
        Ghost(dg): Ghost<Seq<u8>>,
    ) -> (r: ServerStep)
        requires
            old(self).wf(),
            fragment_of(dg, frag),
            dg[9] == HS_TYPE_CLIENT_HELLO,
            pending_slot(old(self)@.pending, frag.sid@) == old(self)@.pending.len(),
        ensures
            final(self).wf(),
            final(self)@ == old(self)@.on_new(dg, from, now).0,
            step_is(r, old(self)@.on_new(dg, from, now).1, dg.subrange(1, 9), from),
    {
        if frag.frag_idx != 0 {
            return ServerStep::Event(ServerEvent::Nothing);
        }
        if !self.rate_ok(from, now) {
            return ServerStep::Event(ServerEvent::Nothing);
        }
        if self.pending.len() >= self.cfg.max_pending {
            return ServerStep::Event(ServerEvent::Nothing);
        }
        let mut assembler = FragmentAssembler::new(HS_TYPE_CLIENT_HELLO).unwrap();
        let _ = assembler.add_fragment(&frag);
        let ghost before = self@.pending;
        let e = PendingSession {
            sid: frag.sid,
            source: from,
            last_seen: now,
            started: now,
            stage: PendingStage::AwaitM1(assembler),
        };
        self.pending.push(e);
        proof {
            assert(views(self.pending@) =~= before.push(e@));
            lemma_pending_slot(before, frag.sid@);
            assert forall|i: int, j: int| 0 <= i < j < self@.pending.len() implies #[trigger] self@.pending[i].sid
                != #[trigger] self@.pending[j].sid by {
                if j < before.len() {
                    assert(before[i].sid != before[j].sid);
                } else {
                    assert(before[i].sid != frag.sid@);
                }
            }
        }
        ServerStep::Event(ServerEvent::Nothing)
    }

    /// A fragment of a session that is being collected.
    fn collect(
        &mut self,
        k: usize,
        frag: HandshakeFragment,
        from: PeerAddr,
        now: Instant,
        Ghost(dg): Ghost<Seq<u8>>,
    ) -> (r: ServerStep)
        requires
            old(self).wf(),
            fragment_of(dg, frag),
            dg[9] == HS_TYPE_CLIENT_HELLO,
            k < old(self).pending@.len(),
            old(self).pending@[k as int].stage is AwaitM1,
            old(self)@.pending[k as int].sid == frag.sid@,
        ensures
            final(self).wf(),
            final(self)@ == old(self)@.on_collect(
                k as int,
                old(self)@.pending[k as int].stage->AwaitM1_0,
                dg,
                from,
                now,
            ).0,
            step_is(
                r,
                old(self)@.on_collect(
                    k as int,
                    old(self)@.pending[k as int].stage->AwaitM1_0,
                    dg,
                    from,
                    now,
                ).1,
                dg.subrange(1, 9),
                from,
            ),
    {
        let ghost start = self@;
        let ghost before = self.pending@;
        assert(self.pending@[k as int].wf());
        let e = self.pending.remove(k);
        let ghost e0 = e@;
        assert(e0 == start.pending[k as int]);
        let PendingSession { sid, source, last_seen, started, stage } = e;
        match stage {
            PendingStage::AwaitM1(mut assembler) => {
                let result = assembler.add_fragment(&frag);
                let seen = if result == FragmentResult::Advanced {
                    now
                } else {
                    last_seen
                };
                let complete: bool = result == FragmentResult::Completed;
                let m1_bytes: Vec<u8> = if complete {
                    slice_to_vec(assembler.message().unwrap())
                } else {
                    Vec::new()
                };
                proof {
                    assembler_is_well_formed(assembler);
                }
                let e1 = PendingSession {
                    sid,
                    source,
                    last_seen: seen,
                    started,
                    stage: PendingStage::AwaitM1(assembler),
                };
                self.pending.insert(k, e1);
                proof {
                    assert(self.pending@ =~= before.update(k as int, e1));
                    assert(views(self.pending@) =~= start.pending.update(k as int, e1@));
                    lemma_same_sids(start.pending, self@.pending);
                    if result == FragmentResult::Ignored {
                        assert(self@.pending =~= start.pending);
                    }
                }
                if !complete {
                    return ServerStep::Event(ServerEvent::Nothing);
                }
                if !self.rate_ok(from, now) {
                    return ServerStep::Event(ServerEvent::Nothing);
                }
                self.complete_m1(k, m1_bytes, from)
            },
            PendingStage::AwaitM3(_) => {
                assert(false);
                ServerStep::Event(ServerEvent::Nothing)
            },
        }
    }

    /// A complete ClientHello: thrown away, or handed out for authentication.
    fn complete_m1(&mut self, k: usize, m1_bytes: Vec<u8>, from: PeerAddr) -> (r: ServerStep)
        requires
            old(self).wf(),
            k < old(self).pending@.len(),
            m1_bytes@.len() == M1_BODY_LEN,
        ensures
            final(self).wf(),
            ({
                let sid = old(self)@.pending[k as int].sid;
                if old(self)@.checkable(sid, m1_bytes@) {
                    final(self)@ == old(self)@ && step_is(
                        r,
                        ServerReply::Authenticate(m1_bytes@),
                        sid,
                        from,
                    )
                } else {
                    final(self)@ == old(self)@.without(k as int) && step_is(
                        r,
                        ServerReply::Nothing,
                        sid,
                        from,
                    )
                }
            }),
    {
        let sid = self.pending[k].sid;
        assert(self@.pending[k as int].sid == sid@);
        let m1 = match ClientHello::decode(m1_bytes.as_slice()) {
            Ok(m) => m,
            Err(_) => {
                self.drop_at(k);
                return ServerStep::Event(ServerEvent::Nothing);
            },
        };
        proof {
            assert(m1_bytes@.subrange(1, 9) =~= m1.sid@);
            assert(m1_bytes@[0] == m1.version);
            lemma_array_ext(m1.sid, sid);
        }
        if m1.version != self.cfg.version || !arrays_eq(&m1.sid, &sid) {
            self.drop_at(k);
            return ServerStep::Event(ServerEvent::Nothing);
        }
        let digest = th1_from_m1(m1_bytes.as_slice()).unwrap();
        ServerStep::Authenticate(M1Auth { sid, from, digest, m1 })
    }

    /// A fragment of a session that was already answered.
    fn resend(
        &mut self,
        k: usize,
        frag: HandshakeFragment,
        from: PeerAddr,
        now: Instant,
        Ghost(dg): Ghost<Seq<u8>>,
    ) -> (r: ServerStep)
        requires
            old(self).wf(),
            fragment_of(dg, frag),
            k < old(self).pending@.len(),
            old(self).pending@[k as int].stage is AwaitM3,
        ensures
            final(self).wf(),
            final(self)@ == old(self)@.on_duplicate(
                k as int,
                old(self)@.pending[k as int].stage->AwaitM3_0,
                dg,
                from,
                now,
            ).0,
            step_is(
                r,
                old(self)@.on_duplicate(
                    k as int,
                    old(self)@.pending[k as int].stage->AwaitM3_0,
                    dg,
                    from,
                    now,
                ).1,
                dg.subrange(1, 9),
                from,
            ),
    {
        if frag.frag_idx != 0 {
            return ServerStep::Event(ServerEvent::Nothing);
        }
        if !self.rate_ok(from, now) {
            return ServerStep::Event(ServerEvent::Nothing);
        }
        assert(self.pending@[k as int].wf());
        let e = &self.pending[k];
        match &e.stage {
            PendingStage::AwaitM3(c) => {
                match fragment_message(
                    HS_TYPE_SERVER_HELLO,
                    self.cfg.version,
                    e.sid,
                    c.m2.as_slice(),
                ) {
                    Ok(frags) => ServerStep::Event(ServerEvent::Emit(frags, e.source)),
                    Err(_) => ServerStep::Event(ServerEvent::Nothing),
                }
            },
            PendingStage::AwaitM1(_) => ServerStep::Event(ServerEvent::Nothing),
        }
    }

    fn on_m3_fragment(
        &mut self,
        frag: HandshakeFragment,
        from: PeerAddr,
        now: Instant,
        Ghost(dg): Ghost<Seq<u8>>,
    ) -> (r: ServerStep)
        requires
            old(self).wf(),
            fragment_of(dg, frag),
            dg[9] == HS_TYPE_CLIENT_CONFIRM,
        ensures
            final(self).wf(),
            final(self)@ == old(self)@.on_m3(dg, from, now).0,
            step_is(r, old(self)@.on_m3(dg, from, now).1, dg.subrange(1, 9), from),
    {
        self.evict_expired(now);
        if !self.rate_ok(from, now) {
            return ServerStep::Event(ServerEvent::Nothing);
        }
        let k: usize = self.find(&frag.sid);
        if k == self.pending.len() {
            return ServerStep::Event(ServerEvent::Nothing);
        }
        assert(self@.pending[k as int] == self.pending@[k as int]@);
        let waiting: bool = match &self.pending[k].stage {
            PendingStage::AwaitM3(_) => true,
            PendingStage::AwaitM1(_) => false,
        };
        if self.pending[k].source != from || !waiting {
            return ServerStep::Event(ServerEvent::Nothing);
        }
        let m3 = match ClientConfirm::decode(frag.body.as_slice()) {
            Ok(m) => m,
            Err(_) => return ServerStep::Event(ServerEvent::Nothing),
        };
        proof {
            assert(frag.body@ =~= dg.subrange(12, 1125));
            assert(frag.body@.subrange(1, 9) =~= m3.sid@);
            assert(frag.body@[0] == m3.version);
            lemma_array_ext(m3.sid, frag.sid);
        }
        if m3.version != self.cfg.version || !arrays_eq(&m3.sid, &frag.sid) {
            return ServerStep::Event(ServerEvent::Nothing);
        }
        ServerStep::Decapsulate(M3Check { from, m3 })
    }

    /// Resumes with the verdicts on a client signature, one for each key of
    /// the roster. A client that no key knows is dropped without an answer.
    pub fn on_authenticated(
        &mut self,
        auth: M1Auth,
        verdicts: Result<Vec<bool>, CryptoError>,
    ) -> (r: Result<AuthStep, HandshakeV2Error>)
        requires
            old(self).wf(),
        ensures
            final(self).wf(),
            match verdicts {
                Err(e) => final(self)@ == old(self)@ && r == Err::<AuthStep, HandshakeV2Error>(
                    HandshakeV2Error::Crypto(e),
                ),
                Ok(v) => match matched(old(self)@.cfg.roster, v@) {
                    None => final(self)@ == old(self)@.forgotten(auth.session()) && (r matches Ok(
                        AuthStep::Event(e),
                    ) && e is Nothing),
                    Some(key) => {
                        &&& final(self)@ == old(self)@
                        &&& r matches Ok(AuthStep::Respond(q))
                        &&& q.session() == auth.session()
                        &&& q.source() == auth.source()
                        &&& q.hello() == auth.hello()
                        &&& q.identity() == key
                    },
                },
            },
    {
        let v = match verdicts {
            Ok(v) => v,
            Err(e) => return Err(HandshakeV2Error::Crypto(e)),
        };
        let ghost roster = self@.cfg.roster;
        let n: usize = self.cfg.roster.len();
        let mut found: Option<MlDsaPublicKey> = None;
        let mut i: usize = 0;
        while i < n
            invariant
                i <= n,
                n == roster.len(),
                roster == self.cfg.roster@,
                found == matched(roster.subrange(0, i as int), v@),
            decreases n - i,
        {
            proof {
                assert(roster.subrange(0, i + 1).drop_last() =~= roster.subrange(0, i as int));
            }
            if i < v.len() && v[i] {
                found = Some(self.cfg.roster[i]);
            }
            i += 1;
        }
        assert(roster.subrange(0, n as int) =~= roster);
        match found {
            None => {
                let k: usize = self.find(&auth.sid);
                if k < self.pending.len() {
                    self.drop_at(k);
                }
                Ok(AuthStep::Event(ServerEvent::Nothing))
            },
            Some(client) => Ok(
                AuthStep::Respond(
                    M1Respond { sid: auth.sid, from: auth.from, m1: auth.m1, client },
                ),
            ),
        }
    }

    /// Resumes with fresh keys: builds the answer that is to be signed.
    pub fn on_keys(&self, request: M1Respond, reply: Result<ServerKeys, CryptoError>) -> (r: Result<
        M2Sign,
        HandshakeV2Error,
    >)
        ensures
            match reply {
                Err(e) => r == Err::<M2Sign, HandshakeV2Error>(HandshakeV2Error::Crypto(e)),
                Ok(keys) => r matches Ok(q) && answers(self@, request, keys, q),
            },
    {
        let keys = match reply {
            Ok(k) => k,
            Err(e) => return Err(HandshakeV2Error::Crypto(e)),
        };
        let version: u8 = self.cfg.version;
        let x_s = x25519(keys.x_secret.as_bytes(), &X25519_BASE);
        let dh = Secret32::from_bytes(x25519(keys.x_secret.as_bytes(), &request.m1.x_c));
        let m1_bytes = request.m1.encode();
        let m2_z = encode_m2(version, &request.sid, &keys.kem_public, &x_s, &keys.ct2, None);
        proof {
            client_hello_roundtrip(request.m1, request.m1);
        }
        let digest = th2_from_m1_m2(&m1_bytes, &m2_z).unwrap();
        let q = M2Sign {
            sid: request.sid,
            from: request.from,
            m1: request.m1,
            client: request.client,
            digest,
            x_s,
            dh,
            keys,
            version,
        };
        proof {
            let m1 = request.m1.encoding();
            let m3 = zeros(body_len(HS_TYPE_CLIENT_CONFIRM) as nat);
            assert forall|sig: MlDsaSignature|
                q.to_sign() == th2(m1, (#[trigger] q.confirm(sig)).m2) by {
                let m2 = q.confirm(sig).m2;
                assert(m2.len() == M2_BODY_LEN);
                digests_ignore_slots(m1, m1, m2, m2_z@, m3, m3);
            }
        }
        Ok(q)
    }

    /// Resumes with the signature of the answer: the handshake now waits for
    /// the confirmation, and the answer is sent. If the pending handshake is
    /// gone by then, nothing happens.
    pub fn on_signed(
        &mut self,
        request: M2Sign,
        signature: Result<MlDsaSignature, CryptoError>,
        now: Instant,
    ) -> (r: Result<ServerEvent, HandshakeV2Error>)
        requires
            old(self).wf(),
        ensures
            final(self).wf(),
            match signature {
                Err(e) => final(self)@ == old(self)@ && r == Err::<ServerEvent, HandshakeV2Error>(
                    HandshakeV2Error::Crypto(e),
                ),
                Ok(sig) => if pending_slot(old(self)@.pending, request.session()) < old(
                    self,
                )@.pending.len() {
                    &&& final(self)@ == old(self)@.answered(
                        request.session(),
                        request.confirm(sig),
                        now,
                    )
                    &&& r matches Ok(ServerEvent::Emit(p, peer)) && peer == request.source()
                        && datagrams(p@) == fragments(
                        HS_TYPE_SERVER_HELLO,
                        request.wire_version(),
                        request.session(),
                        request.confirm(sig).m2,
                    )
                } else {
                    final(self)@ == old(self)@ && (r matches Ok(e) && e is Nothing)
                },
            },
    {
        let server_sig = match signature {
            Ok(s) => s,
            Err(e) => return Err(HandshakeV2Error::Crypto(e)),
        };
        let m2 = ServerHello {
            version: request.version,
            sid: request.sid,
            eph_pk_s: request.keys.kem_public,
            x_s: request.x_s,
            ct2: request.keys.ct2,
            server_sig,
        };
        let m2_bytes = m2.encode();
        proof {
            server_hello_roundtrip(m2, m2);
            client_hello_roundtrip(request.m1, request.m1);
        }
        let frags = match fragment_message(
            HS_TYPE_SERVER_HELLO,
            request.version,
            request.sid,
            &m2_bytes,
        ) {
            Ok(f) => f,
            Err(e) => return Err(HandshakeV2Error::Codec(e)),
        };
        let k: usize = self.find(&request.sid);
        if k == self.pending.len() {
            return Ok(ServerEvent::Nothing);
        }
        let m1_bytes = request.m1.encode();
        let ghost confirm = request.confirm(server_sig);
        let e = PendingSession {
            sid: request.sid,
            source: self.pending[k].source,
            last_seen: now,
            started: self.pending[k].started,
            stage: PendingStage::AwaitM3(
                AwaitM3 {
                    m1: slice_to_vec(&m1_bytes),
                    m2: slice_to_vec(&m2_bytes),
                    ss_a: request.keys.ss_a,
                    dh: request.dh,
                    kem_secret: request.keys.kem_secret,
                    client: request.client,
                },
            ),
        };
        self.replace(k, e);
        Ok(ServerEvent::Emit(frags, request.from))
    }

    /// The decapsulation key for a confirmation that is being checked.
    pub fn confirm_secret(&self, check: &M3Check) -> (r: Option<&MlKemSecretKey>)
        ensures
            ({
                let k = pending_slot(self@.pending, check.session());
                match r {
                    Some(key) => k < self@.pending.len() && (self@.pending[k].stage matches StageView::AwaitM3(
                        c,
                    ) && key@ == c.kem_secret),
                    None => k < self@.pending.len() ==> self@.pending[k].stage is AwaitM1,
                }
            }),
    {
        let k: usize = self.find(&check.m3.sid);
        if k == self.pending.len() {
            return None;
        }
        assert(self@.pending[k as int] == self.pending@[k as int]@);
        match &self.pending[k].stage {
            PendingStage::AwaitM3(c) => Some(&c.kem_secret),
            PendingStage::AwaitM1(_) => None,
        }
    }

    /// Resumes with the decapsulated secret of a confirmation. A genuine one
    /// completes the handshake; a forged one changes nothing.
    pub fn on_decapsulated(
        &mut self,
        check: M3Check,
        secret: Result<SharedSecret, CryptoError>,
        now: Instant,
    ) -> (r: Result<ServerEvent, HandshakeV2Error>)
        requires
            old(self).wf(),
        ensures
            final(self).wf(),
            match secret {
                Err(e) => final(self)@ == old(self)@ && r == Err::<ServerEvent, HandshakeV2Error>(
                    HandshakeV2Error::Crypto(e),
                ),
                Ok(ss_b) => {
                    let out = old(self)@.on_decapsulated(
                        check.confirm(),
                        ss_b@,
                        check.source(),
                        now,
                    );
                    &&& final(self)@ == out.0
                    &&& match out.1 {
                        Some(v) => r matches Ok(ServerEvent::Complete(o)) && o@ == v,
                        None => r matches Ok(e) && e is Nothing,
                    }
                },
            },
    {
        let ss_b = match secret {
            Ok(s) => s,
            Err(e) => return Err(HandshakeV2Error::Crypto(e)),
        };
        let k: usize = self.find(&check.m3.sid);
        if k == self.pending.len() {
            return Ok(ServerEvent::Nothing);
        }
        assert(self@.pending[k as int] == self.pending@[k as int]@);
        assert(self.pending@[k as int].wf());
        if self.pending[k].source != check.from {
            return Ok(ServerEvent::Nothing);
        }
        let (master, client, genuine): (Secret32, MlDsaPublicKey, bool) = match &self.pending[k].stage {
            PendingStage::AwaitM1(_) => return Ok(ServerEvent::Nothing),
            PendingStage::AwaitM3(c) => {
                let m3 = &check.m3;
                let m3_bytes = m3.encode();
                proof {
                    client_confirm_roundtrip(*m3, *m3);
                }
                let th3_d = th3_from_m1_m2_m3(c.m1.as_slice(), c.m2.as_slice(), &m3_bytes).unwrap();
                let master = derive_master(&c.ss_a, &ss_b, &c.dh, m3.version, &m3.sid, &th3_d);
                let expected = compute_client_finished(&master, m3.version, &m3.sid, &th3_d);
                let genuine: bool = ct_eq(&expected, &m3.client_finished);
                (master, c.client, genuine)
            },
        };
        if !genuine {
            return Ok(ServerEvent::Nothing);
        }
        let duration = now.duration_since(self.pending[k].started);
        self.drop_at(k);
        Ok(
            ServerEvent::Complete(
                HandshakeOutcome {
                    master,
                    session_id: check.m3.sid,
                    peer_identity: client,
                    handshake_duration: duration,
                },
            ),
        )
    }
}

/// The outcome of a server is bound to the whole handshake: its master secret is
/// derived from the three secrets that it holds, in the same order as the
/// client's, and from the version, the session and the digest of all three
/// messages; and a confirmation is genuine exactly if it carries the MAC of that
/// digest under that secret.
pub proof fn server_outcome_is_a_hybrid(
    s: ServerView,
    kept: ConfirmView,
    m3: ClientConfirm,
    ss_b: Seq<u8>,
    from: PeerAddr,
    now: Instant,
)
    requires
        kept.m1.len() == 4534,
        kept.m2.len() == 5622,
        s.awaits(m3.sid@, from),
        s.pending[pending_slot(s.pending, m3.sid@)].stage == StageView::AwaitM3(kept),
    ensures
        ({
            let th3 = sha256_of(
                "pq-tunnel-v1"@.map_values(|c: char| c as u8) + (kept.m1.subrange(0, 1225) + zeros(
                    3309,
                )) + (kept.m2.subrange(0, 2313) + zeros(3309)) + (seq![m3.version] + m3.sid@
                    + m3.ct3.bytes@ + zeros(16)),
            );
            let master = hkdf_sha256_of(
                zeros(32),
                kept.ss_a + ss_b + kept.dh,
                "pq-tunnel-master-v2"@.map_values(|c: char| c as u8) + seq![m3.version] + m3.sid@
                    + th3,
            );
            let mac = hmac_sha256_of(
                hkdf_sha256_of(
                    zeros(32),
                    master,
                    "pq-tunnel-finished-v1"@.map_values(|c: char| c as u8) + seq![m3.version]
                        + m3.sid@,
                ),
                th3,
            ).subrange(0, 16);
            let out = s.on_decapsulated(m3, ss_b, from, now);
            &&& out.1 is Some <==> m3.client_finished@ == mac
            &&& out.1 matches Some(o) ==> {
                &&& o.master == master
                &&& o.session_id == m3.sid
                &&& o.peer_identity == kept.client
                &&& o.handshake_nanos == elapsed(
                    now,
                    s.pending[pending_slot(s.pending, m3.sid@)].started,
                )
            }
        }),
{
    client_confirm_roundtrip(m3, m3);
    digests_hash_the_messages(kept.m1, kept.m2, m3.encoding());
    assert(m3.encoding().subrange(0, 1097) + zeros(16) =~= seq![m3.version] + m3.sid@
        + m3.ct3.bytes@ + zeros(16));
    master_is_a_hybrid(kept.ss_a, ss_b, kept.dh, m3.version, m3.sid@, kept.th3(m3));
    finished_is_keyed_by_the_master(kept.master(m3, ss_b), m3.version, m3.sid@, kept.th3(m3));
}

/// The answer of a server is made from the client's hello and fresh keys: it
/// carries the server's two public keys and the ciphertext, and what is kept are
/// the encapsulated secret, the Diffie-Hellman secret of the server's own key and
/// the client's, and the key that authenticated the client. What is signed is the
/// digest of the whole hello and of the answer up to its signature.
pub proof fn answer_is_made_from_fresh_keys(
    s: ServerView,
    request: M1Respond,
    keys: ServerKeys,
    q: M2Sign,
    sig: MlDsaSignature,
)
    requires
        answers(s, request, keys, q),
    ensures
        ({
            let c = q.confirm(sig);
            let m2 = seq![s.cfg.version] + request.session() + keys.kem_public.bytes@ + x25519_of(
                keys.x_secret@,
                X25519_BASE@,
            ) + keys.ct2.bytes@ + sig.bytes@;
            &&& c.m1 == request.hello().encoding()
            &&& c.m2 == m2
            &&& c.m1.len() == 4534 && c.m2.len() == 5622
            &&& c.ss_a == keys.ss_a@
            &&& c.dh == x25519_of(keys.x_secret@, request.hello().x_c@)
            &&& c.kem_secret == keys.kem_secret@
            &&& c.client == request.identity()
            &&& q.session() == request.session()
            &&& q.source() == request.source()
            &&& q.to_sign() == sha256_of(
                "pq-tunnel-v1"@.map_values(|c: char| c as u8) + request.hello().encoding()
                    + (m2.subrange(0, 2313) + zeros(3309)),
            )
        }),
{
    let c = q.confirm(sig);
    client_hello_roundtrip(request.hello(), request.hello());
    assert(q.to_sign() == th2(request.hello().encoding(), c.m2));
    assert(c.m2.len() == 5622);
    digests_hash_the_messages(
        request.hello().encoding(),
        c.m2,
        zeros(body_len(HS_TYPE_CLIENT_CONFIRM) as nat),
    );
}

/// From the client's hello to the outcome: the master secret of a server is
/// derived from the secret that it encapsulated, the one that it decapsulated and
/// the Diffie-Hellman secret of its own fresh key and the client's key, whatever
/// its signature is.
pub proof fn server_master_uses_its_fresh_keys(
    s: ServerView,
    request: M1Respond,
    keys: ServerKeys,
    q: M2Sign,
    sig: MlDsaSignature,
    t: ServerView,
    m3: ClientConfirm,
    ss_b: Seq<u8>,
    from: PeerAddr,
    now: Instant,
)
    requires
        answers(s, request, keys, q),
        t.awaits(m3.sid@, from),
        t.pending[pending_slot(t.pending, m3.sid@)].stage == StageView::AwaitM3(q.confirm(sig)),
    ensures
        t.on_decapsulated(m3, ss_b, from, now).1 matches Some(o) ==> {
            &&& o.peer_identity == request.identity()
            &&& o.master == hkdf_sha256_of(
                zeros(32),
                keys.ss_a@ + ss_b + x25519_of(keys.x_secret@, request.hello().x_c@),
                "pq-tunnel-master-v2"@.map_values(|c: char| c as u8) + seq![m3.version] + m3.sid@
                    + sha256_of(
                    "pq-tunnel-v1"@.map_values(|c: char| c as u8) + (
                    request.hello().encoding().subrange(0, 1225) + zeros(3309)) + (q.confirm(
                        sig,
                    ).m2.subrange(0, 2313) + zeros(3309)) + (seq![m3.version] + m3.sid@
                        + m3.ct3.bytes@ + zeros(16)),
                ),
            )
        },
{
    answer_is_made_from_fresh_keys(s, request, keys, q, sig);
    server_outcome_is_a_hybrid(t, q.confirm(sig), m3, ss_b, from, now);
}

/// A completed handshake leaves the table, and every other one stays.
pub proof fn completion_removes_one_handshake(
    s: ServerView,
    m3: ClientConfirm,
    ss_b: Seq<u8>,
    from: PeerAddr,
    now: Instant,
    j: int,
)
    requires
        sids_distinct(s.pending),
        0 <= j < s.pending.len(),
    ensures
        ({
            let out = s.on_decapsulated(m3, ss_b, from, now);
            &&& out.0.cfg == s.cfg && out.0.buckets == s.buckets
            &&& out.1 is None ==> out.0 == s
            &&& out.1 is Some ==> out.0.pending.len() == s.pending.len() - 1
            &&& out.1 is Some && s.pending[j].sid != m3.sid@ ==> out.0.pending.contains(
                s.pending[j],
            )
        }),
{
    lemma_pending_slot(s.pending, m3.sid@);
    let k = pending_slot(s.pending, m3.sid@);
    let r = s.pending.remove(k);
    if k < s.pending.len() && s.pending[j].sid != m3.sid@ {
        if j < k {
            assert(r[j] == s.pending[j]);
        } else {
            assert(r[j - 1] == s.pending[j]);
        }
    }
}

/// A handshake awaits a confirmation from a source exactly if it is in the table,
/// was started by that source and was answered.
pub proof fn awaiting_is_in_the_table(s: ServerView, sid: Seq<u8>, from: PeerAddr)
    requires
        sids_distinct(s.pending),
    ensures
        s.awaits(sid, from) <==> exists|i: int|
            #![trigger s.pending[i]]
            0 <= i < s.pending.len() && s.pending[i].sid == sid && s.pending[i].source == from
                && s.pending[i].stage is AwaitM3,
{
    lemma_pending_slot(s.pending, sid);
    let k = pending_slot(s.pending, sid);
    if exists|i: int|
        #![trigger s.pending[i]]
        0 <= i < s.pending.len() && s.pending[i].sid == sid && s.pending[i].source == from
            && s.pending[i].stage is AwaitM3 {
        let i = choose|i: int|
            #![trigger s.pending[i]]
            0 <= i < s.pending.len() && s.pending[i].sid == sid && s.pending[i].source == from
                && s.pending[i].stage is AwaitM3;
        lemma_slot_at(s.pending, i);
    }
}

/// A pending handshake is dropped exactly when it has not advanced for its
/// lifetime; until then it stays as it is.
pub proof fn expiry_is_exact(s: ServerView, k: int, now: Instant)
    requires
        0 <= k < s.pending.len(),
    ensures
        s.evicted(now).pending.contains(s.pending[k]) <==> elapsed(now, s.pending[k].last_seen)
            < s.cfg.pending_ttl.nanos(),
        s.evicted(now).cfg == s.cfg,
        s.evicted(now).buckets == s.buckets,
{
    let p = alive(now, s.cfg.pending_ttl);
    let f = s.pending.filter(p);
    if p(s.pending[k]) {
        lemma_filter_keeps(s.pending, p, k);
        let j = choose|j: int| 0 <= j < f.len() && f[j] == s.pending[k];
        assert(f.contains(f[j]));
    } else if f.contains(s.pending[k]) {
        let j = choose|j: int| 0 <= j < f.len() && f[j] == s.pending[k];
        s.pending.lemma_filter_pred(p, j);
    }
}

/// The budget of a source is the configured one, for at most 4096 sources.
pub proof fn budget_is_configured(s: ServerView)
    ensures
        s.limits().burst == s.cfg.rate_limit_burst,
        s.limits().window == s.cfg.rate_limit_window,
        s.limits().cap == 4096,
{
}

/// A charge costs the source exactly one of the tokens that it has, and nothing if
/// it has none; it touches no pending handshake.
pub proof fn charge_costs_one_token(s: ServerView, from: PeerAddr, now: Instant)
    requires
        distinct(s.buckets),
    ensures
        ({
            let before = tokens_at(s.buckets, from, now, s.limits());
            let t = s.charged(from, now);
            &&& s.has_token(from, now) <==> before > 0
            &&& t.pending == s.pending && t.cfg == s.cfg
            &&& exists|i: int|
                #![trigger t.buckets[i]]
                0 <= i < t.buckets.len() && t.buckets[i].addr == from && t.buckets[i].tokens == (
                if before > 0 {
                    before - 1
                } else {
                    0
                })
        }),
{
    let u = touched(s.buckets, from, now, s.limits());
    touching_gives_a_bucket(s.buckets, from, now, s.limits());
    let k = slot(u, from);
    spending_takes_one_token(u, k);
    assert(s.charged(from, now).buckets[k].addr == from);
}

/// A first fragment is refused, and opens nothing, if its source has no token left
/// or the table is full; the attempt is charged either way.
pub proof fn refused_handshake_opens_nothing(
    s: ServerView,
    dg: Seq<u8>,
    from: PeerAddr,
    now: Instant,
)
    requires
        is_fragment(dg),
        dg[9] == 0x10,
        dg[10] == 0,
        forall|i: int|
            0 <= i < s.evicted(now).pending.len() ==> #[trigger] s.evicted(now).pending[i].sid
                != dg.subrange(1, 9),
        !s.evicted(now).has_token(from, now) || s.evicted(now).pending.len() >= s.cfg.max_pending,
    ensures
        s.on_datagram(dg, from, now) == (
            s.evicted(now).charged(from, now),
            ServerReply::Nothing,
        ),
        s.on_datagram(dg, from, now).0.pending == s.evicted(now).pending,
{
    lemma_pending_slot(s.evicted(now).pending, dg.subrange(1, 9));
}

/// A handshake that is opened is alive from now on, is charged, belongs to its
/// source and joins the table behind the others.
pub proof fn opened_handshake_starts_now(
    s: ServerView,
    dg: Seq<u8>,
    from: PeerAddr,
    now: Instant,
)
    requires
        is_fragment(dg),
        dg[9] == 0x10,
        dg[10] == 0,
        forall|i: int|
            0 <= i < s.evicted(now).pending.len() ==> #[trigger] s.evicted(now).pending[i].sid
                != dg.subrange(1, 9),
        s.evicted(now).has_token(from, now),
        s.evicted(now).pending.len() < s.cfg.max_pending,
    ensures
        ({
            let t = s.on_datagram(dg, from, now).0;
            let e = t.pending.last();
            &&& t.pending.drop_last() == s.evicted(now).pending
            &&& t.buckets == s.evicted(now).charged(from, now).buckets
            &&& t.cfg == s.cfg
            &&& e.sid == dg.subrange(1, 9)
            &&& e.source == from
            &&& e.started == now
            &&& e.last_seen == now
            &&& e.stage is AwaitM1
            &&& s.on_datagram(dg, from, now).1 is Nothing
        }),
{
    lemma_pending_slot(s.evicted(now).pending, dg.subrange(1, 9));
    let t = s.on_datagram(dg, from, now).0;
    assert(t.pending.drop_last() =~= s.evicted(now).pending);
}

/// A new fragment of a hello keeps its handshake alive, at no charge; one that was
/// there before, or that does not fit, changes nothing.
pub proof fn progress_keeps_a_handshake_alive(
    s: ServerView,
    a: AssemblerView,
    dg: Seq<u8>,
    from: PeerAddr,
    now: Instant,
)
    requires
        is_fragment(dg),
        dg[9] == 0x10,
        ({
            let t = s.evicted(now);
            let k = pending_slot(t.pending, dg.subrange(1, 9));
            &&& k < t.pending.len()
            &&& t.pending[k].source == from
            &&& t.pending[k].stage == StageView::AwaitM1(a)
        }),
    ensures
        ({
            let t = s.evicted(now);
            let k = pending_slot(t.pending, dg.subrange(1, 9));
            let body = dg.subrange(12, 12 + frag_body_len(dg[9], dg[10] as int));
            let out = s.on_datagram(dg, from, now);
            let r = a.report(dg[9], dg[11], dg[10], body);
            &&& r == FragmentResult::Ignored ==> out == (t, ServerReply::Nothing)
            &&& r == FragmentResult::Advanced ==> {
                &&& out.1 is Nothing
                &&& out.0.buckets == t.buckets
                &&& out.0.pending.len() == t.pending.len()
                &&& out.0.pending[k].last_seen == now
                &&& out.0.pending[k].started == t.pending[k].started
                &&& out.0.pending[k].sid == t.pending[k].sid
                &&& out.0.pending[k].source == from
                &&& forall|i: int|
                    0 <= i < t.pending.len() && i != k ==> #[trigger] out.0.pending[i]
                        == t.pending[i]
            }
        }),
{
    lemma_pending_slot(s.evicted(now).pending, dg.subrange(1, 9));
}

/// A hello that has become complete is authenticated exactly if its source has a
/// token and it is of the supported version and for its session; one that is not
/// fit is dropped with its handshake, and one without a token is left alone. It is
/// charged in every case.
pub proof fn complete_hello_is_authenticated_if_fit(
    s: ServerView,
    a: AssemblerView,
    dg: Seq<u8>,
    from: PeerAddr,
    now: Instant,
)
    requires
        is_fragment(dg),
        dg[9] == 0x10,
        ({
            let t = s.evicted(now);
            let k = pending_slot(t.pending, dg.subrange(1, 9));
            &&& k < t.pending.len()
            &&& t.pending[k].source == from
            &&& t.pending[k].stage == StageView::AwaitM1(a)
        }),
        a.report(
            dg[9],
            dg[11],
            dg[10],
            dg.subrange(12, 12 + frag_body_len(dg[9], dg[10] as int)),
        ) == FragmentResult::Completed,
    ensures
        ({
            let t = s.evicted(now);
            let body = dg.subrange(12, 12 + frag_body_len(dg[9], dg[10] as int));
            let m = a.offered(dg[9], dg[11], dg[10], body).buffer;
            let fit = m[0] == 1 && s.cfg.version == 1 && m.subrange(1, 9) == dg.subrange(1, 9);
            let out = s.on_datagram(dg, from, now);
            &&& out.0.buckets == t.charged(from, now).buckets
            &&& out.1 == if t.has_token(from, now) && fit {
                ServerReply::Authenticate(m)
            } else {
                ServerReply::Nothing
            }
            &&& out.0.pending.len() == if t.has_token(from, now) && !fit {
                t.pending.len() - 1
            } else {
                t.pending.len() as int
            }
        }),
{
    lemma_pending_slot(s.evicted(now).pending, dg.subrange(1, 9));
}

/// A confirmation whose inside is of another version or names another session than
/// its datagram is dropped.
pub proof fn mismatched_confirmation_is_dropped(
    s: ServerView,
    dg: Seq<u8>,
    from: PeerAddr,
    now: Instant,
)
    requires
        is_fragment(dg),
        dg[9] == 0x30,
        dg[12] != 1 || s.cfg.version != 1 || dg.subrange(13, 21) != dg.subrange(1, 9),
    ensures
        s.on_datagram(dg, from, now) == (
            s.evicted(now).charged(from, now),
            ServerReply::Nothing,
        ),
{
    let m3 = dg.subrange(12, 1125);
    assert(m3[0] == dg[12]);
    assert(m3.subrange(1, 9) =~= dg.subrange(13, 21));
}

/// A client that no key of the roster knows is forgotten, and nobody else.
pub proof fn rejected_client_is_forgotten(s: ServerView, sid: Seq<u8>, j: int)
    requires
        sids_distinct(s.pending),
        0 <= j < s.pending.len(),
    ensures
        s.forgotten(sid).pending.contains(s.pending[j]) <==> s.pending[j].sid != sid,
        s.forgotten(sid).buckets == s.buckets,
        s.forgotten(sid).cfg == s.cfg,
{
    lemma_pending_slot(s.pending, sid);
    let k = pending_slot(s.pending, sid);
    let r = s.forgotten(sid).pending;
    if s.pending[j].sid != sid {
        if k < s.pending.len() && j > k {
            assert(r[j - 1] == s.pending[j]);
        } else {
            assert(r[j] == s.pending[j]);
        }
    } else {
        lemma_slot_at(s.pending, j);
        if r.contains(s.pending[j]) {
            let i = choose|i: int| 0 <= i < r.len() && r[i] == s.pending[j];
            let m = if i >= k {
                i + 1
            } else {
                i
            };
            assert(s.pending[m].sid == s.pending[k].sid);
        }
    }
}

/// An answered handshake is alive from the answer on and keeps its session, its
/// source and its start.
pub proof fn answer_keeps_the_handshake(s: ServerView, k: int, c: ConfirmView, now: Instant)
    requires
        sids_distinct(s.pending),
        0 <= k < s.pending.len(),
    ensures
        ({
            let t = s.answered(s.pending[k].sid, c, now);
            &&& t.pending.len() == s.pending.len()
            &&& t.pending[k].stage == StageView::AwaitM3(c)
            &&& t.pending[k].last_seen == now
            &&& t.pending[k].started == s.pending[k].started
            &&& t.pending[k].source == s.pending[k].source
            &&& t.pending[k].sid == s.pending[k].sid
            &&& t.cfg == s.cfg && t.buckets == s.buckets
            &&& forall|i: int|
                0 <= i < s.pending.len() && i != k ==> #[trigger] t.pending[i] == s.pending[i]
        }),
{
    lemma_slot_at(s.pending, k);
}

/// What is seen of a configuration is all that it holds.
pub proof fn configuration_is_seen_whole(c: ServerConfig)
    ensures
        c@.version == c.version,
        c@.roster == c.roster@,
        c@.max_pending == c.max_pending,
        c@.pending_ttl == c.pending_ttl,
        c@.rate_limit_burst == c.rate_limit_burst,
        c@.rate_limit_window == c.rate_limit_window,
{
}

/// Whatever is not a fragment of a client's message has no effect.
pub proof fn other_datagrams_have_no_effect(
    s: ServerView,
    dg: Seq<u8>,
    from: PeerAddr,
    now: Instant,
)
    requires
        dg.len() == 1280,
        !is_fragment(dg) || (dg[9] != 0x10 && dg[9] != 0x30),
    ensures
        s.on_datagram(dg, from, now) == (s, ServerReply::Nothing),
{
}

/// A hello that was already answered is answered again only for its first
/// fragment, and only within the budget of its source; its other fragments are
/// ignored at no charge.
pub proof fn repeated_hello_is_answered_once_per_copy(
    s: ServerView,
    dg: Seq<u8>,
    from: PeerAddr,
    now: Instant,
)
    requires
        is_fragment(dg),
        dg[9] == 0x10,
        s.evicted(now).awaits(dg.subrange(1, 9), from),
    ensures
        dg[10] != 0 ==> s.on_datagram(dg, from, now) == (s.evicted(now), ServerReply::Nothing),
        dg[10] == 0 ==> s.on_datagram(dg, from, now).0 == s.evicted(now).charged(from, now),
        dg[10] == 0 ==> (s.on_datagram(dg, from, now).1 is Resend <==> s.evicted(now).has_token(
            from,
            now,
        )),
        dg[10] == 0 && !s.evicted(now).has_token(from, now) ==> s.on_datagram(
            dg,
            from,
            now,
        ).1 is Nothing,
{
}

/// A step follows from what a datagram calls for: a hello is handed out for
/// authentication with the digest that its signature must cover, a confirmation
/// with exactly its contents, and an answer is sent again as it is.
pub proof fn step_follows_from_the_reply(
    r: ServerStep,
    reply: ServerReply,
    sid: Seq<u8>,
    from: PeerAddr,
)
    requires
        step_is(r, reply, sid, from),
    ensures
        reply is Nothing ==> (r matches ServerStep::Event(e) && e is Nothing),
        reply matches ServerReply::Resend(d, to) ==> (r matches ServerStep::Event(
            ServerEvent::Emit(p, peer),
        ) && peer == to && p@.len() == d.len() && forall|i: int|
            0 <= i < d.len() ==> (#[trigger] p@[i])@ == d[i]),
        reply matches ServerReply::Authenticate(m1) ==> (r matches ServerStep::Authenticate(a)
            && a.session() == sid && a.source() == from && a.hello().encoding() == m1 && a.signed()
            == sha256_of(
            "pq-tunnel-v1"@.map_values(|c: char| c as u8) + (m1.subrange(0, 1225) + zeros(3309)),
        )),
        reply matches ServerReply::Decapsulate(m3) ==> (r matches ServerStep::Decapsulate(c)
            && c.session() == sid && c.source() == from && c.confirm().encoding() == m3
            && c.confirm().sid@ == sid && c.confirm().version == 1),
{
    if let ServerReply::Authenticate(m1) = reply {
        if let ServerStep::Authenticate(a) = r {
            client_hello_roundtrip(a.hello(), a.hello());
            digests_hash_the_messages(
                m1,
                zeros(body_len(HS_TYPE_SERVER_HELLO) as nat),
                zeros(body_len(HS_TYPE_CLIENT_CONFIRM) as nat),
            );
        }
    }
    if let ServerReply::Resend(d, to) = reply {
        if let ServerStep::Event(ServerEvent::Emit(p, peer)) = r {
            assert forall|i: int| 0 <= i < d.len() implies (#[trigger] p@[i])@ == d[i] by {
                assert(datagrams(p@)[i] == p@[i]@);
            }
        }
    }
}

} // verus!
