//! Client side of the handshake.
//!
//! The machine computes and hands out events; the caller sends datagrams,
//! waits, and does the ML-KEM and ML-DSA work that the machine asks for:
//!
//! - [`ClientHandshake::hello_digest`] is signed before [`ClientHandshake::new`];
//! - [`ClientStep::Verify`] asks for the verification of the server signature;
//! - [`ClientStep::Exchange`] asks for one decapsulation and one encapsulation,
//!   and is handed out only after the signature was found valid.
use crate::bytes::{arrays_eq, lemma_array_ext, zeros};
use crate::codec::{WirePacket, PROTOCOL_VERSION, SESSION_ID_LEN};
use crate::crypto::{
    hkdf_sha256_of, hmac_sha256_of, random_u64_or_zero, sha256_of, x25519, x25519_of, X25519_BASE,
};
use crate::error::CryptoError;
use crate::handshake_v2::fragment::{
    body_len, datagrams, duplicate_packets, frag_body_len, frag_count, frag_datagram,
    fragment_message, fragments, is_fragment, lemma_one_more_fragment, AssemblerView,
    FragmentAssembler, FragmentResult, HandshakeFragment,
    HS_TYPE_CLIENT_CONFIRM, HS_TYPE_CLIENT_HELLO, HS_TYPE_SERVER_HELLO,
};
use crate::handshake_v2::key_schedule::{
    compute_client_finished, derive_master, finished_is_keyed_by_the_master, finished_of,
    master_is_a_hybrid, master_of,
};
use crate::handshake_v2::message::{
    client_confirm_roundtrip, client_hello_roundtrip, encode_m1, encode_m3, m1_layout,
    m3_layout, server_hello_roundtrip, ClientConfirm, ClientHello, ServerHello,
};
use crate::handshake_v2::outcome::{
    validate_version, HandshakeOutcome, HandshakeV2Error, OutcomeView,
};
use crate::handshake_v2::retransmit::{
    backoff_delay_with, backoff_nanos, jittered_nanos, jittered_with,
};
use crate::handshake_v2::transcript::{
    digests_hash_the_messages, digests_ignore_slots, th1, th1_from_m1, th2, th2_from_m1_m2, th3, th3_from_m1_m2_m3,
};
use crate::keys::{
    MlDsaPublicKey, MlDsaSignature, MlKemCiphertext, MlKemPublicKey, MlKemSecretKey, Secret32,
    SharedSecret,
};
use crate::net::PeerAddr;
use crate::text::unsupported_version;
use crate::time::Duration;
use vstd::prelude::*;

verus! {

/// Client configuration.
#[derive(Clone, Copy)]
pub struct ClientConfig {
    /// Protocol version; only the supported one is accepted.
    pub version: u8,
    /// Where datagrams are sent.
    pub server_addr: PeerAddr,
    /// The server's key, pinned out of band.
    pub server_identity: MlDsaPublicKey,
    /// Base delay of retransmissions.
    pub m1_retransmit_base: Duration,
    /// Most retransmissions of M1.
    pub m1_max_attempts: u32,
    /// Most retransmissions of M3.
    pub m3_max_attempts: u32,
}

impl ClientConfig {
    /// The defaults. The M3 budget is chosen so that the slowest sequence of
    /// retransmissions ends before the default handshake deadline of a session
    /// manager.
    pub fn new(server_addr: PeerAddr, server_identity: MlDsaPublicKey) -> (r: Self)
        ensures
            r.version == PROTOCOL_VERSION,
            r.server_addr == server_addr,
            r.server_identity == server_identity,
            r.m1_retransmit_base.nanos() == 250_000_000,
            r.m1_max_attempts == 8,
            r.m3_max_attempts == 6,
    {
        ClientConfig {
            version: PROTOCOL_VERSION,
            server_addr,
            server_identity,
            m1_retransmit_base: Duration::from_millis(250),
            m1_max_attempts: 8,
            m3_max_attempts: 6,
        }
    }
}

/// The fresh key material of one handshake.
pub struct ClientKeys {
    pub kem_public: MlKemPublicKey,
    pub kem_secret: MlKemSecretKey,
    pub x_secret: Secret32,
}

/// What the exchange step gave: the secret decapsulated from the server's
/// ciphertext, and the secret and ciphertext of an encapsulation to the
/// server's key.
pub struct ClientExchange {
    pub ss_a: SharedSecret,
    pub ss_b: SharedSecret,
    pub ct3: MlKemCiphertext,
}

/// Output of the client machine.
pub enum ClientEvent {
    /// Send these datagrams to the server.
    Emit(Vec<WirePacket>),
    /// The handshake is complete.
    Complete(HandshakeOutcome),
    /// Nothing to do.
    Nothing,
}

/// A request for the verification of a server signature.
pub struct M2Verify {
    key: MlDsaPublicKey,
    digest: [u8; 32],
    m2: ServerHello,
}

/// A request for the key exchange with a server whose signature was valid.
pub struct M2Exchange {
    m2: ServerHello,
}

/// What handling a datagram, or an answer, leads to.
pub enum ClientStep {
    Event(ClientEvent),
    Verify(M2Verify),
    Exchange(M2Exchange),
}

impl M2Verify {
    /// The key that must have signed: the pinned server identity.
    pub closed spec fn pinned_key(&self) -> MlDsaPublicKey {
        self.key
    }

    /// The digest that must have been signed.
    pub closed spec fn signed(&self) -> Seq<u8> {
        self.digest@
    }

    /// The message that carries the signature.
    pub closed spec fn hello(&self) -> ServerHello {
        self.m2
    }

    pub fn key(&self) -> (r: &MlDsaPublicKey)
        ensures
            *r == self.pinned_key(),
    {
        &self.key
    }

    pub fn digest(&self) -> (r: &[u8; 32])
        ensures
            r@ == self.signed(),
    {
        &self.digest
    }

    pub fn signature(&self) -> (r: &MlDsaSignature)
        ensures
            *r == self.hello().server_sig,
    {
        &self.m2.server_sig
    }

    /// The ciphertext that will be decapsulated.
    pub fn ct2(&self) -> (r: &MlKemCiphertext)
        ensures
            *r == self.hello().ct2,
    {
        &self.m2.ct2
    }

    /// The key that will be encapsulated to.
    pub fn eph_pk_s(&self) -> (r: &MlKemPublicKey)
        ensures
            *r == self.hello().eph_pk_s,
    {
        &self.m2.eph_pk_s
    }
}

impl M2Exchange {
    /// The verified message.
    pub closed spec fn hello(&self) -> ServerHello {
        self.m2
    }

    /// The ciphertext to decapsulate.
    pub fn ct2(&self) -> (r: &MlKemCiphertext)
        ensures
            *r == self.hello().ct2,
    {
        &self.m2.ct2
    }

    /// The key to encapsulate to.
    pub fn eph_pk_s(&self) -> (r: &MlKemPublicKey)
        ensures
            *r == self.hello().eph_pk_s,
    {
        &self.m2.eph_pk_s
    }
}

/// Client-side handshake machine.
pub struct ClientHandshake {
    cfg: ClientConfig,
    sid: [u8; SESSION_ID_LEN],
    kem_secret: MlKemSecretKey,
    x_secret: Secret32,
    m1: ClientHello,
    m1_frags: Vec<WirePacket>,
    assembler: FragmentAssembler,
    attempts: u32,
    next_delay: Duration,
    m3_frags: Vec<WirePacket>,
    outcome: Option<HandshakeOutcome>,
}

/// The two stages of a client.
pub enum ClientStage {
    /// Collecting the server's answer.
    AwaitM2(AssemblerView),
    /// The confirmation was sent.
    M3Sent { frags: Seq<Seq<u8>>, outcome: OutcomeView },
}

/// What a client machine holds.
pub struct ClientView {
    pub cfg: ClientConfig,
    pub sid: [u8; SESSION_ID_LEN],
    pub kem_secret: Seq<u8>,
    pub x_secret: Seq<u8>,
    pub hello: ClientHello,
    /// Retransmissions so far in this stage.
    pub attempts: u32,
    /// Current retransmission delay in nanoseconds.
    pub next_delay: nat,
    pub stage: ClientStage,
}

/// The bytes of a ClientHello before it is signed.
pub open spec fn unsigned_hello(
    version: u8,
    sid: [u8; SESSION_ID_LEN],
    kem_public: MlKemPublicKey,
    x_secret: Seq<u8>,
) -> Seq<u8> {
    m1_layout(
        version,
        sid@,
        kem_public.bytes@,
        x25519_of(x_secret, X25519_BASE@),
        zeros(crate::keys::ML_DSA_65_SIGNATURE_BYTES as nat),
    )
}

impl ClientView {
    pub open spec fn wf(self) -> bool {
        &&& self.cfg.version == PROTOCOL_VERSION
        &&& self.hello.version == PROTOCOL_VERSION
        &&& self.hello.sid == self.sid
        &&& self.hello.x_c@ == x25519_of(self.x_secret, X25519_BASE@)
        &&& self.stage matches ClientStage::AwaitM2(a) ==> a.wf() && a.hs_type
            == HS_TYPE_SERVER_HELLO
    }

    /// The datagrams of M1: every transmission sends these bytes.
    pub open spec fn m1_datagrams(self) -> Seq<Seq<u8>> {
        fragments(HS_TYPE_CLIENT_HELLO, self.cfg.version, self.sid@, self.hello.encoding())
    }

    /// The datagrams of M3, none before it was sent.
    pub open spec fn m3_datagrams(self) -> Seq<Seq<u8>> {
        match self.stage {
            ClientStage::AwaitM2(_) => Seq::empty(),
            ClientStage::M3Sent { frags, .. } => frags,
        }
    }

    /// A machine that has just been created.
    pub open spec fn started(
        cfg: ClientConfig,
        sid: [u8; SESSION_ID_LEN],
        keys: ClientKeys,
        hello: ClientHello,
        draw: u64,
    ) -> Self {
        ClientView {
            cfg,
            sid,
            kem_secret: keys.kem_secret@,
            x_secret: keys.x_secret@,
            hello,
            attempts: 0,
            next_delay: jittered_nanos(cfg.m1_retransmit_base.nanos(), draw),
            stage: ClientStage::AwaitM2(AssemblerView::fresh(HS_TYPE_SERVER_HELLO)),
        }
    }

    /// A datagram that is a ServerHello fragment of this session, while one is
    /// awaited.
    pub open spec fn relevant(self, dg: Seq<u8>) -> bool {
        &&& self.stage is AwaitM2
        &&& is_fragment(dg)
        &&& dg[9] == HS_TYPE_SERVER_HELLO
        &&& dg.subrange(1, 9) == self.sid@
    }

    /// The assembler after a relevant datagram.
    pub open spec fn offered(self, dg: Seq<u8>) -> AssemblerView {
        self.stage->AwaitM2_0.offered(
            dg[9],
            dg[11],
            dg[10],
            dg.subrange(12, 12 + frag_body_len(dg[9], dg[10] as int)),
        )
    }

    /// A relevant datagram that completes the message.
    pub open spec fn completes(self, dg: Seq<u8>) -> bool {
        self.relevant(dg) && self.stage->AwaitM2_0.report(
            dg[9],
            dg[11],
            dg[10],
            dg.subrange(12, 12 + frag_body_len(dg[9], dg[10] as int)),
        ) == FragmentResult::Completed
    }

    /// A complete ServerHello whose signature is worth checking: right version
    /// and right session inside.
    pub open spec fn checkable(self, m2: Seq<u8>) -> bool {
        m2[0] == PROTOCOL_VERSION && m2.subrange(1, 9) == self.sid@
    }

    pub open spec fn collecting(self, a: AssemblerView) -> Self {
        ClientView { stage: ClientStage::AwaitM2(a), ..self }
    }

    /// The machine starts collecting anew; later stages are left alone.
    pub open spec fn reset(self) -> Self {
        match self.stage {
            ClientStage::AwaitM2(_) => self.collecting(AssemblerView::fresh(HS_TYPE_SERVER_HELLO)),
            _ => self,
        }
    }

    /// The machine after a datagram. A complete message that is not worth
    /// checking is thrown away, so that it can be collected again.
    pub open spec fn received(self, dg: Seq<u8>) -> Self {
        if !self.relevant(dg) {
            self
        } else if self.completes(dg) && !self.checkable(self.offered(dg).buffer) {
            self.reset()
        } else {
            self.collecting(self.offered(dg))
        }
    }

    /// The machine after a retransmission.
    pub open spec fn retransmitted(self, draw: u64) -> Self {
        ClientView {
            attempts: (self.attempts + 1) as u32,
            next_delay: backoff_nanos(
                self.cfg.m1_retransmit_base.nanos(),
                (self.attempts + 1) as u32,
                draw,
            ),
            ..self
        }
    }

    /// The machine after several retransmissions.
    pub open spec fn retransmitted_all(self, draws: Seq<u64>) -> Self
        decreases draws.len(),
    {
        if draws.len() == 0 {
            self
        } else {
            self.retransmitted_all(draws.drop_last()).retransmitted(draws.last())
        }
    }

    /// TH3 with the ciphertext of the confirmation.
    pub open spec fn th3(self, m2: ServerHello, ct3: Seq<u8>) -> Seq<u8> {
        th3(
            self.hello.encoding(),
            m2.encoding(),
            m3_layout(self.cfg.version, self.sid@, ct3, zeros(16)),
        )
    }

    /// The master secret that follows from an exchange.
    pub open spec fn master(self, m2: ServerHello, ex: ClientExchange) -> Seq<u8> {
        master_of(
            ex.ss_a@,
            ex.ss_b@,
            x25519_of(self.x_secret, m2.x_s@),
            self.cfg.version,
            self.sid@,
            self.th3(m2, ex.ct3.bytes@),
        )
    }

    /// The confirmation message.
    pub open spec fn m3(self, m2: ServerHello, ex: ClientExchange) -> Seq<u8> {
        m3_layout(
            self.cfg.version,
            self.sid@,
            ex.ct3.bytes@,
            finished_of(
                self.master(m2, ex),
                self.cfg.version,
                self.sid@,
                self.th3(m2, ex.ct3.bytes@),
            ),
        )
    }

    /// The machine after the exchange.
    pub open spec fn confirmed(self, m2: ServerHello, ex: ClientExchange, draw: u64) -> Self {
        ClientView {
            attempts: 0,
            next_delay: jittered_nanos(self.cfg.m1_retransmit_base.nanos(), draw),
            stage: ClientStage::M3Sent {
                frags: fragments(
                    HS_TYPE_CLIENT_CONFIRM,
                    self.cfg.version,
                    self.sid@,
                    self.m3(m2, ex),
                ),
                outcome: OutcomeView {
                    master: self.master(m2, ex),
                    session_id: self.sid,
                    peer_identity: self.cfg.server_identity,
                    handshake_nanos: 0,
                },
            },
            ..self
        }
    }
}

/// The answer of a server is collected in any order, with any repetitions: every
/// datagram of it is taken in, and the one that makes it complete leads to the
/// check of exactly that answer.
pub proof fn answer_is_collected(s: ClientView, m2: ServerHello, order: Seq<int>, idx: int)
    requires
        s.stage == ClientStage::AwaitM2(
            AssemblerView::fresh(HS_TYPE_SERVER_HELLO).fed(m2.encoding(), order),
        ),
        m2.version == PROTOCOL_VERSION,
        m2.sid == s.sid,
        forall|k: int|
            0 <= k < order.len() ==> 0 <= #[trigger] order[k] < frag_count(HS_TYPE_SERVER_HELLO),
        0 <= idx < frag_count(HS_TYPE_SERVER_HELLO),
    ensures
        ({
            let dg = frag_datagram(
                HS_TYPE_SERVER_HELLO,
                PROTOCOL_VERSION,
                s.sid@,
                m2.encoding(),
                idx,
            );
            let before = AssemblerView::fresh(HS_TYPE_SERVER_HELLO).fed(m2.encoding(), order);
            let after = AssemblerView::fresh(HS_TYPE_SERVER_HELLO).fed(
                m2.encoding(),
                order.push(idx),
            );
            &&& s.received(dg).stage == ClientStage::AwaitM2(after)
            &&& s.completes(dg) <==> after.complete() && !before.complete()
            &&& s.completes(dg) ==> s.offered(dg).buffer == m2.encoding() && s.checkable(
                m2.encoding(),
            )
        }),
{
    server_hello_roundtrip(m2, m2);
    lemma_one_more_fragment(HS_TYPE_SERVER_HELLO, s.sid@, m2.encoding(), order, idx);
    assert(m2.encoding().subrange(1, 9) =~= m2.sid@);
}

/// However often a client retransmits, it sends the same datagrams, stays in its
/// stage, and counts every retransmission against its budget.
pub proof fn retransmissions_repeat_the_message(s: ClientView, draws: Seq<u64>)
    requires
        s.attempts + draws.len() <= u32::MAX,
    ensures
        s.retransmitted_all(draws).m1_datagrams() == s.m1_datagrams(),
        s.retransmitted_all(draws).m3_datagrams() == s.m3_datagrams(),
        s.retransmitted_all(draws).stage == s.stage,
        s.retransmitted_all(draws).attempts == s.attempts + draws.len(),
    decreases draws.len(),
{
    if draws.len() > 0 {
        retransmissions_repeat_the_message(s, draws.drop_last());
    }
}

/// The digest that the client signs is TH1 of the hello it sends, whatever the
/// signature turns out to be.
pub proof fn signed_digest_is_th1(
    sid: [u8; SESSION_ID_LEN],
    kem_public: MlKemPublicKey,
    x_secret: Seq<u8>,
    hello: ClientHello,
)
    requires
        hello.version == PROTOCOL_VERSION,
        hello.sid == sid,
        hello.eph_pk_c == kem_public,
        hello.x_c@ == x25519_of(x_secret, X25519_BASE@),
    ensures
        th1(unsigned_hello(PROTOCOL_VERSION, sid, kem_public, x_secret)) == th1(hello.encoding()),
{
    let a = unsigned_hello(PROTOCOL_VERSION, sid, kem_public, x_secret);
    let b = hello.encoding();
    client_hello_roundtrip(hello, hello);
    let m2 = zeros(body_len(HS_TYPE_SERVER_HELLO) as nat);
    let m3 = zeros(body_len(HS_TYPE_CLIENT_CONFIRM) as nat);
    digests_ignore_slots(a, b, m2, m2, m3, m3);
}

impl View for ClientHandshake {
    type V = ClientView;

    closed spec fn view(&self) -> ClientView {
        ClientView {
            cfg: self.cfg,
            sid: self.sid,
            kem_secret: self.kem_secret@,
            x_secret: self.x_secret@,
            hello: self.m1,
            attempts: self.attempts,
            next_delay: self.next_delay.nanos(),
            stage: match self.outcome {
                None => ClientStage::AwaitM2(self.assembler@),
                Some(o) => ClientStage::M3Sent { frags: datagrams(self.m3_frags@), outcome: o@ },
            },
        }
    }
}

/// What a consistent machine holds is consistent.
pub proof fn client_machine_is_well_formed(h: ClientHandshake)
    requires
        h.wf(),
    ensures
        h@.wf(),
{
}

impl ClientHandshake {
    /// Internal consistency.
    pub closed spec fn wf(self) -> bool {
        &&& self@.wf()
        &&& self.assembler.wf()
        &&& self.assembler@.hs_type == HS_TYPE_SERVER_HELLO
        &&& datagrams(self.m1_frags@) == self@.m1_datagrams()
        &&& self.outcome is None ==> self.m3_frags@.len() == 0
    }

    /// The digest that the client's identity key must sign.
    pub fn hello_digest(
        cfg: &ClientConfig,
        sid: &[u8; SESSION_ID_LEN],
        keys: &ClientKeys,
    ) -> (r: Result<[u8; 32], HandshakeV2Error>)
        ensures
            match r {
                Ok(d) => cfg.version == PROTOCOL_VERSION && d@ == th1(
                    unsigned_hello(cfg.version, *sid, keys.kem_public, keys.x_secret@),
                ),
                Err(e) => cfg.version != PROTOCOL_VERSION && (e matches HandshakeV2Error::InvalidConfig(
                    t,
                ) && t@ == unsupported_version(cfg.version)),
            },
    {
        match validate_version(cfg.version) {
            Ok(_) => {},
            Err(e) => return Err(e),
        }
        let x_c = x25519(keys.x_secret.as_bytes(), &X25519_BASE);
        let pre_sign = encode_m1(cfg.version, sid, &keys.kem_public, &x_c, None);
        Ok(th1_from_m1(&pre_sign).unwrap())
    }

    /// Creates the machine for a given draw of the jitter.
    pub fn new_with_draw(
        cfg: &ClientConfig,
        sid: [u8; SESSION_ID_LEN],
        keys: ClientKeys,
        client_sig: MlDsaSignature,
        draw: u64,
    ) -> (r: Result<Self, HandshakeV2Error>)
        ensures
            match r {
                Ok(h) => {
                    &&& cfg.version == PROTOCOL_VERSION
                    &&& h.wf()
                    &&& h@.wf()
                    &&& h@ == ClientView::started(*cfg, sid, keys, h@.hello, draw)
                    &&& h@.hello.client_sig == client_sig
                    &&& h@.hello.eph_pk_c == keys.kem_public
                },
                Err(e) => cfg.version != PROTOCOL_VERSION && (e matches HandshakeV2Error::InvalidConfig(
                    t,
                ) && t@ == unsupported_version(cfg.version)),
            },
    {
        match validate_version(cfg.version) {
            Ok(_) => {},
            Err(e) => return Err(e),
        }
        let x_c = x25519(keys.x_secret.as_bytes(), &X25519_BASE);
        let m1 = ClientHello {
            version: cfg.version,
            sid,
            eph_pk_c: keys.kem_public,
            x_c,
            client_sig,
        };
        let m1_bytes = m1.encode();
        let m1_frags = match fragment_message(HS_TYPE_CLIENT_HELLO, cfg.version, sid, &m1_bytes) {
            Ok(f) => f,
            Err(e) => return Err(HandshakeV2Error::Codec(e)),
        };
        let assembler = FragmentAssembler::new(HS_TYPE_SERVER_HELLO).unwrap();
        let h = ClientHandshake {
            cfg: *cfg,
            sid,
            kem_secret: keys.kem_secret,
            x_secret: keys.x_secret,
            m1,
            m1_frags,
            assembler,
            attempts: 0,
            next_delay: jittered_with(cfg.m1_retransmit_base, draw),
            m3_frags: Vec::new(),
            outcome: None,
        };
        Ok(h)
    }

    /// Creates the machine for an explicit session identifier. `client_sig`
    /// is the signature over [`ClientHandshake::hello_digest`].
    pub fn new(
        cfg: &ClientConfig,
        sid: [u8; SESSION_ID_LEN],
        keys: ClientKeys,
        client_sig: MlDsaSignature,
    ) -> (r: Result<Self, HandshakeV2Error>)
        ensures
            match r {
                Ok(h) => {
                    &&& cfg.version == PROTOCOL_VERSION
                    &&& h.wf()
                    &&& h@.wf()
                    &&& exists|draw: u64|
                        h@ == #[trigger] ClientView::started(*cfg, sid, keys, h@.hello, draw)
                    &&& h@.hello.client_sig == client_sig
                    &&& h@.hello.eph_pk_c == keys.kem_public
                },
                Err(e) => cfg.version != PROTOCOL_VERSION && (e matches HandshakeV2Error::InvalidConfig(
                    t,
                ) && t@ == unsupported_version(cfg.version)),
            },
    {
        ClientHandshake::new_with_draw(cfg, sid, keys, client_sig, random_u64_or_zero())
    }

    /// The datagrams of M1.
    pub fn m1_frags(&self) -> (r: &[WirePacket])
        requires
            self.wf(),
        ensures
            datagrams(r@) == self@.m1_datagrams(),
    {
        self.m1_frags.as_slice()
    }

    /// The datagrams of M3, once it was sent.
    pub fn m3_frags(&self) -> (r: &[WirePacket])
        requires
            self.wf(),
        ensures
            datagrams(r@) == self@.m3_datagrams(),
    {
        let r = self.m3_frags.as_slice();
        assert(datagrams(r@) =~= self@.m3_datagrams());
        r
    }

    /// Current retransmission delay.
    pub fn next_delay(&self) -> (r: Duration)
        ensures
            r.nanos() == self@.next_delay,
    {
        self.next_delay
    }

    /// The session identifier.
    pub fn session_id(&self) -> (r: &[u8; SESSION_ID_LEN])
        ensures
            *r == self@.sid,
    {
        &self.sid
    }

    /// The decapsulation key of this handshake.
    pub fn kem_secret(&self) -> (r: &MlKemSecretKey)
        ensures
            r@ == self@.kem_secret,
    {
        &self.kem_secret
    }

    /// Starts collecting the ServerHello anew.
    fn reset_m2_assembler(&mut self)
        requires
            old(self).wf(),
        ensures
            final(self).wf(),
            final(self)@ == old(self)@.reset(),
    {
        self.assembler = FragmentAssembler::new(HS_TYPE_SERVER_HELLO).unwrap();
    }

    /// Processes a received datagram. Irrelevant ones are dropped silently. If
    /// it completes a ServerHello that is worth checking, the answer asks for
    /// the verification of its signature over TH2 by the pinned key.
    pub fn handle_datagram(&mut self, pkt: &WirePacket) -> (r: ClientStep)
        requires
            old(self).wf(),
        ensures
            final(self).wf(),
            final(self)@ == old(self)@.received(pkt@),
            match r {
                ClientStep::Verify(v) => {
                    &&& old(self)@.completes(pkt@)
                    &&& old(self)@.checkable(v.hello().encoding())
                    &&& v.hello().encoding() == old(self)@.offered(pkt@).buffer
                    &&& v.hello().sid == old(self)@.sid
                    &&& v.pinned_key() == old(self)@.cfg.server_identity
                    &&& v.signed() == th2(old(self)@.hello.encoding(), v.hello().encoding())
                },
                ClientStep::Event(e) => e is Nothing && !(old(self)@.completes(pkt@) && old(
                    self,
                )@.checkable(old(self)@.offered(pkt@).buffer)),
                ClientStep::Exchange(_) => false,
            },
    {
        if pkt.bytes[9] != HS_TYPE_SERVER_HELLO {
            return ClientStep::Event(ClientEvent::Nothing);
        }
        let frag = match HandshakeFragment::from_datagram(pkt) {
            Ok(f) => f,
            Err(_) => return ClientStep::Event(ClientEvent::Nothing),
        };
        proof {
            lemma_array_ext(frag.sid, self.sid);
        }
        if !arrays_eq(&frag.sid, &self.sid) || self.outcome.is_some() {
            return ClientStep::Event(ClientEvent::Nothing);
        }
        let result = self.assembler.add_fragment(&frag);
        if result != FragmentResult::Completed {
            return ClientStep::Event(ClientEvent::Nothing);
        }
        let ghost buffer = self.assembler@.buffer;
        let m2 = match ServerHello::decode(self.assembler.message().unwrap()) {
            Ok(m) => m,
            Err(_) => {
                self.reset_m2_assembler();
                return ClientStep::Event(ClientEvent::Nothing);
            },
        };
        proof {
            assert(buffer.subrange(1, 9) =~= m2.sid@);
            lemma_array_ext(m2.sid, self.sid);
            client_hello_roundtrip(self.m1, self.m1);
            server_hello_roundtrip(m2, m2);
        }
        if !arrays_eq(&m2.sid, &self.sid) || m2.version != self.cfg.version {
            self.reset_m2_assembler();
            return ClientStep::Event(ClientEvent::Nothing);
        }
        let m1_bytes = self.m1.encode();
        let m2_bytes = m2.encode();
        let digest = th2_from_m1_m2(&m1_bytes, &m2_bytes).unwrap();
        ClientStep::Verify(M2Verify { key: self.cfg.server_identity, digest, m2 })
    }

    /// Resumes with the verdict on a server signature. An invalid signature
    /// makes the machine collect anew; a valid one leads to the key exchange.
    pub fn on_verified(&mut self, check: M2Verify, verdict: Result<bool, CryptoError>) -> (r: Result<
        ClientStep,
        HandshakeV2Error,
    >)
        requires
            old(self).wf(),
        ensures
            final(self).wf(),
            match verdict {
                Err(e) => final(self)@ == old(self)@ && r == Err::<ClientStep, HandshakeV2Error>(
                    HandshakeV2Error::Crypto(e),
                ),
                Ok(false) => final(self)@ == old(self)@.reset() && (r matches Ok(ClientStep::Event(e))
                    && e is Nothing),
                Ok(true) => final(self)@ == old(self)@ && (r matches Ok(ClientStep::Exchange(x))
                    && x.hello() == check.hello()),
            },
    {
        match verdict {
            Err(e) => Err(HandshakeV2Error::Crypto(e)),
            Ok(valid) => {
                if valid {
                    Ok(ClientStep::Exchange(M2Exchange { m2: check.m2 }))
                } else {
                    self.reset_m2_assembler();
                    Ok(ClientStep::Event(ClientEvent::Nothing))
                }
            },
        }
    }

    /// Resumes with the result of the key exchange, for a given draw of the
    /// jitter: derives the master secret, answers with M3 and is done. An
    /// exchange of another session, or a second one, is ignored.
    pub fn on_exchange_with_draw(
        &mut self,
        request: M2Exchange,
        reply: Result<ClientExchange, CryptoError>,
        draw: u64,
    ) -> (r: Result<ClientEvent, HandshakeV2Error>)
        requires
            old(self).wf(),
        ensures
            final(self).wf(),
            match reply {
                Err(e) => final(self)@ == old(self)@ && r == Err::<ClientEvent, HandshakeV2Error>(
                    HandshakeV2Error::Crypto(e),
                ),
                Ok(ex) => if old(self)@.stage is AwaitM2 && request.hello().sid == old(self)@.sid {
                    &&& final(self)@ == old(self)@.confirmed(request.hello(), ex, draw)
                    &&& r matches Ok(ClientEvent::Emit(p)) && datagrams(p@)
                        == final(self)@.m3_datagrams()
                } else {
                    final(self)@ == old(self)@ && (r matches Ok(e) && e is Nothing)
                },
            },
    {
        let ex = match reply {
            Ok(x) => x,
            Err(e) => return Err(HandshakeV2Error::Crypto(e)),
        };
        let m2 = request.m2;
        if self.outcome.is_some() || !arrays_eq(&m2.sid, &self.sid) {
            return Ok(ClientEvent::Nothing);
        }
        let version: u8 = self.cfg.version;
        let dh = Secret32::from_bytes(x25519(self.x_secret.as_bytes(), &m2.x_s));
        let m1_bytes = self.m1.encode();
        let m2_bytes = m2.encode();
        let m3_z = encode_m3(version, &self.sid, &ex.ct3, None);
        proof {
            client_hello_roundtrip(self.m1, self.m1);
            server_hello_roundtrip(m2, m2);
        }
        let th3_d = th3_from_m1_m2_m3(&m1_bytes, &m2_bytes, &m3_z).unwrap();
        let master = derive_master(&ex.ss_a, &ex.ss_b, &dh, version, &self.sid, &th3_d);
        let finished = compute_client_finished(&master, version, &self.sid, &th3_d);
        let m3 = ClientConfirm { version, sid: self.sid, ct3: ex.ct3, client_finished: finished };
        let m3_bytes = m3.encode();
        proof {
            client_confirm_roundtrip(m3, m3);
        }
        let frags = match fragment_message(HS_TYPE_CLIENT_CONFIRM, version, self.sid, &m3_bytes) {
            Ok(f) => f,
            Err(e) => return Err(HandshakeV2Error::Codec(e)),
        };
        let copy = duplicate_packets(&frags);
        self.m3_frags = frags;
        self.outcome = Some(
            HandshakeOutcome {
                master,
                session_id: self.sid,
                peer_identity: self.cfg.server_identity,
                handshake_duration: Duration::zero(),
            },
        );
        self.attempts = 0;
        self.next_delay = jittered_with(self.cfg.m1_retransmit_base, draw);
        Ok(ClientEvent::Emit(copy))
    }

    /// Resumes with the result of the key exchange.
    pub fn on_exchange(
        &mut self,
        request: M2Exchange,
        reply: Result<ClientExchange, CryptoError>,
    ) -> (r: Result<ClientEvent, HandshakeV2Error>)
        requires
            old(self).wf(),
        ensures
            final(self).wf(),
            match reply {
                Err(e) => final(self)@ == old(self)@ && r == Err::<ClientEvent, HandshakeV2Error>(
                    HandshakeV2Error::Crypto(e),
                ),
                Ok(ex) => if old(self)@.stage is AwaitM2 && request.hello().sid == old(self)@.sid {
                    &&& exists|draw: u64|
                        final(self)@ == #[trigger] old(self)@.confirmed(request.hello(), ex, draw)
                    &&& r matches Ok(ClientEvent::Emit(p)) && datagrams(p@)
                        == final(self)@.m3_datagrams()
                } else {
                    final(self)@ == old(self)@ && (r matches Ok(e) && e is Nothing)
                },
            },
    {
        self.on_exchange_with_draw(request, reply, random_u64_or_zero())
    }

    /// The retransmission timer fired, for a given draw of the jitter. While
    /// the budget lasts the same datagrams are sent again; after that, a
    /// client without an answer gives up, and a client that has sent its
    /// confirmation is complete.
    pub fn on_timer_with_draw(&mut self, draw: u64) -> (r: Result<ClientEvent, HandshakeV2Error>)
        requires
            old(self).wf(),
        ensures
            final(self).wf(),
            match old(self)@.stage {
                ClientStage::AwaitM2(_) => if old(self)@.attempts >= old(self)@.cfg.m1_max_attempts {
                    final(self)@ == old(self)@ && r == Err::<ClientEvent, HandshakeV2Error>(
                        HandshakeV2Error::Timeout,
                    )
                } else {
                    &&& final(self)@ == old(self)@.retransmitted(draw)
                    &&& r matches Ok(ClientEvent::Emit(p)) && datagrams(p@) == old(
                        self,
                    )@.m1_datagrams()
                },
                ClientStage::M3Sent { outcome, .. } => if old(self)@.attempts >= old(
                    self,
                )@.cfg.m3_max_attempts {
                    final(self)@ == old(self)@ && (r matches Ok(ClientEvent::Complete(o)) && o@
                        == outcome)
                } else {
                    &&& final(self)@ == old(self)@.retransmitted(draw)
                    &&& r matches Ok(ClientEvent::Emit(p)) && datagrams(p@) == old(
                        self,
                    )@.m3_datagrams()
                },
            },
    {
        match &self.outcome {
            None => {
                if self.attempts >= self.cfg.m1_max_attempts {
                    return Err(HandshakeV2Error::Timeout);
                }
                self.attempts = self.attempts + 1;
                self.next_delay = backoff_delay_with(
                    self.cfg.m1_retransmit_base,
                    self.attempts,
                    draw,
                );
                Ok(ClientEvent::Emit(duplicate_packets(&self.m1_frags)))
            },
            Some(outcome) => {
                if self.attempts >= self.cfg.m3_max_attempts {
                    return Ok(ClientEvent::Complete(outcome.duplicate()));
                }
                self.attempts = self.attempts + 1;
                self.next_delay = backoff_delay_with(
                    self.cfg.m1_retransmit_base,
                    self.attempts,
                    draw,
                );
                Ok(ClientEvent::Emit(duplicate_packets(&self.m3_frags)))
            },
        }
    }

    /// The retransmission timer fired.
    pub fn on_timer(&mut self) -> (r: Result<ClientEvent, HandshakeV2Error>)
        requires
            old(self).wf(),
        ensures
            final(self).wf(),
            match old(self)@.stage {
                ClientStage::AwaitM2(_) => if old(self)@.attempts >= old(self)@.cfg.m1_max_attempts {
                    final(self)@ == old(self)@ && r == Err::<ClientEvent, HandshakeV2Error>(
                        HandshakeV2Error::Timeout,
                    )
                } else {
                    &&& exists|draw: u64| final(self)@ == #[trigger] old(self)@.retransmitted(draw)
                    &&& r matches Ok(ClientEvent::Emit(p)) && datagrams(p@) == old(
                        self,
                    )@.m1_datagrams()
                },
                ClientStage::M3Sent { outcome, .. } => if old(self)@.attempts >= old(
                    self,
                )@.cfg.m3_max_attempts {
                    final(self)@ == old(self)@ && (r matches Ok(ClientEvent::Complete(o)) && o@
                        == outcome)
                } else {
                    &&& exists|draw: u64| final(self)@ == #[trigger] old(self)@.retransmitted(draw)
                    &&& r matches Ok(ClientEvent::Emit(p)) && datagrams(p@) == old(
                        self,
                    )@.m3_datagrams()
                },
            },
    {
        self.on_timer_with_draw(random_u64_or_zero())
    }
}

/// The outcome of a client is bound to the whole handshake: its master secret is
/// derived from both encapsulated secrets and the Diffie-Hellman secret of the two
/// ephemeral keys, and from the version, the session and the digest of all three
/// messages. It names the session of the client and the pinned server.
pub proof fn client_outcome_is_a_hybrid(
    s: ClientView,
    m2: ServerHello,
    ex: ClientExchange,
    draw: u64,
)
    requires
        s.wf(),
    ensures
        ({
            let th3 = sha256_of(
                "pq-tunnel-v1"@.map_values(|c: char| c as u8) + (s.hello.encoding().subrange(
                    0,
                    1225,
                ) + zeros(3309)) + (m2.encoding().subrange(0, 2313) + zeros(3309)) + (seq![1u8]
                    + s.sid@ + ex.ct3.bytes@ + zeros(16)),
            );
            let master = hkdf_sha256_of(
                zeros(32),
                ex.ss_a@ + ex.ss_b@ + x25519_of(s.x_secret, m2.x_s@),
                "pq-tunnel-master-v2"@.map_values(|c: char| c as u8) + seq![1u8] + s.sid@ + th3,
            );
            let mac = hmac_sha256_of(
                hkdf_sha256_of(
                    zeros(32),
                    master,
                    "pq-tunnel-finished-v1"@.map_values(|c: char| c as u8) + seq![1u8] + s.sid@,
                ),
                th3,
            ).subrange(0, 16);
            &&& s.confirmed(m2, ex, draw).stage matches ClientStage::M3Sent { frags, outcome }
            &&& outcome.master == master
            &&& outcome.session_id == s.sid
            &&& outcome.peer_identity == s.cfg.server_identity
            &&& frags.len() == 1
            &&& frags[0] == frag_datagram(
                0x30,
                1,
                s.sid@,
                seq![1u8] + s.sid@ + ex.ct3.bytes@ + mac,
                0,
            )
        }),
{
    let m3_z = m3_layout(s.cfg.version, s.sid@, ex.ct3.bytes@, zeros(16));
    client_hello_roundtrip(s.hello, s.hello);
    server_hello_roundtrip(m2, m2);
    digests_hash_the_messages(s.hello.encoding(), m2.encoding(), m3_z);
    assert(m3_z.subrange(0, 1097) + zeros(16) =~= seq![1u8] + s.sid@ + ex.ct3.bytes@ + zeros(16));
    master_is_a_hybrid(
        ex.ss_a@,
        ex.ss_b@,
        x25519_of(s.x_secret, m2.x_s@),
        1,
        s.sid@,
        s.th3(m2, ex.ct3.bytes@),
    );
    finished_is_keyed_by_the_master(s.master(m2, ex), 1, s.sid@, s.th3(m2, ex.ct3.bytes@));
}

/// Neither the exchange nor a retransmission touches the keys, the session or the
/// hello. The exchange starts a new budget; a retransmission uses up one attempt,
/// and the delay after it is that of this attempt.
pub proof fn stages_have_their_own_budget(
    s: ClientView,
    m2: ServerHello,
    ex: ClientExchange,
    draw: u64,
)
    requires
        s.attempts < u32::MAX,
    ensures
        ({
            let c = s.confirmed(m2, ex, draw);
            let r = s.retransmitted(draw);
            let base = s.cfg.m1_retransmit_base.nanos();
            &&& c.attempts == 0
            &&& c.next_delay == jittered_nanos(base, draw)
            &&& c.cfg == s.cfg && c.sid == s.sid && c.hello == s.hello && c.x_secret == s.x_secret
                && c.kem_secret == s.kem_secret
            &&& r.attempts == s.attempts + 1
            &&& r.next_delay == backoff_nanos(base, (s.attempts + 1) as u32, draw)
            &&& r.cfg == s.cfg && r.sid == s.sid && r.hello == s.hello && r.x_secret == s.x_secret
                && r.kem_secret == s.kem_secret && r.stage == s.stage
        }),
{
}

/// A new machine holds its own keys, has the whole budget before it and has
/// received nothing; its hello, until it is signed, is the version, the session,
/// both public keys and a slot of zeros.
pub proof fn new_machine_holds_its_keys(
    cfg: ClientConfig,
    sid: [u8; SESSION_ID_LEN],
    keys: ClientKeys,
    hello: ClientHello,
    draw: u64,
)
    ensures
        ({
            let s = ClientView::started(cfg, sid, keys, hello, draw);
            &&& s.cfg == cfg && s.sid == sid && s.hello == hello
            &&& s.kem_secret == keys.kem_secret@
            &&& s.x_secret == keys.x_secret@
            &&& s.attempts == 0
            &&& s.next_delay == jittered_nanos(cfg.m1_retransmit_base.nanos(), draw)
            &&& s.stage matches ClientStage::AwaitM2(a) && a.hs_type == 0x20 && a.received.len()
                == 5 && a.buffer.len() == 5622 && forall|i: int|
                0 <= i < 5 ==> !(#[trigger] a.received[i])
        }),
        unsigned_hello(cfg.version, sid, keys.kem_public, keys.x_secret@) == seq![cfg.version]
            + sid@ + keys.kem_public.bytes@ + x25519_of(keys.x_secret@, X25519_BASE@) + zeros(3309),
{
}

/// Only fragments of a server's answer for this session, while one is awaited,
/// have any effect.
pub proof fn other_datagrams_are_ignored(s: ClientView, dg: Seq<u8>)
    requires
        dg.len() == 1280,
        !(s.stage is AwaitM2) || !is_fragment(dg) || dg[9] != 0x20 || dg.subrange(1, 9) != s.sid@,
    ensures
        s.received(dg) == s,
        !s.completes(dg),
{
}

/// An answer that is complete but of another version or for another session is
/// thrown away, and the machine collects anew; so it does after a signature that
/// is not valid. Nothing else of the machine changes.
pub proof fn unfit_answer_is_thrown_away(s: ClientView, dg: Seq<u8>)
    requires
        s.completes(dg),
    ensures
        ({
            let m = s.offered(dg).buffer;
            let t = s.received(dg);
            &&& s.checkable(m) <==> m[0] == 1 && m.subrange(1, 9) == s.sid@
            &&& s.checkable(m) ==> t.stage == ClientStage::AwaitM2(s.offered(dg))
            &&& !s.checkable(m) ==> t == s.reset()
            &&& s.reset().stage matches ClientStage::AwaitM2(a) && a.hs_type == 0x20 && forall|
                i: int,
            |
                0 <= i < 5 ==> !(#[trigger] a.received[i])
            &&& t.cfg == s.cfg && t.sid == s.sid && t.hello == s.hello && t.x_secret == s.x_secret
                && t.kem_secret == s.kem_secret && t.attempts == s.attempts && t.next_delay
                == s.next_delay
        }),
{
}

/// A client that has sent its confirmation is not reset by anything it receives.
pub proof fn confirmation_is_final(s: ClientView, dg: Seq<u8>)
    requires
        s.stage is M3Sent,
    ensures
        s.reset() == s,
        s.received(dg) == s,
        s.stage matches ClientStage::M3Sent { frags, .. } && s.m3_datagrams() == frags,
{
}

/// The hello is sent as the four fragments of its encoding.
pub proof fn hello_is_sent_whole(s: ClientView)
    requires
        s.wf(),
    ensures
        s.m1_datagrams().len() == 4,
        forall|i: int|
            0 <= i < 4 ==> #[trigger] s.m1_datagrams()[i] == frag_datagram(
                0x10,
                1,
                s.sid@,
                s.hello.encoding(),
                i,
            ),
{
}

} // verus!
