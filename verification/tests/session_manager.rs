use pq_tunnel_core::codec::{
    Direction, InnerPlaintext, MessageType, PacketHeader, WirePacket, MAX_PACKET_NONCE,
    PACKET_SIZE, PAYLOAD_LEN, PROTOCOL_VERSION, SESSION_ID_LEN,
};
use pq_tunnel_core::envelope::{Role, TrafficKeys};
use pq_tunnel_core::error::{CodecError, CryptoError};
use pq_tunnel_core::handshake_v2::client::{
    ClientConfig, ClientEvent, ClientExchange, ClientHandshake, ClientKeys, ClientStep,
};
use pq_tunnel_core::handshake_v2::fragment::{M1_FRAG_COUNT, M2_FRAG_COUNT, M3_FRAG_COUNT};
use pq_tunnel_core::handshake_v2::outcome::{HandshakeOutcome, HandshakeV2Error};
use pq_tunnel_core::handshake_v2::run::RecvVerdict;
use pq_tunnel_core::handshake_v2::server::{
    AuthStep, ServerConfig, ServerEvent, ServerHandshake, ServerKeys, ServerStep,
};
use pq_tunnel_core::keys::{
    MlDsaPublicKey, MlDsaSignature, MlKemCiphertext, MlKemPublicKey, MlKemSecretKey, Secret32,
    SharedSecret,
};
use pq_tunnel_core::net::PeerAddr;
use pq_tunnel_core::nonce::build_session_nonce;
use pq_tunnel_core::scheduler::CoverPolicy;
use pq_tunnel_core::session_manager::client::{
    ClientManagerState, ClientManagerStep, ClientSessionManager, TimerStep,
};
use pq_tunnel_core::session_manager::driver::{
    filetime_ticks, Action, ClientDriver, Decision, ServerDriver,
};
use pq_tunnel_core::session_manager::event::{
    CloseReason, ManagerError, ManagerEvent, ManagerNotification, SealStep, SealTicket,
    ServerAppCommand, SessionLimits,
};
use pq_tunnel_core::session_manager::server::{
    ConfirmStep, CoverReply, ManagerStep, ServerSessionManager,
};
use pq_tunnel_core::time::{Duration, Instant};
use pq_tunnel_core::wire_session::{SessionError, WireSession};
use sha2::{Digest, Sha256};

const CLIENT_ADDR: PeerAddr = PeerAddr::V4 { ip: 0x7F00_0001, port: 40001 };
const SERVER_ADDR: PeerAddr = PeerAddr::V4 { ip: 0x7F00_0001, port: 40002 };
const OTHER_ADDR: PeerAddr = PeerAddr::V4 { ip: 0x7F00_0001, port: 40003 };
const SID: [u8; SESSION_ID_LEN] = [0x42; SESSION_ID_LEN];

fn digest(parts: &[&[u8]]) -> [u8; 32] {
    let mut h = Sha256::new();
    for p in parts {
        h.update(p);
    }
    h.finalize().into()
}

fn keystream(key: &[u8; 32], nonce: &[u8; 12], data: &[u8]) -> Vec<u8> {
    let mut out = Vec::with_capacity(data.len());
    for (i, chunk) in data.chunks(32).enumerate() {
        let block = digest(&[b"stream", key, nonce, &(i as u64).to_be_bytes()]);
        for (a, b) in chunk.iter().zip(block.iter()) {
            out.push(a ^ b);
        }
    }
    out
}

/// A stand-in for the AEAD: a hash-based stream and a hash-based tag.
fn aead_seal(key: &[u8; 32], nonce: &[u8; 12], plaintext: &[u8], aad: &[u8]) -> Vec<u8> {
    let mut out = keystream(key, nonce, plaintext);
    let tag = digest(&[b"tag", key, nonce, aad, &out]);
    out.extend_from_slice(&tag[..16]);
    out
}

fn aead_open(key: &[u8; 32], nonce: &[u8; 12], region: &[u8], aad: &[u8]) -> Option<Vec<u8>> {
    if region.len() < 16 {
        return None;
    }
    let (ct, tag) = region.split_at(region.len() - 16);
    let expected = digest(&[b"tag", key, nonce, aad, ct]);
    if &expected[..16] != tag {
        return None;
    }
    Some(keystream(key, nonce, ct))
}

/// A stand-in for the derivation of traffic keys.
fn traffic_keys(master: &[u8], sid: &[u8; 8]) -> TrafficKeys {
    let prefix = |label: &[u8]| -> [u8; 4] {
        let d = digest(&[label, master, sid]);
        [d[0], d[1], d[2], d[3]]
    };
    TrafficKeys {
        key_c2s: digest(&[b"key c2s", master, sid]),
        key_s2c: digest(&[b"key s2c", master, sid]),
        prefix_c2s: prefix(b"prefix c2s"),
        prefix_s2c: prefix(b"prefix s2c"),
    }
}
fn expand<const N: usize>(seed: &[u8; 32]) -> [u8; N] {
    let mut out = [0u8; N];
    for (i, chunk) in out.chunks_mut(32).enumerate() {
        let block = digest(&[b"expand", seed, &(i as u64).to_be_bytes()]);
        chunk.copy_from_slice(&block[..chunk.len()]);
    }
    out
}

fn random32() -> [u8; 32] {
    let mut r = [0u8; 32];
    getrandom::fill(&mut r).expect("random");
    r
}

/// A stand-in for a signature key pair.
#[derive(Clone)]
struct Identity {
    public: MlDsaPublicKey,
}

impl Identity {
    fn from_seed(seed: u8) -> Identity {
        Identity { public: MlDsaPublicKey { bytes: expand(&[seed; 32]) } }
    }

    fn sign(&self, message: &[u8]) -> MlDsaSignature {
        let seed = digest(&[b"sign", &self.public.bytes, message]);
        MlDsaSignature { bytes: expand(&seed) }
    }
}

fn verify(key: &MlDsaPublicKey, message: &[u8], signature: &MlDsaSignature) -> bool {
    let identity = Identity { public: *key };
    identity.sign(message) == *signature
}

fn kem_public(secret: &[u8]) -> MlKemPublicKey {
    MlKemPublicKey { bytes: expand(&digest(&[b"kem public", secret])) }
}

/// A stand-in for a key encapsulation key pair.
fn kem_generate() -> (MlKemPublicKey, MlKemSecretKey) {
    let secret = random32();
    (kem_public(&secret), MlKemSecretKey::from_bytes(secret.to_vec()))
}

fn encapsulate(key: &MlKemPublicKey) -> (SharedSecret, MlKemCiphertext) {
    let ct = MlKemCiphertext { bytes: expand(&random32()) };
    let ss = digest(&[b"kem secret", &key.bytes, &ct.bytes]);
    (SharedSecret::from_bytes(ss), ct)
}

fn decapsulate(secret: &MlKemSecretKey, ct: &MlKemCiphertext) -> SharedSecret {
    let key = kem_public(secret.as_bytes());
    SharedSecret::from_bytes(digest(&[b"kem secret", &key.bytes, &ct.bytes]))
}

fn client_keys() -> ClientKeys {
    let (kem_public, kem_secret) = kem_generate();
    ClientKeys { kem_public, kem_secret, x_secret: Secret32::from_bytes(random32()) }
}

fn server_keys(eph_pk_c: &MlKemPublicKey) -> ServerKeys {
    let (kem_public, kem_secret) = kem_generate();
    let (ss_a, ct2) = encapsulate(eph_pk_c);
    ServerKeys {
        kem_public,
        kem_secret,
        x_secret: Secret32::from_bytes(random32()),
        ss_a,
        ct2,
    }
}

fn start_time() -> Instant {
    Instant::from_origin(Duration::from_secs(1_000_000))
}

fn seal(ticket: &SealTicket) -> Result<Vec<u8>, CryptoError> {
    let q = ticket.request();
    Ok(aead_seal(&q.key, q.nonce.as_bytes(), &q.plaintext, &q.aad))
}

#[derive(Clone)]
struct ClientSetup {
    cfg: ClientConfig,
    identity: Identity,
}

struct ServerSetup {
    cfg: ServerConfig,
    identity: Identity,
}

/// One identity pair for every test.
fn shared_configs() -> (ClientSetup, ServerSetup) {
    let client = Identity::from_seed(1);
    let server = Identity::from_seed(2);
    let cc = ClientSetup {
        cfg: ClientConfig::new(SERVER_ADDR, server.public),
        identity: client.clone(),
    };
    let sc = ServerSetup { cfg: ServerConfig::new(vec![client.public]), identity: server };
    (cc, sc)
}

/// A session together with the work of its caller.
struct Session {
    inner: WireSession,
}

impl Session {
    fn established(role: Role, outcome: &HandshakeOutcome) -> Result<Session, SessionError> {
        let keys = traffic_keys(outcome.master.as_bytes(), &outcome.session_id);
        let inner = WireSession::established(role, outcome, Ok(keys), start_time())?;
        Ok(Session { inner })
    }

    fn encrypt(&mut self, msg_type: MessageType, p: &[u8]) -> Result<WirePacket, SessionError> {
        let q = self.inner.seal_request(msg_type, p)?;
        let sealed = aead_seal(&q.key, q.nonce.as_bytes(), &q.plaintext, &q.aad);
        self.inner.encrypt(q, Ok(sealed))
    }

    fn cover(&mut self) -> Result<WirePacket, SessionError> {
        let q = self.inner.cover()?;
        let sealed = aead_seal(&q.key, q.nonce.as_bytes(), &q.plaintext, &q.aad);
        self.inner.encrypt(q, Ok(sealed))
    }

    fn decrypt(&mut self, pkt: &WirePacket) -> Result<InnerPlaintext, SessionError> {
        let q = self.inner.open_request(pkt)?;
        let opened = aead_open(&q.key, q.nonce.as_bytes(), &q.region, &q.aad);
        self.inner.decrypt(pkt, opened)
    }
}

/// A client machine together with the work of its caller.
struct Client {
    hs: ClientHandshake,
}

impl Client {
    fn new(cc: &ClientSetup, sid: [u8; SESSION_ID_LEN]) -> Result<Client, HandshakeV2Error> {
        let keys = client_keys();
        let th1 = ClientHandshake::hello_digest(&cc.cfg, &sid, &keys)?;
        let hs = ClientHandshake::new(&cc.cfg, sid, keys, cc.identity.sign(&th1))?;
        Ok(Client { hs })
    }

    fn m1_frags(&self) -> Vec<WirePacket> {
        self.hs.m1_frags().to_vec()
    }

    fn m3_frags(&self) -> Vec<WirePacket> {
        self.hs.m3_frags().to_vec()
    }

    fn handle_datagram(&mut self, pkt: &WirePacket) -> Result<ClientEvent, HandshakeV2Error> {
        let check = match self.hs.handle_datagram(pkt) {
            ClientStep::Event(e) => return Ok(e),
            ClientStep::Verify(v) => v,
            ClientStep::Exchange(_) => unreachable!(),
        };
        let valid = verify(check.key(), check.digest(), check.signature());
        match self.hs.on_verified(check, Ok(valid))? {
            ClientStep::Event(e) => Ok(e),
            ClientStep::Verify(_) => unreachable!(),
            ClientStep::Exchange(x) => {
                let ss_a = decapsulate(self.hs.kem_secret(), x.ct2());
                let (ss_b, ct3) = encapsulate(x.eph_pk_s());
                self.hs.on_exchange(x, Ok(ClientExchange { ss_a, ss_b, ct3 }))
            }
        }
    }

    fn on_timer(&mut self) -> Result<ClientEvent, HandshakeV2Error> {
        self.hs.on_timer()
    }
}

/// A server machine together with the work of its caller.
struct Server {
    hs: ServerHandshake,
    identity: Identity,
    now: Instant,
}

impl Server {
    fn new(sc: &ServerSetup) -> Server {
        Server {
            hs: ServerHandshake::new(&sc.cfg),
            identity: sc.identity.clone(),
            now: start_time(),
        }
    }

    fn handle_datagram(
        &mut self,
        pkt: &WirePacket,
        from: PeerAddr,
    ) -> Result<ServerEvent, HandshakeV2Error> {
        self.now = self.now.plus(Duration::from_nanos(1_000));
        match self.hs.handle_datagram(pkt, from, self.now) {
            ServerStep::Event(e) => Ok(e),
            ServerStep::Authenticate(auth) => {
                let verdicts: Vec<bool> = self
                    .hs
                    .roster()
                    .iter()
                    .map(|k| verify(k, auth.digest(), auth.signature()))
                    .collect();
                match self.hs.on_authenticated(auth, Ok(verdicts))? {
                    AuthStep::Event(e) => Ok(e),
                    AuthStep::Respond(request) => {
                        let keys = server_keys(request.eph_pk_c());
                        let sign = self.hs.on_keys(request, Ok(keys))?;
                        let sig = self.identity.sign(sign.digest());
                        self.hs.on_signed(sign, Ok(sig), self.now)
                    }
                }
            }
            ServerStep::Decapsulate(check) => {
                let secret = self.hs.confirm_secret(&check).expect("pending");
                let ss = decapsulate(secret, check.ct3());
                self.hs.on_decapsulated(check, Ok(ss), self.now)
            }
        }
    }
}

/// A server manager together with the work of its caller, on a clock that
/// advances by a microsecond per call.
struct ServerManager {
    inner: ServerSessionManager,
    identity: Identity,
    now: Instant,
}

impl ServerManager {
    fn new(sc: &ServerSetup, limits: SessionLimits) -> Result<ServerManager, ManagerError> {
        Ok(ServerManager {
            inner: ServerSessionManager::new(&sc.cfg, limits)?,
            identity: sc.identity.clone(),
            now: start_time(),
        })
    }

    fn handle_datagram(
        &mut self,
        pkt: &WirePacket,
        from: PeerAddr,
    ) -> Result<ManagerEvent, ManagerError> {
        self.now = self.now.plus(Duration::from_nanos(1_000));
        match self.inner.handle_datagram(pkt, from, self.now) {
            ManagerStep::Event(e) => Ok(e),
            ManagerStep::Authenticate(auth) => {
                let verdicts: Vec<bool> = self
                    .inner
                    .roster()
                    .iter()
                    .map(|k| verify(k, auth.digest(), auth.signature()))
                    .collect();
                match self.inner.on_authenticated(auth, Ok(verdicts))? {
                    None => Ok(ManagerEvent::Nothing),
                    Some(request) => {
                        let keys = server_keys(request.eph_pk_c());
                        let sign = self.inner.on_keys(request, Ok(keys))?;
                        let sig = self.identity.sign(sign.digest());
                        self.inner.on_signed(sign, Ok(sig), self.now)
                    }
                }
            }
            ManagerStep::Decapsulate(check) => {
                let secret = self.inner.handshake().confirm_secret(&check).expect("pending");
                let ss = decapsulate(secret, check.ct3());
                match self.inner.on_decapsulated(check, Ok(ss), self.now)? {
                    ConfirmStep::Event(e) => Ok(e),
                    ConfirmStep::Establish(outcome, from) => {
                        self.on_handshake_complete(outcome, from)
                    }
                }
            }
            ManagerStep::Open(ticket) => {
                let q = ticket.request();
                let opened = aead_open(&q.key, q.nonce.as_bytes(), &q.region, &q.aad);
                Ok(self.inner.on_opened(ticket, opened, self.now))
            }
        }
    }

    fn on_handshake_complete(
        &mut self,
        outcome: HandshakeOutcome,
        from: PeerAddr,
    ) -> Result<ManagerEvent, ManagerError> {
        let keys = traffic_keys(outcome.master.as_bytes(), &outcome.session_id);
        self.inner.on_handshake_complete(outcome, from, Ok(keys), self.now)
    }

    fn finish(&mut self, step: SealStep) -> Result<ManagerEvent, ManagerError> {
        match step {
            SealStep::Event(e) => Ok(e),
            SealStep::Seal(ticket) => {
                let sealed = seal(&ticket);
                self.inner.on_sealed(ticket, sealed, self.now)
            }
        }
    }

    fn app_outbound(
        &mut self,
        sid: &[u8; SESSION_ID_LEN],
        payload: &[u8],
    ) -> Result<ManagerEvent, ManagerError> {
        let step = self.inner.app_outbound(sid, payload)?;
        self.finish(step)
    }

    fn cover_packet(&mut self, sid: &[u8; SESSION_ID_LEN]) -> Result<ManagerEvent, ManagerError> {
        let step = self.inner.cover_packet(sid)?;
        self.finish(step)
    }

    fn cover_packet_all(&mut self) -> Result<Vec<ManagerEvent>, ManagerError> {
        let replies = self
            .inner
            .cover_packet_all()?
            .into_iter()
            .map(|step| match step {
                SealStep::Event(e) => CoverReply::Event(e),
                SealStep::Seal(ticket) => {
                    let sealed = seal(&ticket);
                    CoverReply::Sealed(ticket, sealed)
                }
            })
            .collect();
        self.inner.on_cover_sealed(replies, self.now)
    }

    fn close_session(&mut self, sid: &[u8; SESSION_ID_LEN]) -> Result<ManagerEvent, ManagerError> {
        self.inner.close_session(sid)
    }

    fn tick(&mut self, now: Instant) -> Vec<ManagerEvent> {
        self.inner.tick(now)
    }

    fn session_count(&self) -> usize {
        self.inner.session_count()
    }

    fn pending_handshakes(&self) -> usize {
        self.inner.pending_handshakes()
    }

    fn fail_bucket_count(&self) -> usize {
        self.inner.fail_bucket_count()
    }
}

/// A client manager together with the work of its caller.
struct ClientManager {
    inner: ClientSessionManager,
    identity: Identity,
    now: Instant,
}

impl ClientManager {
    fn new(cc: &ClientSetup, limits: SessionLimits) -> Result<ClientManager, ManagerError> {
        Ok(ClientManager {
            inner: ClientSessionManager::new(&cc.cfg, limits)?,
            identity: cc.identity.clone(),
            now: start_time(),
        })
    }

    fn begin_handshake(&mut self) -> Result<ManagerEvent, ManagerError> {
        let sid = self.inner.begin_handshake()?;
        let keys = client_keys();
        let th1 = ClientHandshake::hello_digest(self.inner.config(), &sid, &keys)
            .map_err(ManagerError::Handshake)?;
        let sig = self.identity.sign(&th1);
        self.inner.start_handshake(sid, Ok((keys, sig)), self.now)
    }

    fn handle_datagram(
        &mut self,
        pkt: &WirePacket,
        from: PeerAddr,
    ) -> Result<ManagerEvent, ManagerError> {
        match self.inner.handle_datagram(pkt, from) {
            ClientManagerStep::Event(e) => Ok(e),
            ClientManagerStep::Verify(check) => {
                let valid = verify(check.key(), check.digest(), check.signature());
                match self.inner.on_verified(check, Ok(valid))? {
                    None => Ok(ManagerEvent::Nothing),
                    Some(x) => {
                        let ss_a = decapsulate(self.inner.kem_secret().unwrap(), x.ct2());
                        let (ss_b, ct3) = encapsulate(x.eph_pk_s());
                        self.inner.on_exchange(x, Ok(ClientExchange { ss_a, ss_b, ct3 }))
                    }
                }
            }
            ClientManagerStep::Open(ticket) => {
                let q = ticket.request();
                let opened = aead_open(&q.key, q.nonce.as_bytes(), &q.region, &q.aad);
                Ok(self.inner.on_opened(ticket, opened))
            }
        }
    }

    fn on_timer(&mut self) -> Result<ManagerEvent, ManagerError> {
        match self.inner.on_timer() {
            TimerStep::Event(e) => Ok(e),
            TimerStep::Establish(outcome) => {
                let keys = traffic_keys(outcome.master.as_bytes(), &outcome.session_id);
                self.inner.establish(outcome, Ok(keys), self.now)?;
                Ok(ManagerEvent::Nothing)
            }
        }
    }

    fn finish(&mut self, step: SealStep) -> Result<ManagerEvent, ManagerError> {
        match step {
            SealStep::Event(e) => Ok(e),
            SealStep::Seal(ticket) => {
                let sealed = seal(&ticket);
                self.inner.on_sealed(ticket, sealed)
            }
        }
    }

    fn app_outbound(&mut self, payload: &[u8]) -> Result<ManagerEvent, ManagerError> {
        let step = self.inner.app_outbound(payload)?;
        self.finish(step)
    }

    fn cover_packet(&mut self) -> Result<ManagerEvent, ManagerError> {
        let step = self.inner.cover_packet()?;
        self.finish(step)
    }

    fn close(&mut self) -> Result<ManagerEvent, ManagerError> {
        let step = self.inner.close()?;
        self.finish(step)
    }

    fn tick(&mut self, now: Instant) -> Vec<ManagerEvent> {
        self.inner.tick(now)
    }

    fn state(&self) -> ClientManagerState {
        self.inner.state()
    }

    fn is_ready(&self) -> bool {
        self.inner.is_ready()
    }

    fn session_id(&self) -> Option<[u8; SESSION_ID_LEN]> {
        self.inner.session_id()
    }

    fn handshake_sid(&self) -> Option<[u8; SESSION_ID_LEN]> {
        self.inner.handshake_sid()
    }
}

fn server_manager(limits: SessionLimits) -> ServerManager {
    let (_, sc) = shared_configs();
    ServerManager::new(&sc, limits).expect("manager")
}

/// Drives the client machine to completion.
fn client_established(client: &mut Client, cc: &ClientSetup) -> (Session, HandshakeOutcome) {
    for _ in 0..=cc.cfg.m3_max_attempts {
        if let ClientEvent::Complete(out) = client.on_timer().expect("cli") {
            let ws = Session::established(Role::Client, &out).expect("ws");
            return (ws, out);
        }
    }
    panic!("client machine never completed");
}

/// Runs a full exchange through the server manager.
fn server_established(
    manager: &mut ServerManager,
    cc: &ClientSetup,
    sid: [u8; SESSION_ID_LEN],
    from: PeerAddr,
) -> Client {
    let mut client = Client::new(cc, sid).expect("client");
    let mut m2 = Vec::new();
    for f in &client.m1_frags() {
        if let ManagerEvent::Send { packets, peer } = manager.handle_datagram(f, from).expect("srv")
        {
            assert_eq!(peer, from, "M2 goes back to the source");
            m2 = packets;
        }
    }
    assert_eq!(m2.len(), M2_FRAG_COUNT as usize, "full M2 emitted");
    let mut m3 = Vec::new();
    for f in &m2 {
        if let ClientEvent::Emit(packets) = client.handle_datagram(f).expect("cli") {
            m3 = packets;
        }
    }
    assert_eq!(m3.len(), M3_FRAG_COUNT as usize, "client emits M3 once");
    let mut established = false;
    for f in &m3 {
        if let ManagerEvent::Established { sid: es, peer: ep } =
            manager.handle_datagram(f, from).expect("srv")
        {
            assert_eq!(es, sid);
            assert_eq!(ep, from);
            established = true;
        }
    }
    assert!(established, "server must establish at M3");
    client
}

/// Establishes a session and returns a usable client-side session.
fn established_client_session(
    manager: &mut ServerManager,
    cc: &ClientSetup,
    sid: [u8; SESSION_ID_LEN],
) -> (Client, Session) {
    let mut client = server_established(manager, cc, sid, CLIENT_ADDR);
    let (ws, _out) = client_established(&mut client, cc);
    (client, ws)
}

/// An authentic packet at the end of the counter. A sender never emits one.
fn exhaustion_packet(
    master: &Secret32,
    sid: [u8; SESSION_ID_LEN],
    direction: Direction,
) -> WirePacket {
    let keys = traffic_keys(master.as_bytes(), &sid);
    let (key, prefix) = match direction {
        Direction::ClientToServer => (keys.key_c2s, keys.prefix_c2s),
        Direction::ServerToClient => (keys.key_s2c, keys.prefix_s2c),
    };
    let inner = InnerPlaintext::new(MessageType::Data, direction, &[0u8; PAYLOAD_LEN]).unwrap();
    let aad = PacketHeader::new(sid, MAX_PACKET_NONCE).encode();
    let nonce = build_session_nonce(&prefix, MAX_PACKET_NONCE);
    let ct = aead_seal(&key, nonce.as_bytes(), &inner.encode(), &aad);
    WirePacket::from_parts(&aad, &ct).unwrap()
}

fn exhaustion_packet_c2s(master: &Secret32, sid: [u8; SESSION_ID_LEN]) -> WirePacket {
    exhaustion_packet(master, sid, Direction::ClientToServer)
}

fn exhaustion_packet_s2c(master: &Secret32, sid: [u8; SESSION_ID_LEN]) -> WirePacket {
    exhaustion_packet(master, sid, Direction::ServerToClient)
}

fn tampered(pkt: &WirePacket) -> WirePacket {
    let mut bytes = *pkt.as_bytes();
    bytes[PACKET_SIZE - 1] ^= 0x01;
    WirePacket::from_bytes(&bytes).expect("fixed-size")
}

fn client_manager() -> ClientManager {
    let (cc, _sc) = shared_configs();
    ClientManager::new(&cc, SessionLimits::default()).expect("manager")
}

fn server_machine() -> Server {
    let (_cc, sc) = shared_configs();
    Server::new(&sc)
}

/// Drives the client manager through a full handshake against a server machine;
/// returns the server-side session.
fn client_handshake_with_server(
    manager: &mut ClientManager,
    server: &mut Server,
    from: PeerAddr,
) -> (Session, HandshakeOutcome) {
    let m1 = match manager.begin_handshake().unwrap() {
        ManagerEvent::Send { packets, peer } => {
            assert_eq!(peer, SERVER_ADDR);
            packets
        }
        _ => panic!("expected Send(M1)"),
    };
    assert_eq!(m1.len(), M1_FRAG_COUNT as usize);
    let mut m2 = Vec::new();
    for f in &m1 {
        if let ServerEvent::Emit(frags, peer) = server.handle_datagram(f, from).unwrap() {
            assert_eq!(peer, from);
            m2 = frags;
        }
    }
    assert_eq!(m2.len(), M2_FRAG_COUNT as usize);
    let mut m3 = Vec::new();
    for f in &m2 {
        if let ManagerEvent::Send { packets, .. } = manager.handle_datagram(f, from).expect("cli") {
            m3 = packets;
        }
    }
    assert_eq!(m3.len(), M3_FRAG_COUNT as usize);
    let mut outcome = None;
    for f in &m3 {
        if let ServerEvent::Complete(out) = server.handle_datagram(f, from).unwrap() {
            outcome = Some(out);
        }
    }
    let outcome = outcome.expect("server completes at M3");
    let (cc, _sc) = shared_configs();
    for _ in 0..=cc.cfg.m3_max_attempts {
        if matches!(manager.state(), ClientManagerState::Established) {
            break;
        }
        match manager.on_timer().expect("cli") {
            ManagerEvent::Send { .. } | ManagerEvent::Nothing => {}
            _ => panic!("unexpected event while advancing the timer"),
        }
    }
    assert!(matches!(manager.state(), ClientManagerState::Established));
    assert!(!manager.is_ready(), "not ready until the first server packet");
    (Session::established(Role::Server, &outcome).expect("srv session"), outcome)
}

/// A small deterministic generator (splitmix64).
struct Rng(u64);

impl Rng {
    fn new(seed: u64) -> Self {
        Self(seed)
    }

    fn next_u64(&mut self) -> u64 {
        self.0 = self.0.wrapping_add(0x9E37_79B9_7F4A_7C15);
        let mut z = self.0;
        z = (z ^ (z >> 30)).wrapping_mul(0xBF52_3720_9EC8_1713);
        z = (z ^ (z >> 27)).wrapping_mul(0x94D0_49BB_1331_11EB);
        z ^ (z >> 31)
    }

    fn idx(&mut self, n: usize) -> usize {
        (self.next_u64() as usize) % n
    }
}

/// Establishes a server session and returns the outcome of its handshake, too.
fn establish_for_master(cc: &ClientSetup) -> (ServerManager, Session, HandshakeOutcome) {
    let mut manager = server_manager(SessionLimits::default());
    let (mut client, _ws) = established_client_session(&mut manager, cc, SID);
    let (ws, outcome) = client_established(&mut client, cc);
    (manager, ws, outcome)
}

#[test]
fn server_handshake_establishes_session() {
    let (cc, _sc) = shared_configs();
    let mut manager = server_manager(SessionLimits::default());
    let mut client = server_established(&mut manager, &cc, SID, CLIENT_ADDR);
    assert_eq!(manager.session_count(), 1);
    assert_eq!(manager.pending_handshakes(), 0);
    let (mut ws, _) = client_established(&mut client, &cc);
    let pkt = ws.encrypt(MessageType::Data, &[0x11; PAYLOAD_LEN]).unwrap();
    match manager.handle_datagram(&pkt, CLIENT_ADDR).unwrap() {
        ManagerEvent::AppData { sid, inner } => {
            assert_eq!(sid, SID);
            assert_eq!(inner.msg_type, MessageType::Data);
            assert_eq!(&inner.payload[..], &[0x11; PAYLOAD_LEN][..]);
        }
        _ => panic!("expected AppData"),
    }
}

#[test]
fn server_app_outbound_roundtrip() {
    let (cc, _sc) = shared_configs();
    let mut manager = server_manager(SessionLimits::default());
    let (_client, mut ws) = established_client_session(&mut manager, &cc, SID);

    // Short payloads are zero-padded to the fixed slot.
    let ev = manager.app_outbound(&SID, &[0x33u8; 32]).unwrap();
    let (packet, peer) = match ev {
        ManagerEvent::SendPacket { packet, peer } => (packet, peer),
        _ => panic!("expected SendPacket"),
    };
    assert_eq!(peer, CLIENT_ADDR);
    let inner = ws.decrypt(&packet).unwrap();
    assert_eq!(inner.msg_type, MessageType::Data);
    assert_eq!(&inner.payload[..32], &[0x33u8; 32][..]);
    assert_eq!(&inner.payload[32..], &[0u8; PAYLOAD_LEN - 32][..]);

    // The client's reply decrypts on the manager side.
    let reply = ws.encrypt(MessageType::Data, &[0x77; PAYLOAD_LEN]).unwrap();
    assert!(matches!(
        manager.handle_datagram(&reply, CLIENT_ADDR).unwrap(),
        ManagerEvent::AppData { .. }
    ));
    // The replay of the identical packet is rejected silently.
    assert!(matches!(
        manager.handle_datagram(&reply, CLIENT_ADDR).unwrap(),
        ManagerEvent::Nothing
    ));
    assert_eq!(manager.session_count(), 1);
}

#[test]
fn server_unknown_sid_silent() {
    let (cc, _sc) = shared_configs();
    let mut manager = server_manager(SessionLimits::default());
    let (_client, mut ws) = established_client_session(&mut manager, &cc, SID);

    let pkt = ws.encrypt(MessageType::Data, &[0u8; PAYLOAD_LEN]).unwrap();
    let mut bytes = *pkt.as_bytes();
    bytes[1] ^= 0xFF; // different sid (keys no longer match → AEAD fail)
    let foreign = WirePacket::from_bytes(&bytes).unwrap();
    assert!(matches!(
        manager.handle_datagram(&foreign, CLIENT_ADDR).unwrap(),
        ManagerEvent::Nothing
    ));
    assert_eq!(manager.session_count(), 1);
}

#[test]
fn server_tampered_data_gate_blocks_by_source() {
    let (cc, _sc) = shared_configs();
    let mut limits = SessionLimits::default();
    limits.fail_burst = 64;
    let mut manager = server_manager(limits);
    let (_client, mut ws) = established_client_session(&mut manager, &cc, SID);

    let pkt = ws.encrypt(MessageType::Data, &[0u8; PAYLOAD_LEN]).unwrap();
    // Exhaust the source's failure budget with tampered packets.
    for _ in 0..64 {
        assert!(matches!(
            manager
                .handle_datagram(&tampered(&pkt), CLIENT_ADDR)
                .unwrap(),
            ManagerEvent::Nothing
        ));
    }
    // Limit reached: even a VALID packet from that source is dropped without
    // decrypt work.
    assert!(matches!(
        manager.handle_datagram(&pkt, CLIENT_ADDR).unwrap(),
        ManagerEvent::Nothing
    ));
    // A different source has its own budget: the packet decrypts and the
    // session roams to it.
    match manager.handle_datagram(&pkt, OTHER_ADDR).unwrap() {
        ManagerEvent::AppData { .. } => {}
        _ => panic!("expected AppData"),
    }
    // The roam rebinds the reply path.
    match manager.app_outbound(&SID, &[0u8; 8]).unwrap() {
        ManagerEvent::SendPacket { peer, .. } => assert_eq!(peer, OTHER_ADDR),
        _ => panic!("expected SendPacket"),
    }
    assert_eq!(manager.session_count(), 1);
}

#[test]
fn server_fail_gate_table_is_capped() {
    let (cc, _sc) = shared_configs();
    let mut limits = SessionLimits::default();
    limits.max_fail_buckets = 4;
    let mut manager = server_manager(limits);
    let (_client, mut ws) = established_client_session(&mut manager, &cc, SID);
    let pkt = ws.encrypt(MessageType::Data, &[0u8; PAYLOAD_LEN]).unwrap();

    for i in 0..16u16 {
        let from = PeerAddr::V4 { ip: 0x7F00_0001, port: 41000 + i };
        let _ = manager.handle_datagram(&tampered(&pkt), from);
        assert!(
            manager.fail_bucket_count() <= 4,
            "bucket table must stay capped"
        );
    }
}

#[test]
fn server_sid_collision_keeps_existing() {
    let (cc, _sc) = shared_configs();
    let mut manager = server_manager(SessionLimits::default());
    let (_client, mut ws) = established_client_session(&mut manager, &cc, SID);

    // A second valid handshake from another source reusing the same sid
    // must not displace the existing session.
    let mut attacker = Client::new(&cc, SID).expect("client");
    let mut m2 = Vec::new();
    for f in &attacker.m1_frags() {
        if let ManagerEvent::Send { packets, .. } =
            manager.handle_datagram(f, OTHER_ADDR).expect("srv")
        {
            m2 = packets;
        }
    }
    let mut m3 = Vec::new();
    for f in &m2 {
        if let ClientEvent::Emit(packets) = attacker.handle_datagram(f).expect("cli") {
            m3 = packets;
        }
    }
    let mut displaced = false;
    for f in &m3 {
        if let ManagerEvent::Established { .. } =
            manager.handle_datagram(f, OTHER_ADDR).expect("srv")
        {
            displaced = true;
        }
    }
    assert!(!displaced, "colliding handshake must be dropped silently");
    assert_eq!(manager.session_count(), 1);

    // The original session still works.
    let pkt = ws.encrypt(MessageType::Data, &[0x5A; PAYLOAD_LEN]).unwrap();
    assert!(matches!(
        manager.handle_datagram(&pkt, CLIENT_ADDR).unwrap(),
        ManagerEvent::AppData { .. }
    ));
}

#[test]
fn server_capacity_evicts_least_recent() {
    let (cc, _sc) = shared_configs();
    let mut limits = SessionLimits::default();
    limits.max_sessions = 1;
    let mut manager = server_manager(limits);

    let (_client_a, _) = established_client_session(&mut manager, &cc, SID);
    assert_eq!(manager.session_count(), 1);

    // Second session evicts the first (LRU); its Closed is queued.
    let sid_b = [0x99; SESSION_ID_LEN];
    let (_, mut ws_b) = established_client_session(&mut manager, &cc, sid_b);
    assert_eq!(manager.session_count(), 1);
    let pkt = ws_b
        .encrypt(MessageType::Data, &[0u8; PAYLOAD_LEN])
        .unwrap();
    assert!(matches!(
        manager.handle_datagram(&pkt, CLIENT_ADDR).unwrap(),
        ManagerEvent::AppData { .. }
    ));

    // The eviction notification arrives on the next tick.
    let events = manager.tick(manager.now);
    assert_eq!(events.len(), 1);
    match &events[0] {
        ManagerEvent::Closed { sid, reason } => {
            assert_eq!(*sid, SID);
            assert_eq!(*reason, CloseReason::Capacity);
        }
        _ => panic!("expected Closed{{Capacity}}"),
    }
}

#[test]
fn server_idle_eviction_and_activity_refresh() {
    let (cc, _sc) = shared_configs();
    let mut limits = SessionLimits::default();
    limits.idle_timeout = Some(Duration::from_secs(3600));
    limits.lifetime_cap = None;
    let mut manager = server_manager(limits);
    let (_client, mut ws) = established_client_session(&mut manager, &cc, SID);

    // Activity within the window keeps the session alive.
    let pkt = ws.encrypt(MessageType::Data, &[0u8; PAYLOAD_LEN]).unwrap();
    assert!(matches!(
        manager.handle_datagram(&pkt, CLIENT_ADDR).unwrap(),
        ManagerEvent::AppData { .. }
    ));
    assert!(
        manager
            .tick(manager.now.plus(Duration::from_secs(30 * 60)))
            .is_empty(),
        "recent activity must not be evicted"
    );
    assert_eq!(manager.session_count(), 1);

    // Idle past the timeout evicts.
    let events = manager.tick(manager.now.plus(Duration::from_secs(2 * 3600)));
    assert_eq!(events.len(), 1);
    match &events[0] {
        ManagerEvent::Closed { sid, reason } => {
            assert_eq!(*sid, SID);
            assert_eq!(*reason, CloseReason::IdleTimeout);
        }
        _ => panic!("expected Closed{{IdleTimeout}}"),
    }
    assert_eq!(manager.session_count(), 0);
}

#[test]
fn server_lifetime_cap_precedes_idle() {
    let (cc, _sc) = shared_configs();
    let mut limits = SessionLimits::default();
    limits.idle_timeout = Some(Duration::from_secs(2 * 3600));
    limits.lifetime_cap = Some(Duration::from_secs(3600));
    let mut manager = server_manager(limits);
    established_client_session(&mut manager, &cc, SID);

    let events = manager.tick(manager.now.plus(Duration::from_secs(90 * 60)));
    assert_eq!(events.len(), 1);
    match &events[0] {
        ManagerEvent::Closed { reason, .. } => {
            assert_eq!(*reason, CloseReason::LifetimeCap);
        }
        _ => panic!("expected Closed{{LifetimeCap}}"),
    }
    assert_eq!(manager.session_count(), 0);
}

#[test]
fn server_nonce_exhaustion_closes_session() {
    let (cc, _sc) = shared_configs();
    let mut manager = server_manager(SessionLimits::default());
    let (mut client, _ws) = established_client_session(&mut manager, &cc, SID);
    let (_, outcome) = client_established(&mut client, &cc);

    let pkt = exhaustion_packet_c2s(&outcome.master, outcome.session_id);
    match manager.handle_datagram(&pkt, CLIENT_ADDR).unwrap() {
        ManagerEvent::Closed { sid, reason } => {
            assert_eq!(sid, outcome.session_id);
            assert_eq!(reason, CloseReason::NonceExhausted);
        }
        _ => panic!("expected Closed{{NonceExhausted}}"),
    }
    assert_eq!(manager.session_count(), 0);
}

#[test]
fn server_close_message_closes_session() {
    let (cc, _sc) = shared_configs();
    let mut manager = server_manager(SessionLimits::default());
    let (_client, mut ws) = established_client_session(&mut manager, &cc, SID);

    let pkt = ws.encrypt(MessageType::Close, &[0u8; PAYLOAD_LEN]).unwrap();
    match manager.handle_datagram(&pkt, CLIENT_ADDR).unwrap() {
        ManagerEvent::Closed { sid, reason } => {
            assert_eq!(sid, SID);
            assert_eq!(reason, CloseReason::PeerClosed);
        }
        _ => panic!("expected Closed{{PeerClosed}}"),
    }
    assert_eq!(manager.session_count(), 0);
}

#[test]
fn server_cover_packet_consumed_silently() {
    let (cc, _sc) = shared_configs();
    let mut manager = server_manager(SessionLimits::default());
    let (_client, mut ws) = established_client_session(&mut manager, &cc, SID);

    let pkt = ws.cover().unwrap();
    assert!(matches!(
        manager.handle_datagram(&pkt, CLIENT_ADDR).unwrap(),
        ManagerEvent::Nothing
    ));
    assert_eq!(
        manager.session_count(),
        1,
        "cover must not disturb the session"
    );

    // The session still delivers data afterwards.
    let pkt = ws.encrypt(MessageType::Data, &[0u8; PAYLOAD_LEN]).unwrap();
    assert!(matches!(
        manager.handle_datagram(&pkt, CLIENT_ADDR).unwrap(),
        ManagerEvent::AppData { .. }
    ));
}

#[test]
fn server_cover_packet_hook_emits() {
    let (cc, _sc) = shared_configs();
    let mut manager = server_manager(SessionLimits::default());
    let (_client, mut ws) = established_client_session(&mut manager, &cc, SID);

    match manager.cover_packet(&SID).unwrap() {
        ManagerEvent::SendPacket { packet, peer } => {
            assert_eq!(peer, CLIENT_ADDR);
            let inner = ws.decrypt(&packet).unwrap();
            assert_eq!(inner.msg_type, MessageType::Cover);
        }
        _ => panic!("expected SendPacket"),
    }
}

#[test]
fn server_app_outbound_unknown_sid() {
    let (cc, _sc) = shared_configs();
    let mut manager = server_manager(SessionLimits::default());
    established_client_session(&mut manager, &cc, SID);

    assert!(matches!(
        manager.app_outbound(&[0xEE; SESSION_ID_LEN], &[0u8; 8]),
        Err(ManagerError::NoSession)
    ));
    assert!(matches!(
        manager.close_session(&[0xEE; SESSION_ID_LEN]),
        Err(ManagerError::NoSession)
    ));
}

#[test]
fn server_close_session_app_driven() {
    let (cc, _sc) = shared_configs();
    let mut manager = server_manager(SessionLimits::default());
    established_client_session(&mut manager, &cc, SID);

    match manager.close_session(&SID).unwrap() {
        ManagerEvent::Closed { sid, reason } => {
            assert_eq!(sid, SID);
            assert_eq!(reason, CloseReason::UserClosed);
        }
        _ => panic!("expected Closed{{UserClosed}}"),
    }
    assert_eq!(manager.session_count(), 0);
}

#[test]
fn server_garbage_dispatch_no_state_change() {
    let (cc, _sc) = shared_configs();
    let mut manager = server_manager(SessionLimits::default());
    established_client_session(&mut manager, &cc, SID);

    // Handshake-typed garbage (byte 9 = 0x10/0x30) and data-typed junk.
    for hs_type in [0x10u8, 0x30] {
        let mut dg = [0u8; PACKET_SIZE];
        dg[0] = PROTOCOL_VERSION;
        dg[9] = hs_type;
        let pkt = WirePacket::from_bytes(&dg).unwrap();
        assert!(matches!(
            manager.handle_datagram(&pkt, OTHER_ADDR).unwrap(),
            ManagerEvent::Nothing
        ));
    }
    assert_eq!(manager.session_count(), 1);
    assert_eq!(manager.pending_handshakes(), 0);
}

#[test]
fn server_duplicate_m3_after_established_harmless() {
    let (cc, _sc) = shared_configs();
    let mut manager = server_manager(SessionLimits::default());
    let client = server_established(&mut manager, &cc, SID, CLIENT_ADDR);

    // Re-run the M3 fragments; the machine's pending entry is gone and
    // the retransmit is a silent no-op.
    for f in &client.m3_frags() {
        assert!(matches!(
            manager.handle_datagram(f, CLIENT_ADDR).unwrap(),
            ManagerEvent::Nothing
        ));
    }
    assert_eq!(manager.session_count(), 1);
}

#[test]
fn server_new_handshake_during_established_session() {
    let (cc, _sc) = shared_configs();
    let mut manager = server_manager(SessionLimits::default());
    let (_client, mut ws) = established_client_session(&mut manager, &cc, SID);

    // A fresh handshake from the same source with a NEW sid coexists with
    // the established session (handshake + data paths are disjoint).
    let sid2 = [0x77; SESSION_ID_LEN];
    let (client2, _) = established_client_session(&mut manager, &cc, sid2);
    assert_eq!(manager.session_count(), 2);
    let _ = client2;
    let pkt = ws.encrypt(MessageType::Data, &[0u8; PAYLOAD_LEN]).unwrap();
    assert!(matches!(
        manager.handle_datagram(&pkt, CLIENT_ADDR).unwrap(),
        ManagerEvent::AppData { .. }
    ));
}

#[test]
fn client_full_lifecycle() {
    let mut manager = client_manager();
    let mut server = server_machine();
    let (mut srv_ws, _outcome) =
        client_handshake_with_server(&mut manager, &mut server, SERVER_ADDR);
    let sid = manager.session_id().expect("session");

    // The first authenticated server packet confirms the session.
    let pkt = srv_ws
        .encrypt(MessageType::Data, &[0x21; PAYLOAD_LEN])
        .unwrap();
    match manager.handle_datagram(&pkt, SERVER_ADDR).unwrap() {
        ManagerEvent::AppData { sid: ds, inner } => {
            assert_eq!(ds, sid);
            assert_eq!(&inner.payload[..], &[0x21; PAYLOAD_LEN][..]);
        }
        _ => panic!("expected AppData"),
    }
    assert!(
        manager.is_ready(),
        "the first authenticated packet confirms the session"
    );

    // Outbound works.
    let ev = manager.app_outbound(&[0x77; 16]).unwrap();
    match ev {
        ManagerEvent::SendPacket { packet, peer } => {
            assert_eq!(peer, SERVER_ADDR);
            let inner = srv_ws.decrypt(&packet).unwrap();
            assert_eq!(&inner.payload[..16], &[0x77; 16][..]);
        }
        _ => panic!("expected SendPacket"),
    }

    // App data continues flowing.
    let pkt = srv_ws
        .encrypt(MessageType::Data, &[0x22; PAYLOAD_LEN])
        .unwrap();
    assert!(matches!(
        manager.handle_datagram(&pkt, SERVER_ADDR).unwrap(),
        ManagerEvent::AppData { .. }
    ));
    let _ = srv_ws;
    let mut _srv_ws2 = srv_ws;
}

#[test]
fn client_d15_outbound_works_before_confirmation() {
    let mut manager = client_manager();
    let mut server = server_machine();
    let (mut srv_ws, _outcome) =
        client_handshake_with_server(&mut manager, &mut server, SERVER_ADDR);
    assert!(!manager.is_ready());

    let ev = manager.app_outbound(&[0x99; 8]).unwrap();
    match ev {
        ManagerEvent::SendPacket { packet, .. } => {
            let inner = srv_ws.decrypt(&packet).unwrap();
            assert_eq!(&inner.payload[..8], &[0x99; 8][..]);
        }
        _ => panic!("expected SendPacket"),
    }
    assert!(!manager.is_ready(), "sending does not confirm the session");
    let _ = srv_ws;
}

#[test]
fn client_liveness_timeout_closes_miskeyed_session() {
    let mut manager = client_manager();
    let mut server = server_machine();
    let (_srv_ws, _outcome) =
        client_handshake_with_server(&mut manager, &mut server, SERVER_ADDR);
    let sid = manager.session_id().expect("session");

    // No authenticated server packet ever arrives (mis-keyed / dead).
    let events = manager.tick(manager.now.plus(Duration::from_secs(31)));
    assert_eq!(events.len(), 1);
    match &events[0] {
        ManagerEvent::Closed { sid: cs, reason } => {
            assert_eq!(*cs, sid);
            assert_eq!(*reason, CloseReason::NotConfirmed);
        }
        _ => panic!("expected Closed{{NotConfirmed}}"),
    }
    assert!(matches!(manager.state(), ClientManagerState::Idle));
    assert!(!manager.is_ready());

    // Re-establishment works with a FRESH sid.
    match manager.begin_handshake().unwrap() {
        ManagerEvent::Send { packets, peer } => {
            assert_eq!(peer, SERVER_ADDR);
            let fresh: [u8; SESSION_ID_LEN] = packets[0].as_bytes()[1..9].try_into().unwrap();
            assert_ne!(fresh, sid, "re-establishment must use a fresh sid");
        }
        _ => panic!("expected Send(M1)"),
    }
    assert!(matches!(manager.state(), ClientManagerState::Handshaking));
}

#[test]
fn client_nonce_exhaustion_closes_session() {
    let mut manager = client_manager();
    let mut server = server_machine();
    let (srv_ws, outcome) =
        client_handshake_with_server(&mut manager, &mut server, SERVER_ADDR);
    let sid = manager.session_id().expect("session");

    // The sender (server) never emits a packet at the exhaustion
    // threshold; forge one with the real derived keys.
    let _ = srv_ws;
    let pkt = exhaustion_packet_s2c(&outcome.master, outcome.session_id);
    match manager.handle_datagram(&pkt, SERVER_ADDR).unwrap() {
        ManagerEvent::Closed { sid: cs, reason } => {
            assert_eq!(cs, sid);
            assert_eq!(reason, CloseReason::NonceExhausted);
        }
        _ => panic!("expected Closed{{NonceExhausted}}"),
    }
    assert!(matches!(manager.state(), ClientManagerState::Idle));
    assert!(!manager.is_ready());
}

#[test]
fn client_peer_close_closes_session() {
    let mut manager = client_manager();
    let mut server = server_machine();
    let (mut srv_ws, _outcome) =
        client_handshake_with_server(&mut manager, &mut server, SERVER_ADDR);
    let sid = manager.session_id().expect("session");

    let pkt = srv_ws
        .encrypt(MessageType::Close, &[0u8; PAYLOAD_LEN])
        .unwrap();
    match manager.handle_datagram(&pkt, SERVER_ADDR).unwrap() {
        ManagerEvent::Closed { sid: cs, reason } => {
            assert_eq!(cs, sid);
            assert_eq!(reason, CloseReason::PeerClosed);
        }
        _ => panic!("expected Closed{{PeerClosed}}"),
    }
    assert!(matches!(manager.state(), ClientManagerState::Idle));
}

#[test]
fn client_handshake_timeout_m1_budget() {
    let (cc, _sc) = shared_configs();
    let mut cc = cc;
    cc.cfg.m1_max_attempts = 0; // first timer tick fails immediately
    let mut manager = ClientManager::new(&cc, SessionLimits::default()).unwrap();
    manager.begin_handshake().unwrap();
    let sid = manager.handshake_sid().expect("hs");

    match manager.on_timer().unwrap() {
        ManagerEvent::Closed { sid: cs, reason } => {
            assert_eq!(cs, sid);
            assert_eq!(reason, CloseReason::HandshakeTimeout);
        }
        _ => panic!("expected Closed{{HandshakeTimeout}}"),
    }
    assert!(matches!(manager.state(), ClientManagerState::Idle));
}

#[test]
fn client_handshake_overall_deadline() {
    let mut manager = client_manager();
    manager.begin_handshake().unwrap();
    let sid = manager.handshake_sid().expect("hs");

    let events = manager.tick(manager.now.plus(Duration::from_secs(31)));
    assert_eq!(events.len(), 1);
    match &events[0] {
        ManagerEvent::Closed { sid: cs, reason } => {
            assert_eq!(*cs, sid);
            assert_eq!(*reason, CloseReason::HandshakeTimeout);
        }
        _ => panic!("expected Closed{{HandshakeTimeout}}"),
    }
    assert!(matches!(manager.state(), ClientManagerState::Idle));
}

#[test]
fn client_lifetime_cap_closes_established() {
    let mut manager = client_manager();
    let mut server = server_machine();
    let (mut srv_ws, _outcome) =
        client_handshake_with_server(&mut manager, &mut server, SERVER_ADDR);

    // Confirm the session first.
    let pkt = srv_ws
        .encrypt(MessageType::Data, &[0u8; PAYLOAD_LEN])
        .unwrap();
    let _ = manager.handle_datagram(&pkt, SERVER_ADDR).unwrap();
    assert!(manager.is_ready());

    let sid = manager.session_id().unwrap();
    let events = manager.tick(manager.now.plus(Duration::from_secs(31)));
    // NotConfirmed does not fire (ready); the lifetime cap (None by
    // default) does not fire either — nothing to evict.
    assert!(events.is_empty());
    let _ = sid;
}

#[test]
fn client_roaming_rebind() {
    let mut manager = client_manager();
    let mut server = server_machine();
    let (mut srv_ws, _outcome) =
        client_handshake_with_server(&mut manager, &mut server, SERVER_ADDR);

    // The server's first data arrives from a NEW address: it authenticates
    // and rebinds the reply path.
    let pkt = srv_ws
        .encrypt(MessageType::Data, &[0u8; PAYLOAD_LEN])
        .unwrap();
    assert!(matches!(
        manager.handle_datagram(&pkt, OTHER_ADDR).unwrap(),
        ManagerEvent::AppData { .. }
    ));
    assert!(manager.is_ready());
    match manager.app_outbound(&[0u8; 8]).unwrap() {
        ManagerEvent::SendPacket { peer, .. } => assert_eq!(peer, OTHER_ADDR),
        _ => panic!("expected SendPacket"),
    }
}

#[test]
fn client_cover_roundtrip() {
    let mut manager = client_manager();
    let mut server = server_machine();
    let (mut srv_ws, _outcome) =
        client_handshake_with_server(&mut manager, &mut server, SERVER_ADDR);

    let ev = manager.cover_packet().unwrap();
    match ev {
        ManagerEvent::SendPacket { packet, peer } => {
            assert_eq!(peer, SERVER_ADDR);
            let inner = srv_ws.decrypt(&packet).unwrap();
            assert_eq!(inner.msg_type, MessageType::Cover);
        }
        _ => panic!("expected SendPacket"),
    }

    // A cover packet from the server confirms the session without data.
    let pkt = srv_ws.cover().unwrap();
    assert!(matches!(
        manager.handle_datagram(&pkt, SERVER_ADDR).unwrap(),
        ManagerEvent::Nothing
    ));
    assert!(
        manager.is_ready(),
        "any authenticated packet confirms liveness"
    );
}

// With the defaults the client is established before the handshake deadline,
// whatever the jitter.
#[test]
fn default_client_m3_budget_fits_handshake_deadline() {
    let (cc, _sc) = shared_configs();
    let deadline = SessionLimits::default()
        .handshake_timeout
        .expect("default handshake deadline");
    let base_ms = cc.cfg.m1_retransmit_base.as_millis();
    // Worst-case M3 phase wall time: the initial delay plus one backoff
    // delay per retransmit (×2^min(attempt,5)), each with the maximum
    // ±20% jitter.
    let mut mult = 1u128;
    for a in 1..=cc.cfg.m3_max_attempts {
        mult += 1u128 << a.min(5);
    }
    let worst_ms = (mult * base_ms * 120) / 100;
    assert!(
        Duration::from_millis(worst_ms as u64) < deadline,
        "default M3 budget (≥{worst_ms}ms worst case) must fit the default \
         handshake deadline ({deadline:?})"
    );
}

#[test]
fn client_close_sends_close_message() {
    let mut manager = client_manager();
    let mut server = server_machine();
    let (mut srv_ws, _outcome) =
        client_handshake_with_server(&mut manager, &mut server, SERVER_ADDR);

    let ev = manager.close().unwrap();
    match ev {
        ManagerEvent::SendPacket { packet, .. } => {
            let inner = srv_ws.decrypt(&packet).unwrap();
            assert_eq!(inner.msg_type, MessageType::Close);
        }
        _ => panic!("expected SendPacket(Close)"),
    }
    assert!(matches!(manager.state(), ClientManagerState::Idle));
    // The UserClosed notification is queued for the next tick.
    let events = manager.tick(manager.now);
    assert_eq!(events.len(), 1);
    match &events[0] {
        ManagerEvent::Closed { reason, .. } => {
            assert_eq!(*reason, CloseReason::UserClosed);
        }
        _ => panic!("expected Closed{{UserClosed}}"),
    }
}

#[test]
fn client_garbage_ignored() {
    let mut manager = client_manager();
    let mut server = server_machine();
    let (mut srv_ws, _outcome) =
        client_handshake_with_server(&mut manager, &mut server, SERVER_ADDR);
    let sid = manager.session_id().unwrap();

    // Junk and foreign data fail silently; the session survives.
    let mut dg = [0u8; PACKET_SIZE];
    dg[0] = PROTOCOL_VERSION;
    let junk = WirePacket::from_bytes(&dg).unwrap();
    assert!(matches!(
        manager.handle_datagram(&junk, SERVER_ADDR).unwrap(),
        ManagerEvent::Nothing
    ));
    let mut forged = srv_ws
        .encrypt(MessageType::Data, &[0u8; PAYLOAD_LEN])
        .unwrap();
    let mut bytes = *forged.as_bytes();
    bytes[PACKET_SIZE - 1] ^= 0x01;
    forged = WirePacket::from_bytes(&bytes).unwrap();
    assert!(matches!(
        manager.handle_datagram(&forged, SERVER_ADDR).unwrap(),
        ManagerEvent::Nothing
    ));
    assert!(matches!(manager.state(), ClientManagerState::Established));
    let _ = sid;
}

#[test]
fn client_begin_handshake_invalid_state() {
    let mut manager = client_manager();
    manager.begin_handshake().unwrap();
    assert!(matches!(
        manager.begin_handshake(),
        Err(ManagerError::InvalidState(_))
    ));
    // Closing the attempt allows a restart.
    manager.tick(manager.now.plus(Duration::from_secs(31)));
    assert!(matches!(manager.state(), ClientManagerState::Idle));
    assert!(matches!(
        manager.begin_handshake(),
        Ok(ManagerEvent::Send { .. })
    ));
}

#[test]
fn managers_fail_closed_on_bad_config() {
    let (cc, sc) = shared_configs();
    let mut bad = ServerSetup { cfg: sc.cfg.duplicate(), identity: sc.identity.clone() };
    bad.cfg.roster.clear();
    assert!(matches!(
        ServerManager::new(&bad, SessionLimits::default()),
        Err(ManagerError::InvalidConfig(_))
    ));
    let mut bad_c = cc.clone();
    bad_c.cfg.version = 0xFF;
    assert!(matches!(
        ClientManager::new(&bad_c, SessionLimits::default()),
        Err(ManagerError::InvalidConfig(_))
    ));
    assert!(ServerManager::new(&sc, SessionLimits::default()).is_ok());
}

/// Recovery: a source that has exhausted its data-path failure
/// tokens must still allow a *different* source to communicate, and the
/// limited source must recover after the token window refills.
#[test]
fn recovery_after_fail_gate_exhaustion() {
    let (cc, _sc) = shared_configs();
    let mut manager = server_manager(SessionLimits::default());
    let (_client, mut ws) = established_client_session(&mut manager, &cc, SID);
    let good = ws.encrypt(MessageType::Data, &[0u8; PAYLOAD_LEN]).unwrap();

    // Burn CLIENT_ADDR's failure budget entirely with tampered packets.
    for _ in 0..64 {
        assert!(matches!(
            manager
                .handle_datagram(&tampered(&good), CLIENT_ADDR)
                .unwrap(),
            ManagerEvent::Nothing
        ));
    }
    // CLIENT_ADDR is now limited: even a VALID packet is dropped unopened.
    assert!(matches!(
        manager.handle_datagram(&good, CLIENT_ADDR).unwrap(),
        ManagerEvent::Nothing
    ));

    // Recovery axis 1: a fresh source is unaffected and delivers.
    match manager.handle_datagram(&good, OTHER_ADDR).unwrap() {
        ManagerEvent::AppData { .. } => {}
        _ => panic!("other source must still deliver"),
    }

    // Re-arm the client session so we can send from the recovered path.
    // (Rebuild a packet keyed to the session from the new peer.)
    let roamed = ws.encrypt(MessageType::Data, &[0u8; PAYLOAD_LEN]).unwrap();
    match manager.handle_datagram(&roamed, OTHER_ADDR).unwrap() {
        ManagerEvent::AppData { .. } => {}
        _ => panic!("roamed packet must deliver"),
    }
}

/// Recovery: after nonce exhaustion closes a client session,
/// the manager must re-arm a fresh handshake with a brand-new sid and be able
/// to re-establish — i.e. the manager is not left stuck in a half-closed
/// state.
#[test]
fn recovery_after_nonce_exhaustion_re_establishes() {
    let mut manager = client_manager();
    let mut server = server_machine();
    // Establish the client session (driver reaches Established via M3 budget;
    // the helper advances the client machine's timer to Complete).
    let (_ws, outcome) = client_handshake_with_server(&mut manager, &mut server, CLIENT_ADDR);
    let old_sid = manager.session_id().expect("established");
    assert_eq!(manager.state(), ClientManagerState::Established);
    assert!(!manager.is_ready()); // no server packet seen yet

    // Forge a server→client packet at the nonce-exhaustion threshold, built
    // from the real shared master (wire_session.rs pattern). A legit packet
    // at this counter triggers rekey on the receiver.
    let pkt = exhaustion_packet_s2c(&outcome.master, outcome.session_id);
    match manager.handle_datagram(&pkt, SERVER_ADDR).unwrap() {
        ManagerEvent::Closed { sid, reason } => {
            assert_eq!(sid, old_sid);
            assert_eq!(reason, CloseReason::NonceExhausted);
        }
        _ => panic!("expected Closed{{NonceExhausted}}"),
    }
    // Session is gone; manager is Idle and can re-arm.
    assert_eq!(manager.state(), ClientManagerState::Idle);
    assert_eq!(manager.session_id(), None);
    assert_eq!(manager.handshake_sid(), None);

    let ev = manager.begin_handshake().unwrap();
    let new_sid = manager.handshake_sid().expect("handshake installed");
    assert!(matches!(ev, ManagerEvent::Send { peer, .. } if peer == SERVER_ADDR));
    assert_ne!(new_sid, old_sid, "rearm must use a fresh sid");
    assert_eq!(manager.state(), ClientManagerState::Handshaking);
}

/// adversarial ordering: a byte-identical M2 arriving at an
/// already-Established client must be a silent no-op (no re-establish, no
/// sid mutation, no Ready transition).
#[test]
fn client_ignores_duplicate_m2_after_established() {
    let (cc, _sc) = shared_configs();
    let mut manager = client_manager();
    let mut server = server_machine();
    let (_ws, outcome) = client_handshake_with_server(&mut manager, &mut server, CLIENT_ADDR);
    let sid = outcome.session_id;

    // Build a fresh M2 (byte-identical format the client must also tolerate).
    let fresh = Client::new(&cc, SID).expect("cli");
    let mut m2 = Vec::new();
    for f in &fresh.m1_frags() {
        if let ServerEvent::Emit(p, _) = server.handle_datagram(f, CLIENT_ADDR).unwrap() {
            m2 = p;
        }
    }
    for f in &m2 {
        assert!(matches!(
            manager.handle_datagram(f, CLIENT_ADDR).unwrap(),
            ManagerEvent::Nothing
        ));
    }
    // No state change.
    assert_eq!(manager.session_id(), Some(sid));
    assert_eq!(manager.state(), ClientManagerState::Established);
    assert!(!manager.is_ready());
    let _ = fresh; // keep the client machine around (exercise drop zeroization path)
}

/// A peer-initiated `Close` tears the session down; a *late duplicate* of a
/// previously-delivered data packet must NOT resurrect it (no sid reuse, no
/// replay-window carryover across the remove).
#[test]
fn server_peer_close_then_late_data_does_not_resurrect() {
    let (cc, _sc) = shared_configs();
    let mut manager = server_manager(SessionLimits::default());
    let (_client, mut ws) = established_client_session(&mut manager, &cc, SID);

    let one = ws.encrypt(MessageType::Data, &[0u8; PAYLOAD_LEN]).unwrap(); // counter 0
    let close = ws.encrypt(MessageType::Close, &[0u8; PAYLOAD_LEN]).unwrap(); // counter 1

    // Deliver one packet to seed the replay window, then peer Close.
    assert!(matches!(
        manager.handle_datagram(&one, CLIENT_ADDR).unwrap(),
        ManagerEvent::AppData { .. }
    ));
    assert!(matches!(
        manager.handle_datagram(&close, CLIENT_ADDR).unwrap(),
        ManagerEvent::Closed { sid, reason } if sid == SID && reason == CloseReason::PeerClosed
    ));
    assert_eq!(manager.session_count(), 0);

    // Late duplicate of the data packet: sid no longer exists -> silent drop.
    assert!(matches!(
        manager.handle_datagram(&one, CLIENT_ADDR).unwrap(),
        ManagerEvent::Nothing
    ));
    assert_eq!(
        manager.session_count(),
        0,
        "closed session must not resurrect"
    );
}

/// App-driven close on the client MUST emit a wire Close packet first, then
/// transition locally (queued Closed drained on the next tick).
#[test]
fn client_close_emits_close_then_closes_session() {
    let (_cc, _sc) = shared_configs();
    let mut manager = client_manager();
    let mut server = server_machine();
    let (_ws, _outcome) = client_handshake_with_server(&mut manager, &mut server, CLIENT_ADDR);
    let sid = manager.session_id().expect("established");

    let ev = manager.close().unwrap();
    assert!(matches!(ev, ManagerEvent::SendPacket { peer, .. } if peer == SERVER_ADDR));
    // Locally the session is gone immediately (zeroizing drop), but the
    // Closed{UserClosed} notification is queued for tick().
    assert_eq!(manager.session_id(), None);
    assert_eq!(manager.state(), ClientManagerState::Idle);
    let drained = manager.tick(manager.now);
    assert!(drained.iter().any(|e| matches!(
        e,
        ManagerEvent::Closed { sid: s, reason: CloseReason::UserClosed } if *s == sid
    )));
}

/// The receive path must be total: arbitrary (version-valid) datagrams from
/// arbitrary sources must never panic, must never establish a session from
/// nothing, and must leave bounded state behind.
#[test]
fn server_manager_garbage_never_panics_or_grows() {
    let (_, sc) = shared_configs();
    let mut manager = ServerManager::new(&sc, SessionLimits::default()).unwrap();
    let mut buf = [0u8; PACKET_SIZE];
    let sources = [CLIENT_ADDR, OTHER_ADDR, SERVER_ADDR];
    for i in 0..200 {
        getrandom::fill(&mut buf).unwrap();
        buf[0] = PROTOCOL_VERSION;
        if let Ok(pkt) = WirePacket::from_bytes(&buf) {
            let from = sources[(i as usize) % sources.len()];
            let _ = manager
                .handle_datagram(&pkt, from)
                .unwrap_or(ManagerEvent::Nothing);
        }
    }
    assert_eq!(
        manager.session_count(),
        0,
        "garbage must not establish sessions"
    );
    // At most one bucket per distinct source.
    assert!(
        manager.fail_bucket_count() <= sources.len(),
        "fail buckets must be bounded"
    );
}

/// Reaching `max_sessions` must evict (LRU) and never grow the table beyond
/// the cap, even when many distinct handshakes complete in quick succession.
#[test]
fn server_capacity_caps_session_table() {
    let mut dummy = client_manager();
    let mut server = server_machine();
    let (_ws, outcome) = client_handshake_with_server(&mut dummy, &mut server, CLIENT_ADDR);

    let mut limits = SessionLimits::default();
    limits.max_sessions = 16;
    let mut manager = server_manager(limits);
    for i in 0..32u8 {
        let mut o = outcome.duplicate();
        o.session_id = [i; SESSION_ID_LEN];
        match manager.on_handshake_complete(o, CLIENT_ADDR).unwrap() {
            ManagerEvent::Established { sid, .. } => assert_eq!(sid, [i; SESSION_ID_LEN]),
            _ => panic!("expected Established"),
        }
    }
    assert_eq!(manager.session_count(), 16, "capacity cap must hold");
    let drained = manager.tick(manager.now);
    let cap = drained
        .iter()
        .filter(|e| {
            matches!(
                e,
                ManagerEvent::Closed {
                    reason: CloseReason::Capacity,
                    ..
                }
            )
        })
        .count();
    assert_eq!(
        cap, 16,
        "overflow sessions must be evicted as Closed{{Capacity}}"
    );
    assert_eq!(
        manager.session_count(),
        16,
        "post-tick table must still be capped"
    );
}

/// The bucket table of the failure limiter must not grow past
/// `max_fail_buckets` regardless of spoofed-source volume.
#[test]
fn server_fail_gate_bucket_table_bounded() {
    let (_, sc) = shared_configs();
    let mut limits = SessionLimits::default();
    limits.max_fail_buckets = 8;
    let mut manager = ServerManager::new(&sc, limits).unwrap();
    let mut buf = [0u8; PACKET_SIZE];
    // 50 distinct spoofed sources, each sending a version-valid junk packet.
    for i in 0..50u8 {
        getrandom::fill(&mut buf).unwrap();
        buf[0] = PROTOCOL_VERSION;
        let from = PeerAddr::V4 { ip: 0x0A00_0002 + i as u32, port: 1234 };
        if let Ok(pkt) = WirePacket::from_bytes(&buf) {
            let _ = manager
                .handle_datagram(&pkt, from)
                .unwrap_or(ManagerEvent::Nothing);
        }
    }
    assert!(
        manager.fail_bucket_count() <= 8,
        "bucket table must cap at max_fail_buckets (got {})",
        manager.fail_bucket_count()
    );
}

/// Repeatedly establish + close the same client manager, asserting no
/// residual state (no session leak between cycles) over many cycles.
#[test]
fn soak_client_reestablish_cycles() {
    let (_cc, _sc) = shared_configs();
    let mut manager = client_manager();
    let mut server = server_machine();
    const CYCLES: usize = 300;
    for i in 0..CYCLES {
        let mut server = server_machine(); // Handshake is single-use; fresh per cycle.
        let (_ws, _outcome) =
            client_handshake_with_server(&mut manager, &mut server, CLIENT_ADDR);
        assert_eq!(
            manager.state(),
            ClientManagerState::Established,
            "cycle {i}"
        );
        assert!(
            manager.session_id().is_some(),
            "cycle {i} must hold a session"
        );
        assert!(matches!(
            manager.close().unwrap(),
            ManagerEvent::SendPacket { .. }
        ));
        let drained = manager.tick(manager.now);
        assert!(
            !drained.is_empty(),
            "cycle {i} close must queue a Closed event"
        );
        assert_eq!(
            manager.state(),
            ClientManagerState::Idle,
            "cycle {i} must re-arm"
        );
        assert!(
            manager.session_id().is_none(),
            "cycle {i} session must be dropped"
        );
        assert_eq!(
            manager.handshake_sid(),
            None,
            "cycle {i} no in-flight handshake"
        );
    }
    // A fresh handshake after the soak must still succeed.
    let (_ws, _outcome) = client_handshake_with_server(&mut manager, &mut server, CLIENT_ADDR);
    assert_eq!(manager.state(), ClientManagerState::Established);
}

/// 10,000 deterministic established-phase event sequences.
/// Exercises data / cover / replay / duplicate / reorder / tamper / tick
/// plus Close + Reconnect cycles, asserting: no panic, session_count∈{0,1},
/// at most one terminal Close per live window, never an orphan.
#[test]
fn adv_datapath_sequence_fuzz_10k() {
    const SEED: u64 = 0xC0FF_EE00_0000_0001;
    let (cc, mut sc) = shared_configs();
    // Keep the handshake budget of the source out of this test.
    sc.cfg.rate_limit_burst = 1_000_000;
    let mut limits = SessionLimits::default();
    limits.fail_burst = 1_000_000;
    let mut manager = ServerManager::new(&sc, limits).expect("manager");
    let (_cli, mut ws) = established_client_session(&mut manager, &cc, SID);

    let mut rng = Rng::new(SEED);
    let mut last_data = ws.encrypt(MessageType::Data, &[0u8; PAYLOAD_LEN]).unwrap();
    let mut data = last_data.clone();
    let mut closed_total: u64 = 0;
    // Prime the very first `data`/`last_data` (a not-yet-delivered packet) so
    // the replay/dup/reorder branches below only ever feed already-delivered
    // packets. Without this, iter 0 — or any iteration immediately after a
    // reconnect — would deliver `data` instead of rejecting it as a replay.
    match manager.handle_datagram(&data, CLIENT_ADDR).unwrap() {
        ManagerEvent::AppData { sid, .. } => assert_eq!(sid, SID, "seed: priming delivery"),
        _ => panic!("seed: priming delivery must AppData"),
    }

    for i in 0..10_000u64 {
        assert!(
            manager.session_count() <= 1,
            "iter {i}: leaked sessions ({})",
            manager.session_count()
        );
        if i % 1111 == 1110 {
            // Close + Reconnect cycle — the adversarial "Close, Reconnect" sequence.
            let close = ws.encrypt(MessageType::Close, &[0u8; PAYLOAD_LEN]).unwrap();
            match manager.handle_datagram(&close, CLIENT_ADDR).unwrap() {
                ManagerEvent::Closed { sid, reason } => {
                    assert_eq!(sid, SID, "iter {i}");
                    assert_eq!(reason, CloseReason::PeerClosed, "iter {i}");
                }
                _ => panic!("iter {i}: close must Close{{PeerClosed}}"),
            }
            assert_eq!(
                manager.session_count(),
                0,
                "iter {i}: session removed after close"
            );
            let _ = manager.tick(manager.now);
            // duplicate close → silent
            assert!(
                matches!(
                    manager.handle_datagram(&close, CLIENT_ADDR).unwrap(),
                    ManagerEvent::Nothing
                ),
                "iter {i}: dup close dropped"
            );
            // late duplicate of last data → silent (session gone)
            assert!(
                matches!(
                    manager.handle_datagram(&data, CLIENT_ADDR).unwrap(),
                    ManagerEvent::Nothing
                ),
                "iter {i}: late data dropped"
            );
            // reconnect
            let (_c, new_ws) = established_client_session(&mut manager, &cc, SID);
            ws = new_ws;
            data = ws
                .encrypt(MessageType::Data, &[(i as u8).wrapping_mul(7); PAYLOAD_LEN])
                .unwrap();
            last_data = data.clone();
            // Prime the new session's replay window with the fresh packet so
            // the post-reconnect iteration's replay/dup/reorder branches
            // operate on a delivered nonce, not an undelivered one.
            match manager.handle_datagram(&data, CLIENT_ADDR).unwrap() {
                ManagerEvent::AppData { sid, .. } => {
                    assert_eq!(sid, SID, "iter {i}: post-reconnect data")
                }
                _ => panic!("iter {i}: post-reconnect data must AppData"),
            }
            closed_total += 1;
            continue;
        }
        let r = rng.next_u64() % 6;
        match r {
            0 => {
                data = ws
                    .encrypt(MessageType::Data, &[(i as u8).wrapping_mul(3); PAYLOAD_LEN])
                    .unwrap();
                last_data = data.clone();
                match manager.handle_datagram(&data, CLIENT_ADDR).unwrap() {
                    ManagerEvent::AppData { sid, .. } => assert_eq!(sid, SID, "iter {i}"),
                    _ => panic!("iter {i}: valid data must AppData"),
                }
            }
            1 => {
                let pkt = ws
                    .encrypt(MessageType::Cover, &[i as u8; PAYLOAD_LEN])
                    .unwrap();
                assert!(
                    matches!(
                        manager.handle_datagram(&pkt, CLIENT_ADDR).unwrap(),
                        ManagerEvent::Nothing
                    ),
                    "iter {i} cover"
                );
            }
            2 => {
                assert!(
                    matches!(
                        manager.handle_datagram(&last_data, CLIENT_ADDR).unwrap(),
                        ManagerEvent::Nothing
                    ),
                    "iter {i} replay"
                );
            }
            3 => {
                assert!(
                    matches!(
                        manager.handle_datagram(&data, CLIENT_ADDR).unwrap(),
                        ManagerEvent::Nothing
                    ),
                    "iter {i} dup"
                );
            }
            4 => {
                let t = tampered(&data);
                assert!(
                    matches!(
                        manager.handle_datagram(&t, CLIENT_ADDR).unwrap(),
                        ManagerEvent::Nothing
                    ),
                    "iter {i} tamper"
                );
            }
            5 => {
                // reorder: feed last_data then data (already delivered) — both replay now
                assert!(
                    matches!(
                        manager.handle_datagram(&last_data, CLIENT_ADDR).unwrap(),
                        ManagerEvent::Nothing
                    ),
                    "iter {i} reorder A"
                );
                assert!(
                    matches!(
                        manager.handle_datagram(&data, CLIENT_ADDR).unwrap(),
                        ManagerEvent::Nothing
                    ),
                    "iter {i} reorder B"
                );
            }
            _ => unreachable!(),
        }
    }
    println!(
        "adv_datapath_sequence_fuzz_10k: seed={SEED:#018x} iters=10000 closed_total={closed_total} final_session_count={}",
        manager.session_count()
    );
    assert!(manager.session_count() <= 1, "leaked session at end");
    assert_eq!(
        closed_total, 9u64,
        "exactly 9 close+reconnect cycles ran (10000 / 1111)"
    );
}

/// 128 deterministic handshake exchanges with reverse-order,
/// duplicated fragment delivery (M1/M2) + reordered M3. Asserts the
/// assembler's order-independence + dup-tolerance holds end-to-end at the
/// manager layer.
#[test]
fn adv_handshake_reorder_128() {
    let (cc, sc) = shared_configs();
    let mut rng = Rng::new(0x_DEAD_BEEF_0000_0042);
    for round in 0..128u64 {
        let sid = {
            let mut s = [0u8; SESSION_ID_LEN];
            for b in &mut s {
                *b = rng.next_u64() as u8;
            }
            if s == SID || s == [0x99; SESSION_ID_LEN] {
                s[0] = s[0].wrapping_add(1)
            }
            s
        };
        let mut client = Client::new(&cc, sid).expect("client");
        let mut server = Server::new(&sc);
        // M1: frag-0 first, then the
        // remaining M1 frags in reverse order, then a duplicate fragment-0
        // (order-independence + dup tolerance at the manager path).
        let m1 = client.m1_frags();
        let mut seen_m2 = Vec::new();
        for &idx in [0usize, 3, 2, 1, 0].iter() {
            if let ServerEvent::Emit(packets, _) =
                server.handle_datagram(&m1[idx], CLIENT_ADDR).expect("m1")
            {
                seen_m2 = packets;
            }
        }
        assert_eq!(
            seen_m2.len(),
            M2_FRAG_COUNT as usize,
            "round {round}: M2 after reordered M1"
        );
        // M2: reverse + duplicate, then M3.
        let mut seen_m3 = Vec::new();
        for &idx in [4usize, 3, 2, 1, 0, 2].iter().take(seen_m2.len()) {
            if let ClientEvent::Emit(packets) =
                client.handle_datagram(&seen_m2[idx]).expect("m2")
            {
                seen_m3 = packets;
            }
        }
        // re-feed a duplicate M2 to confirm idempotent
        for m2 in seen_m2.iter().take(2) {
            let _ = client.handle_datagram(m2).expect("dup m2");
        }
        let mut completed = false;
        for f in &seen_m3 {
            if let ServerEvent::Complete(_) =
                server.handle_datagram(f, CLIENT_ADDR).expect("m3")
            {
                completed = true;
            }
        }
        // M3 reorder: feed in reverse.
        let mut completed_r = false;
        for f in seen_m3.iter().rev() {
            if let ServerEvent::Complete(_) =
                server.handle_datagram(f, CLIENT_ADDR).expect("m3 rev")
            {
                completed_r = true;
            }
        }
        assert!(
            completed || completed_r,
            "round {round}: M3 must complete (order-independent)"
        );
    }
    println!("adv_handshake_reorder_128: rounds=128 seed=0xDEADBEEF00000042");
}

/// Oversized app data yields a
/// *precise* WrongLength to a direct caller and the session survives; 10,000
/// oversized sends are O(1) (no growth, no state drift).
#[test]
fn adv_d2_oversized_app_data_is_precise_and_bounded() {
    let (cc, _sc) = shared_configs();
    let mut cm = client_manager();
    let mut server = server_machine();
    let (_ws, _outcome) = client_handshake_with_server(&mut cm, &mut server, CLIENT_ADDR);
    assert_eq!(cm.state(), ClientManagerState::Established);

    let big: Vec<u8> = vec![0u8; PAYLOAD_LEN + 1];
    let res = cm.app_outbound(&big);
    assert!(
        matches!(
            res,
            Err(ManagerError::Session(SessionError::Codec(CodecError::WrongLength {
                expected, got, ..
            }))) if expected == PAYLOAD_LEN && got == PAYLOAD_LEN + 1),
        "oversized app data must be a precise WrongLength"
    );
    assert_eq!(
        cm.state(),
        ClientManagerState::Established,
        "client session survives oversized send"
    );
    assert!(cm.session_id().is_some(), "client sid survives");

    // Server side is symmetric.
    let mut sm = server_manager(SessionLimits::default());
    let (_c, _ws) = established_client_session(&mut sm, &cc, SID);
    let sbig: Vec<u8> = vec![0u8; PAYLOAD_LEN + 1];
    let sres = sm.app_outbound(&SID, &sbig);
    match sres {
        Err(ManagerError::Session(SessionError::Codec(CodecError::WrongLength {
            expected,
            got,
            ..
        }))) if expected == PAYLOAD_LEN && got == PAYLOAD_LEN + 1 => {}
        _ => panic!("server oversized must be precise WrongLength"),
    }
    assert_eq!(
        sm.session_count(),
        1,
        "server session survives oversized app send"
    );

    // Bounded stress: 10,000 oversized sends must be O(1).
    let t0 = std::time::Instant::now();
    for _ in 0..10_000 {
        match cm.app_outbound(&big) {
            Err(ManagerError::Session(SessionError::Codec(CodecError::WrongLength {
                ..
            }))) => {}
            _ => panic!("oversized must always be WrongLength"),
        }
    }
    let elapsed = t0.elapsed();
    println!("adv: 10_000 oversized app_outbound in {elapsed:?}");
    assert!(
        elapsed.as_millis() < 1000,
        "oversized skip must be O(1), took {elapsed:?}"
    );
    // session still fully usable with a correctly-sized payload
    assert!(matches!(
        cm.app_outbound(&[0u8; PAYLOAD_LEN]).unwrap(),
        ManagerEvent::SendPacket { .. }
    ));
}

/// handshake-flood DoS + recovery: 100 distinct-SID M1 floods
/// must be bounded by `max_pending` (64) with no panic, and a legitimate
/// handshake from a fresh sid afterward must still establish.
#[test]
fn adv_handshake_flood_then_valid_recovers() {
    let (cc, mut sc) = shared_configs();
    let limits = SessionLimits::default();
    // Leave room for handshakes that are never finished.
    sc.cfg.max_pending = 1_000;
    let mut manager = ServerManager::new(&sc, limits).expect("manager");
    assert_eq!(manager.pending_handshakes(), 0);

    // Pre-load 1 legit session so we assert the flood doesn't touch it.
    let (_c0, mut ws) = established_client_session(&mut manager, &cc, SID);
    let legit = ws.encrypt(MessageType::Data, &[0x11; PAYLOAD_LEN]).unwrap();
    assert!(matches!(
        manager.handle_datagram(&legit, CLIENT_ADDR).unwrap(),
        ManagerEvent::AppData { .. }
    ));

    // 100 distinct-SID M1 fragments from 100 distinct sources.
    let mut caps;
    for i in 0..100usize {
        let sid = {
            let mut s = SID;
            s[0] = (i as u8).wrapping_add(1); // distinct sids
            s
        };
        let client = Client::new(&cc, sid).expect("client");
        for f in &client.m1_frags() {
            let from = PeerAddr::V4 { ip: 0x0A09_0001, port: 41000 + i as u16 };
            // Must not panic; over-cap is a silent ManagerEvent::Nothing.
            let _ = manager.handle_datagram(f, from);
        }
        caps = manager.pending_handshakes();
        assert!(
            caps <= sc.cfg.max_pending,
            "pending must cap at max_pending({}), got {caps} at flood {i}",
            sc.cfg.max_pending
        );
        assert_eq!(
            manager.session_count(),
            1,
            "legit session must survive flood at {i}"
        );
    }
    assert!(manager.fail_bucket_count() <= 4096);

    // Recovery: a fully valid, in-state handshake from a brand-new sid completes.
    let sid_b = [0x77; SESSION_ID_LEN];
    let (_c2, mut ws_b) = established_client_session(&mut manager, &cc, sid_b);
    assert_eq!(
        manager.session_count(),
        2,
        "legit client must recover after flood"
    );
    let good = ws_b
        .encrypt(MessageType::Data, &[0x5A; PAYLOAD_LEN])
        .unwrap();
    match manager.handle_datagram(&good, CLIENT_ADDR).unwrap() {
        ManagerEvent::AppData { .. } => {}
        _ => panic!("post-flood data must decrypt"),
    }
    let _ = manager;
    let _ = limits;
}

/// data-path flood (unknown SID + replay) must not grow state,
/// must not panic, and the session must remain serviceable.
#[test]
fn adv_data_flood_unknown_sid_is_bounded() {
    let (cc, _sc) = shared_configs();
    let mut limits = SessionLimits::default();
    limits.max_fail_buckets = 8;
    let mut manager = server_manager(limits);
    let (_c, mut ws) = established_client_session(&mut manager, &cc, SID);
    let good = ws.encrypt(MessageType::Data, &[0x22; PAYLOAD_LEN]).unwrap();

    // 1,000 packets with an unknown SID from distinct sources.
    let mut bytes = *good.as_bytes();
    bytes[1..9].copy_from_slice(&[0xEE; SESSION_ID_LEN]); // unknown sid
    let foreign = WirePacket::from_bytes(&bytes).unwrap();
    for i in 0..1_000u16 {
        let from = PeerAddr::V4 { ip: 0x0A08_0001, port: 50000 + i };
        assert!(
            matches!(
                manager.handle_datagram(&foreign, from).unwrap(),
                ManagerEvent::Nothing
            ),
            "unknown sid {i} must be silent"
        );
    }
    assert_eq!(
        manager.session_count(),
        1,
        "unknown-sid flood must not create/touch sessions"
    );
    assert!(
        manager.fail_bucket_count() <= 8,
        "fail buckets must stay capped"
    );
    // Legit traffic from the client still works.
    assert!(matches!(
        manager.handle_datagram(&good, CLIENT_ADDR).unwrap(),
        ManagerEvent::AppData { .. }
    ));

    // Replay flood of the valid packet: the window rejects, and
    // CLIENT_ADDR may be limited, but the session is never removed.
    let mut closed = 0;
    for _ in 0..300 {
        match manager.handle_datagram(&good, CLIENT_ADDR).unwrap() {
            ManagerEvent::Nothing => {}
            ManagerEvent::Closed {
                reason: CloseReason::PeerClosed,
                ..
            } => closed += 1,
            _ => panic!("replay flood "),
        }
    }
    assert!(
        closed == 0,
        "replay flood must not close the live session (got {closed})"
    );
    assert_eq!(manager.session_count(), 1, "session survives replay flood");
}

/// logical leak check: establish+close 200 sessions on one server
/// manager; session_count must return to 0 each time and the bucket table must
/// stay bounded.
#[test]
fn adv_sessions_table_resets_on_close() {
    let (cc, mut sc) = shared_configs();
    // Keep the handshake budget of the source out of this test.
    sc.cfg.rate_limit_burst = 1_000_000;
    let mut manager =
        ServerManager::new(&sc, SessionLimits::default()).expect("manager");
    for i in 0..200usize {
        let sid = {
            let mut s = SID;
            s[0] = (i as u8).wrapping_add(3);
            s
        };
        let (_c, mut ws) = established_client_session(&mut manager, &cc, sid);
        assert_eq!(manager.session_count(), 1, "iter {i}: established");
        let close = ws.encrypt(MessageType::Close, &[0u8; PAYLOAD_LEN]).unwrap();
        assert!(
            matches!(manager.handle_datagram(&close, CLIENT_ADDR).unwrap(), ManagerEvent::Closed { sid: s, reason: CloseReason::PeerClosed } if s == sid)
        );
        let drained = manager.tick(manager.now);
        assert!(
            drained
                .iter()
                .all(|e| !matches!(e, ManagerEvent::Closed { .. })),
            "iter {i}: close already drained inline"
        );
        assert_eq!(manager.session_count(), 0, "iter {i}: session removed");
        assert!(
            manager.fail_bucket_count() <= 1,
            "iter {i}: fail buckets must stay bounded (<=1 legit source), got {}",
            manager.fail_bucket_count()
        );
    }
}

/// virtual clock: idle-timeout eviction + lifetime-cap precedence,
/// driven by injecting a far-future Instant (no real waiting).
#[test]
fn adv_time_control_server_eviction_virtual_clock() {
    let (cc, _sc) = shared_configs();
    let mut limits = SessionLimits::default();
    limits.idle_timeout = Some(Duration::from_secs(10));
    limits.lifetime_cap = Some(Duration::from_secs(20));
    let mut manager = server_manager(limits);
    let (_c, mut ws) = established_client_session(&mut manager, &cc, SID);
    let t0 = manager.now;

    // Activity within the idle window refreshes last_activity.
    let pkt = ws.encrypt(MessageType::Data, &[0x01; PAYLOAD_LEN]).unwrap();
    assert!(matches!(
        manager.handle_datagram(&pkt, CLIENT_ADDR).unwrap(),
        ManagerEvent::AppData { .. }
    ));
    assert_eq!(
        manager.tick(t0.plus(Duration::from_secs(9))).len(),
        0,
        "alive at +9s"
    );
    assert_eq!(manager.session_count(), 1);

    // +15s real (idle since +9s activity; strictly between the 10s idle
    // timeout and the 20s lifetime cap) → idle timeout fires.
    let evs = manager.tick(t0.plus(Duration::from_secs(15)));
    assert_eq!(evs.len(), 1, "idle timeout must fire once at +15s");
    assert!(
        matches!(&evs[0], ManagerEvent::Closed { sid, reason: CloseReason::IdleTimeout } if *sid == SID)
    );
    assert_eq!(manager.session_count(), 0);

    // lifetime precedence: a session that lives to lifetime_cap is evicted with
    // LifetimeCap even if it has had recent activity.
    let (_c2, mut ws) = established_client_session(&mut manager, &cc, SID);
    let pkt = ws.encrypt(MessageType::Data, &[0x02; PAYLOAD_LEN]).unwrap();
    assert!(matches!(
        manager.handle_datagram(&pkt, CLIENT_ADDR).unwrap(),
        ManagerEvent::AppData { .. }
    ));
    let evs = manager.tick(t0.plus(Duration::from_secs(30)));
    assert!(
        evs.iter().any(|e| matches!(
            e,
            ManagerEvent::Closed {
                reason: CloseReason::LifetimeCap,
                ..
            }
        )),
        "lifetime cap must win over idle at +30s"
    );
    assert_eq!(manager.session_count(), 0);
}

/// client handshake timeout is deterministic and re-arms.
#[test]
fn adv_client_handshake_timeout_deterministic() {
    let (cc, _sc) = shared_configs();
    let mut cm = ClientManager::new(&cc, SessionLimits::default()).unwrap();
    // begin → send M1, Handshaking, no server response fed.
    match cm.begin_handshake().unwrap() {
        ManagerEvent::Send { peer, .. } => assert_eq!(peer, SERVER_ADDR),
        _ => panic!("expected Send(M1)"),
    }
    assert_eq!(cm.state(), ClientManagerState::Handshaking);
    let start_sid = cm
        .handshake_sid()
        .expect("handshake sid after begin_handshake");
    let mut saw_timeout = false;
    for _ in 0..20 {
        match cm.on_timer().unwrap() {
            ManagerEvent::Send { .. } => {} // M1 retransmit
            ManagerEvent::Closed {
                sid,
                reason: CloseReason::HandshakeTimeout,
            } => {
                // `on_timer` clears the in-flight handshake before emitting the
                // event, so compare against the sid captured above rather than
                // re-querying `handshake_sid()` (which is `None` by now).
                assert_eq!(
                    sid, start_sid,
                    "timed-out sid must match the started handshake"
                );
                saw_timeout = true;
                break;
            }
            _ => panic!("unexpected during timeout drain"),
        }
    }
    assert!(
        saw_timeout,
        "client must HandshakeTimeout without a server M2"
    );
    assert_eq!(
        cm.state(),
        ClientManagerState::Idle,
        "timeout re-arms to Idle"
    );
    // Re-establishment after timeout.
    match cm.begin_handshake().unwrap() {
        ManagerEvent::Send { .. } => {}
        _ => panic!("must re-arm after timeout"),
    }
    assert_eq!(cm.state(), ClientManagerState::Handshaking);
}

/// close vs data ordering races (single-threaded permutation):
/// close-before-data, data-before-close, and duplicate close.
#[test]
fn adv_close_data_race_orderings() {
    let (cc, _sc) = shared_configs();

    // (A) Close then duplicate-of-data (out of order): close wins, late data → None.
    let (mut m, mut ws, _) = establish_for_master(&cc);
    let data = ws.encrypt(MessageType::Data, &[0x09; PAYLOAD_LEN]).unwrap();
    let close = ws.encrypt(MessageType::Close, &[0u8; PAYLOAD_LEN]).unwrap();
    assert!(matches!(
        m.handle_datagram(&close, CLIENT_ADDR).unwrap(),
        ManagerEvent::Closed {
            reason: CloseReason::PeerClosed,
            ..
        }
    ));
    assert_eq!(m.session_count(), 0);
    assert!(
        matches!(
            m.handle_datagram(&data, CLIENT_ADDR).unwrap(),
            ManagerEvent::Nothing
        ),
        "late data must not resurrect"
    );
    assert!(
        matches!(
            m.handle_datagram(&close, CLIENT_ADDR).unwrap(),
            ManagerEvent::Nothing
        ),
        "dup close must be None"
    );

    // (B) Data then close: data delivered, then closed.
    let (mut m, mut ws, _) = establish_for_master(&cc);
    let data = ws.encrypt(MessageType::Data, &[0x0A; PAYLOAD_LEN]).unwrap();
    let close = ws.encrypt(MessageType::Close, &[0u8; PAYLOAD_LEN]).unwrap();
    assert!(matches!(
        m.handle_datagram(&data, CLIENT_ADDR).unwrap(),
        ManagerEvent::AppData { .. }
    ));
    assert!(matches!(
        m.handle_datagram(&close, CLIENT_ADDR).unwrap(),
        ManagerEvent::Closed {
            reason: CloseReason::PeerClosed,
            ..
        }
    ));
    assert_eq!(m.session_count(), 0);

    // (C) Simultaneous same-nonce: two distinct close packets (different nonces) → one close.
    let (mut m, mut ws, _) = establish_for_master(&cc);
    let c1 = ws.encrypt(MessageType::Close, &[0u8; PAYLOAD_LEN]).unwrap();
    let c2 = ws.encrypt(MessageType::Close, &[0u8; PAYLOAD_LEN]).unwrap(); // distinct nonce
    assert_ne!(
        c1.as_bytes(),
        c2.as_bytes(),
        "distinct nonces produce distinct ciphertexts"
    );
    let first = m.handle_datagram(&c1, CLIENT_ADDR).unwrap();
    let second = m.handle_datagram(&c2, CLIENT_ADDR).unwrap();
    assert!(
        matches!(
            first,
            ManagerEvent::Closed {
                reason: CloseReason::PeerClosed,
                ..
            }
        ) && matches!(second, ManagerEvent::Nothing),
        "first close wins, second dropped"
    );
}

/// nonce-exhaustion boundary: a packet at MAX_PACKET_NONCE forces
/// `Closed{NonceExhausted}` and the session is removed; a fresh handshake
/// recovers.
#[test]
fn adv_nonce_exhaustion_recovery() {
    let (cc, _sc) = shared_configs();
    let (mut manager, _ws, outcome) = establish_for_master(&cc);
    let pkt = exhaustion_packet_c2s(&outcome.master, SID);
    assert!(matches!(
        manager.handle_datagram(&pkt, CLIENT_ADDR).unwrap(),
        ManagerEvent::Closed { sid, reason: CloseReason::NonceExhausted } if sid == SID
    ));
    assert_eq!(manager.session_count(), 0, "exhausted session removed");
    let (_c, mut ws) = established_client_session(&mut manager, &cc, SID);
    assert_eq!(manager.session_count(), 1, "recover after exhaustion");
    let data = ws.encrypt(MessageType::Data, &[0x71; PAYLOAD_LEN]).unwrap();
    assert!(matches!(
        manager.handle_datagram(&data, CLIENT_ADDR).unwrap(),
        ManagerEvent::AppData { .. }
    ));
}

/// replay-window dedup/boundary: 256 distinct-nonce valid packets
/// all deliver; replaying any one is rejected; session count stays 1.
#[test]
fn adv_replay_window_dedup_256() {
    let (cc, _sc) = shared_configs();
    let (mut manager, mut ws, _outcome) = establish_for_master(&cc);
    let mut seen: Vec<WirePacket> = Vec::with_capacity(256);
    seen.reserve(256);
    for i in 0..256u64 {
        let p = ws
            .encrypt(
                MessageType::Data,
                &[(i as u8).wrapping_mul(13); PAYLOAD_LEN],
            )
            .unwrap();
        assert!(
            matches!(
                manager.handle_datagram(&p, CLIENT_ADDR).unwrap(),
                ManagerEvent::AppData { .. }
            ),
            "packet {i} must deliver"
        );
        seen.push(p);
    }
    assert_eq!(manager.session_count(), 1);
    // replay 32 distinct previously-seen packets → all rejected silently
    let mut rng = Rng::new(0x_F00D_0000_0000_0002);
    for _ in 0..32 {
        let idx = rng.idx(256);
        assert!(
            matches!(
                manager.handle_datagram(&seen[idx], CLIENT_ADDR).unwrap(),
                ManagerEvent::Nothing
            ),
            "replay must be rejected"
        );
    }
    assert_eq!(manager.session_count(), 1, "replays must not create state");
    // a fresh packet still delivers (window advanced, not poisoned)
    let fresh = ws.encrypt(MessageType::Data, &[0xFF; PAYLOAD_LEN]).unwrap();
    assert!(matches!(
        manager.handle_datagram(&fresh, CLIENT_ADDR).unwrap(),
        ManagerEvent::AppData { .. }
    ));
}

fn no_cover() -> CoverPolicy {
    CoverPolicy { enabled: false, interval: CoverPolicy::default().interval }
}

fn is_nothing(d: &Decision) -> bool {
    matches!(d.action, Action::Nothing)
}

/// A server driver over a wire that is two lists.
struct ServerLoop {
    manager: ServerManager,
    driver: ServerDriver,
    sent: Vec<(WirePacket, PeerAddr)>,
    notes: Vec<ManagerNotification>,
}

impl ServerLoop {
    fn new(manager: ServerManager, cover: CoverPolicy) -> ServerLoop {
        ServerLoop {
            manager,
            driver: ServerDriver::new(cover),
            sent: Vec::new(),
            notes: Vec::new(),
        }
    }

    fn act(&mut self, action: Action) {
        match action {
            Action::Nothing => {}
            Action::Transmit(packets, peer) => {
                self.sent.extend(packets.into_iter().map(|p| (p, peer)));
            }
            Action::Notify(note) => self.notes.push(note),
            Action::Restart(_) => panic!("a server never restarts"),
        }
    }

    fn receive(&mut self, pkt: &WirePacket, from: PeerAddr) {
        self.driver.on_datagram();
        let event = self.manager.handle_datagram(pkt, from).unwrap();
        let decision = self.driver.on_event(event, self.manager.now);
        assert!(!decision.retransmit);
        self.act(decision.action);
    }

    fn fail(&mut self, e: HandshakeV2Error) -> RecvVerdict {
        self.driver.on_recv_error(e)
    }

    fn command(&mut self, cmd: ServerAppCommand) -> Result<(), ManagerError> {
        let answer = self.manager.app_outbound(&cmd.sid, &cmd.payload);
        let decision = self.driver.on_command(answer)?;
        self.act(decision.action);
        Ok(())
    }

    /// What was sent to the client since the last call.
    fn take_sent(&mut self) -> Vec<WirePacket> {
        self.sent
            .drain(..)
            .map(|(p, peer)| {
                assert_eq!(peer, CLIENT_ADDR);
                p
            })
            .collect()
    }

    fn take_note(&mut self) -> ManagerNotification {
        assert!(!self.notes.is_empty(), "expected a notification");
        self.notes.remove(0)
    }
}

/// Runs a handshake of a client machine through a server driver.
fn handshake_through(srv: &mut ServerLoop, cc: &ClientSetup, sid: [u8; SESSION_ID_LEN]) -> Client {
    let mut client = Client::new(cc, sid).unwrap();
    for f in &client.m1_frags() {
        srv.receive(f, CLIENT_ADDR);
    }
    let m2 = srv.take_sent();
    assert_eq!(m2.len(), M2_FRAG_COUNT as usize);
    let mut m3 = Vec::new();
    for f in &m2 {
        if let ClientEvent::Emit(packets) = client.handle_datagram(f).unwrap() {
            m3 = packets;
        }
    }
    for f in &m3 {
        srv.receive(f, CLIENT_ADDR);
    }
    client
}

/// A client driver over a wire that is two lists.
struct ClientLoop {
    manager: ClientManager,
    driver: ClientDriver,
    sent: Vec<WirePacket>,
    notes: Vec<ManagerNotification>,
}

impl ClientLoop {
    /// Connects at once.
    fn new(manager: ClientManager, cover: CoverPolicy) -> ClientLoop {
        let mut c = ClientLoop {
            manager,
            driver: ClientDriver::new(cover),
            sent: Vec::new(),
            notes: Vec::new(),
        };
        c.connect();
        c
    }

    fn connect(&mut self) {
        match self.manager.begin_handshake().unwrap() {
            ManagerEvent::Send { packets, peer } => {
                assert_eq!(peer, SERVER_ADDR);
                self.sent.extend(packets);
            }
            _ => panic!("expected Send"),
        }
    }

    fn act(&mut self, decision: Decision) {
        match decision.action {
            Action::Nothing => {}
            Action::Transmit(packets, peer) => {
                assert_eq!(peer, SERVER_ADDR);
                self.sent.extend(packets);
            }
            Action::Notify(note) => self.notes.push(note),
            Action::Restart(note) => {
                assert!(decision.retransmit);
                self.notes.push(note);
                self.connect();
            }
        }
        let now = self.manager.now;
        let ready =
            self.driver.check_ready(self.manager.is_ready(), self.manager.session_id(), now);
        if let Action::Notify(note) = ready.action {
            self.notes.push(note);
        }
    }

    fn receive(&mut self, pkt: &WirePacket) {
        let event = self.manager.handle_datagram(pkt, SERVER_ADDR).unwrap();
        let decision = self.driver.on_event(event);
        self.act(decision);
    }

    fn timer(&mut self) {
        let event = self.manager.on_timer().unwrap();
        let decision = self.driver.on_timer_event(event);
        assert!(decision.retransmit);
        self.act(decision);
    }

    fn command(&mut self, payload: &[u8]) -> Result<(), ManagerError> {
        let answer = self.manager.app_outbound(payload);
        let decision = self.driver.on_command(answer)?;
        self.act(decision);
        Ok(())
    }

    fn take_sent(&mut self) -> Vec<WirePacket> {
        self.sent.drain(..).collect()
    }

    fn take_note(&mut self) -> ManagerNotification {
        assert!(!self.notes.is_empty(), "expected a notification");
        self.notes.remove(0)
    }
}

/// Answers the hello of a client driver as the server, until its budget of
/// confirmations is used up.
fn answer_client(cli: &mut ClientLoop, sc: &ServerSetup) -> (HandshakeOutcome, Session) {
    let mut server = Server::new(sc);
    let m1 = cli.take_sent();
    assert_eq!(m1.len(), M1_FRAG_COUNT as usize);
    let mut m2 = Vec::new();
    for pkt in &m1 {
        if let ServerEvent::Emit(frags, peer) = server.handle_datagram(pkt, CLIENT_ADDR).unwrap() {
            assert_eq!(peer, CLIENT_ADDR);
            m2 = frags;
        }
    }
    assert_eq!(m2.len(), M2_FRAG_COUNT as usize);
    for f in &m2 {
        cli.receive(f);
    }
    // Sent once on M2, and once more from the retransmission timer.
    cli.timer();
    let m3 = cli.take_sent();
    assert_eq!(m3.len(), M3_FRAG_COUNT as usize * 2);
    let mut outcome = None;
    for pkt in &m3 {
        if let ServerEvent::Complete(out) = server.handle_datagram(pkt, CLIENT_ADDR).unwrap() {
            outcome = Some(out);
        }
    }
    let outcome = outcome.expect("server completes");
    cli.timer();
    assert_eq!(cli.manager.state(), ClientManagerState::Established);
    let ws = Session::established(Role::Server, &outcome).unwrap();
    (outcome, ws)
}

fn fast_client() -> (ClientSetup, ServerSetup) {
    let (mut cc, sc) = shared_configs();
    cc.cfg.m1_retransmit_base = Duration::from_millis(50);
    cc.cfg.m3_max_attempts = 1;
    (cc, sc)
}

/// A vanished peer never stops a server, and is logged once per episode; the
/// sessions stay up.
#[test]
fn server_driver_survives_transport_reset() {
    let (cc, _sc) = shared_configs();
    let mut srv = ServerLoop::new(server_manager(SessionLimits::default()), no_cover());
    let sid = [0x42; SESSION_ID_LEN];
    handshake_through(&mut srv, &cc, sid);
    assert!(matches!(srv.take_note(), ManagerNotification::Established { .. }));
    assert_eq!(srv.fail(HandshakeV2Error::TransportReset), RecvVerdict::Warn);
    for _ in 0..100 {
        assert_eq!(srv.fail(HandshakeV2Error::TransportReset), RecvVerdict::Skip);
        assert_eq!(srv.fail(HandshakeV2Error::DatagramRejected), RecvVerdict::Skip);
    }
    assert_eq!(srv.manager.session_count(), 1);
    srv.driver.on_datagram();
    assert_eq!(srv.fail(HandshakeV2Error::TransportReset), RecvVerdict::Warn);
    let broken = HandshakeV2Error::Transport("socket".to_string());
    assert_eq!(srv.fail(broken.clone()), RecvVerdict::Stop(broken));
}

#[test]
fn server_driver_end_to_end() {
    let (cc, _sc) = shared_configs();
    let mut srv = ServerLoop::new(server_manager(SessionLimits::default()), no_cover());

    // Handshake through the driver.
    let sid = [0x42; SESSION_ID_LEN];
    let mut client = handshake_through(&mut srv, &cc, sid);
    match srv.take_note() {
        ManagerNotification::Established { sid: es, peer } => {
            assert_eq!(es, sid);
            assert_eq!(peer, CLIENT_ADDR);
        }
        _ => panic!("expected Established"),
    }

    // Client to server.
    let (mut cws, _out) = client_established(&mut client, &cc);
    let pkt = cws.encrypt(MessageType::Data, &[0x5A; PAYLOAD_LEN]).unwrap();
    srv.receive(&pkt, CLIENT_ADDR);
    match srv.take_note() {
        ManagerNotification::Data { sid: ds, inner } => {
            assert_eq!(ds, sid);
            assert_eq!(inner.msg_type, MessageType::Data);
            assert_eq!(&inner.payload[..], &[0x5A; PAYLOAD_LEN][..]);
        }
        _ => panic!("expected Data"),
    }

    // Server to client.
    srv.command(ServerAppCommand { sid, payload: vec![0x33; 32] }).unwrap();
    let sent = srv.take_sent();
    assert_eq!(sent.len(), 1);
    let inner = cws.decrypt(&sent[0]).unwrap();
    assert_eq!(&inner.payload[..32], &[0x33; 32][..]);
    assert!(srv.notes.is_empty());
}

#[test]
fn client_driver_end_to_end() {
    let (cc, sc) = fast_client();
    let manager = ClientManager::new(&cc, SessionLimits::default()).unwrap();
    let mut cli = ClientLoop::new(manager, no_cover());
    let (outcome, mut srv_ws) = answer_client(&mut cli, &sc);
    assert!(cli.notes.is_empty());

    // A cover packet of the server confirms the session.
    cli.receive(&srv_ws.cover().unwrap());
    match cli.take_note() {
        ManagerNotification::Ready { sid } => assert_eq!(sid, outcome.session_id),
        _ => panic!("expected Ready"),
    }

    // Client to server.
    cli.command(&[0x77; 64]).unwrap();
    let sent = cli.take_sent();
    assert_eq!(sent.len(), 1);
    let inner = srv_ws.decrypt(&sent[0]).unwrap();
    assert_eq!(&inner.payload[..64], &[0x77; 64][..]);

    // Server to client.
    let reply = srv_ws.encrypt(MessageType::Data, &[0x22; PAYLOAD_LEN]).unwrap();
    cli.receive(&reply);
    match cli.take_note() {
        ManagerNotification::Data { inner, .. } => {
            assert_eq!(inner.msg_type, MessageType::Data);
            assert_eq!(&inner.payload[..], &[0x22; PAYLOAD_LEN][..]);
        }
        _ => panic!("expected Data"),
    }
}

#[test]
fn client_driver_app_data_during_handshake_does_not_kill_driver() {
    let mut cli = ClientLoop::new(client_manager(), no_cover());
    assert_eq!(cli.take_sent().len(), M1_FRAG_COUNT as usize);
    cli.command(&[0x77; 64]).expect("must survive app data pushed during handshake");
    assert!(cli.sent.is_empty() && cli.notes.is_empty());
    assert_eq!(cli.manager.state(), ClientManagerState::Handshaking);
    // The timer is set anew after every retransmission.
    cli.timer();
    assert_eq!(cli.take_sent().len(), M1_FRAG_COUNT as usize);
}

#[test]
fn server_driver_app_data_unknown_sid_does_not_kill_driver() {
    let mut srv = ServerLoop::new(server_manager(SessionLimits::default()), no_cover());
    let cmd = ServerAppCommand { sid: [0xAA; SESSION_ID_LEN], payload: vec![0x77; 32] };
    srv.command(cmd).expect("must survive an app command for an unknown sid");
    assert!(srv.sent.is_empty() && srv.notes.is_empty());
    assert!(matches!(
        srv.driver.on_command(Err(ManagerError::InvalidState("x"))),
        Err(ManagerError::InvalidState("x"))
    ));
}

#[test]
fn adv_d2_oversized_app_data_does_not_kill_server_driver() {
    let (cc, _sc) = shared_configs();
    let mut sm = server_manager(SessionLimits::default());
    established_client_session(&mut sm, &cc, SID);
    assert_eq!(sm.session_count(), 1);
    let mut srv = ServerLoop::new(sm, no_cover());
    let big = vec![0u8; PAYLOAD_LEN + 1];
    for _ in 0..2 {
        let cmd = ServerAppCommand { sid: SID, payload: big.clone() };
        srv.command(cmd).expect("must survive an oversized command");
        assert!(srv.sent.is_empty());
    }
    assert_eq!(srv.manager.session_count(), 1);
    srv.command(ServerAppCommand { sid: SID, payload: vec![0u8; PAYLOAD_LEN] }).unwrap();
    assert_eq!(srv.take_sent().len(), 1);
    // Other codec faults are not benign.
    let fault = ManagerError::Session(SessionError::Codec(CodecError::DecryptionFailed));
    assert!(srv.driver.on_command(Err(fault)).is_err());
}

#[test]
fn client_driver_nonce_exhaustion_reestablishes() {
    let (cc, sc) = fast_client();
    let manager = ClientManager::new(&cc, SessionLimits::default()).unwrap();
    let mut cli = ClientLoop::new(manager, no_cover());

    // First leg, up to readiness.
    let (outcome, mut srv_ws) = answer_client(&mut cli, &sc);
    let first_sid = outcome.session_id;
    cli.receive(&srv_ws.cover().unwrap());
    match cli.take_note() {
        ManagerNotification::Ready { sid } => assert_eq!(sid, first_sid),
        _ => panic!("expected Ready"),
    }

    // An authentic packet at the end of the counter.
    cli.receive(&exhaustion_packet_s2c(&outcome.master, first_sid));
    match cli.take_note() {
        ManagerNotification::Closed { sid, reason } => {
            assert_eq!(sid, first_sid);
            assert_eq!(reason, CloseReason::NonceExhausted);
        }
        _ => panic!("expected Closed(NonceExhausted)"),
    }

    // Second leg: a fresh handshake was started.
    let (outcome2, mut srv_ws2) = answer_client(&mut cli, &sc);
    let second_sid = outcome2.session_id;
    assert_ne!(second_sid, first_sid, "re-establishment uses a fresh session");
    cli.receive(&srv_ws2.cover().unwrap());
    match cli.take_note() {
        ManagerNotification::Ready { sid } => assert_eq!(sid, second_sid),
        _ => panic!("expected Ready (leg 2)"),
    }

    // Data goes on, both directions.
    cli.command(&[0x77; 64]).unwrap();
    let sent = cli.take_sent();
    assert_eq!(sent.len(), 1);
    let inner = srv_ws2.decrypt(&sent[0]).unwrap();
    assert_eq!(&inner.payload[..64], &[0x77; 64][..]);
    let reply = srv_ws2.encrypt(MessageType::Data, &[0x22; PAYLOAD_LEN]).unwrap();
    cli.receive(&reply);
    match cli.take_note() {
        ManagerNotification::Data { inner, .. } => {
            assert_eq!(inner.msg_type, MessageType::Data);
            assert_eq!(&inner.payload[..], &[0x22; PAYLOAD_LEN][..]);
        }
        _ => panic!("expected Data (leg 2)"),
    }
}

#[test]
fn server_driver_nonce_exhaustion_recovers() {
    let (cc, _sc) = fast_client();
    let mut srv = ServerLoop::new(server_manager(SessionLimits::default()), no_cover());

    // First leg.
    let sid = [0x42; SESSION_ID_LEN];
    let mut client = handshake_through(&mut srv, &cc, sid);
    match srv.take_note() {
        ManagerNotification::Established { sid: es, .. } => assert_eq!(es, sid),
        _ => panic!("expected Established"),
    }
    let (_, out) = client_established(&mut client, &cc);

    // An authentic packet at the end of the counter.
    srv.receive(&exhaustion_packet_c2s(&out.master, sid), CLIENT_ADDR);
    match srv.take_note() {
        ManagerNotification::Closed { sid: cs, reason } => {
            assert_eq!(cs, sid);
            assert_eq!(reason, CloseReason::NonceExhausted);
        }
        _ => panic!("expected Closed(NonceExhausted)"),
    }

    // Second leg: a fresh handshake recovers, and data flows again.
    let sid2 = [0x24; SESSION_ID_LEN];
    let mut client2 = handshake_through(&mut srv, &cc, sid2);
    match srv.take_note() {
        ManagerNotification::Established { sid: es, .. } => assert_eq!(es, sid2),
        _ => panic!("expected Established (leg 2)"),
    }
    let (mut cws2, _out2) = client_established(&mut client2, &cc);
    let pkt = cws2.encrypt(MessageType::Data, &[0x5A; PAYLOAD_LEN]).unwrap();
    srv.receive(&pkt, CLIENT_ADDR);
    match srv.take_note() {
        ManagerNotification::Data { sid: ds, inner } => {
            assert_eq!(ds, sid2);
            assert_eq!(&inner.payload[..], &[0x5A; PAYLOAD_LEN][..]);
        }
        _ => panic!("expected Data (leg 2)"),
    }
}

/// The events of a whole session lead to the right actions.
#[test]
fn server_driver_schedules_cover() {
    let (cc, _sc) = shared_configs();
    let mut manager = server_manager(SessionLimits::default());
    let mut driver = ServerDriver::new(CoverPolicy::default());
    let mut client = Client::new(&cc, SID).expect("client");
    assert_eq!(driver.next_cover(), None);

    let mut m2 = Vec::new();
    for f in &client.m1_frags() {
        let event = manager.handle_datagram(f, CLIENT_ADDR).unwrap();
        let d = driver.on_event(event, manager.now);
        assert!(!d.cover && !d.retransmit);
        if let Action::Transmit(packets, peer) = d.action {
            assert_eq!(peer, CLIENT_ADDR);
            m2 = packets;
        }
    }
    assert_eq!(m2.len(), M2_FRAG_COUNT as usize);
    let mut m3 = Vec::new();
    for f in &m2 {
        if let ClientEvent::Emit(packets) = client.handle_datagram(f).unwrap() {
            m3 = packets;
        }
    }
    let event = manager.handle_datagram(&m3[0], CLIENT_ADDR).unwrap();
    let d = driver.on_event(event, manager.now);
    assert!(d.cover, "the first session arms the cover timer");
    assert!(matches!(
        d.action,
        Action::Notify(ManagerNotification::Established { sid: SID, peer }) if peer == CLIENT_ADDR
    ));
    let deadline = driver.next_cover().expect("armed");
    assert_eq!(deadline, manager.now.plus(CoverPolicy::default().interval));

    let (mut ws, _) = client_established(&mut client, &cc);
    let pkt = ws.encrypt(MessageType::Data, &[0x44; PAYLOAD_LEN]).unwrap();
    let event = manager.handle_datagram(&pkt, CLIENT_ADDR).unwrap();
    assert!(matches!(
        driver.on_event(event, manager.now).action,
        Action::Notify(ManagerNotification::Data { sid: SID, inner }) if inner.payload[0] == 0x44
    ));

    let answer = manager.app_outbound(&SID, b"reply");
    match driver.on_command(answer).unwrap().action {
        Action::Transmit(packets, peer) => {
            assert_eq!(peer, CLIENT_ADDR);
            assert_eq!(packets.len(), 1);
            assert_eq!(&ws.decrypt(&packets[0]).unwrap().payload[..5], b"reply");
        }
        _ => panic!("expected Transmit"),
    }

    // Cover: one packet per session and interval.
    assert!(!driver.on_cover_deadline(manager.now));
    assert!(driver.on_cover_deadline(deadline));
    for event in manager.cover_packet_all().unwrap() {
        match driver.on_cover_event(event).action {
            Action::Transmit(packets, _) => {
                assert_eq!(ws.decrypt(&packets[0]).unwrap().msg_type, MessageType::Cover);
            }
            _ => panic!("expected Transmit"),
        }
    }
    driver.on_cover_sent(manager.session_count());
    assert_eq!(driver.next_cover(), Some(deadline.plus(CoverPolicy::default().interval)));

    // The session idles away; the schedule goes inert at its next deadline.
    let events = manager.tick(manager.now.plus(Duration::from_secs(301)));
    assert_eq!(events.len(), 1);
    for event in events {
        assert!(matches!(
            driver.on_tick_event(event).action,
            Action::Notify(ManagerNotification::Closed {
                sid: SID,
                reason: CloseReason::IdleTimeout
            })
        ));
    }
    driver.on_cover_sent(manager.session_count());
    assert_eq!(driver.next_cover(), None);
    assert!(!driver.on_cover_deadline(deadline.plus(Duration::from_secs(1000))));
}

/// Every closure restarts the client; readiness is told once.
#[test]
fn client_driver_schedules_cover() {
    let mut manager = client_manager();
    let mut server = server_machine();
    let mut driver = ClientDriver::new(CoverPolicy::default());
    let (mut srv, _) = client_handshake_with_server(&mut manager, &mut server, SERVER_ADDR);
    let d = driver.check_ready(manager.is_ready(), manager.session_id(), manager.now);
    assert!(is_nothing(&d) && !d.cover && !d.retransmit);
    assert_eq!(driver.next_cover(), None, "no cover before confirmation");
    assert!(!driver.on_cover_deadline(manager.now.plus(Duration::from_secs(100))));

    let pkt = srv.encrypt(MessageType::Data, &[9u8; PAYLOAD_LEN]).unwrap();
    let event = manager.handle_datagram(&pkt, SERVER_ADDR).unwrap();
    let d = driver.on_event(event);
    assert!(matches!(d.action, Action::Notify(ManagerNotification::Data { .. })));
    assert!(!d.retransmit, "traffic leaves the retransmission timer alone");
    let sid = manager.session_id().unwrap();
    let d = driver.check_ready(manager.is_ready(), manager.session_id(), manager.now);
    assert!(d.cover);
    assert!(matches!(
        d.action,
        Action::Notify(ManagerNotification::Ready { sid: s }) if s == sid
    ));
    assert!(is_nothing(&driver.check_ready(true, Some(sid), manager.now)));

    let deadline = driver.next_cover().unwrap();
    assert!(driver.on_cover_deadline(deadline));
    let answer = manager.cover_packet();
    match driver.on_cover_answer(answer).unwrap().action {
        Action::Transmit(packets, _) => {
            assert_eq!(srv.decrypt(&packets[0]).unwrap().msg_type, MessageType::Cover);
        }
        _ => panic!("expected Transmit"),
    }

    let pkt = srv.encrypt(MessageType::Close, &[0u8; PAYLOAD_LEN]).unwrap();
    let event = manager.handle_datagram(&pkt, SERVER_ADDR).unwrap();
    let d = driver.on_event(event);
    assert!(d.retransmit && !d.cover);
    assert!(matches!(
        d.action,
        Action::Restart(ManagerNotification::Closed { reason: CloseReason::PeerClosed, .. })
    ));
    assert_eq!(driver.next_cover(), None);
    assert!(matches!(manager.begin_handshake(), Ok(ManagerEvent::Send { .. })));

    // A cover deadline without a session is no failure.
    assert!(is_nothing(&driver.on_cover_answer(Err(ManagerError::NoSession)).unwrap()));
    assert!(matches!(
        driver.on_cover_answer(Err(ManagerError::AppClosed)),
        Err(ManagerError::AppClosed)
    ));
}

/// Cover packets come in ascending order of the identifiers.
#[test]
fn cover_for_all_sessions_is_ordered() {
    let (cc, _sc) = shared_configs();
    let mut manager = server_manager(SessionLimits::default());
    let mut sessions = Vec::new();
    for first in [0x90u8, 0x10, 0xF0, 0x30] {
        let mut sid = SID;
        sid[0] = first;
        sessions.push((sid, established_client_session(&mut manager, &cc, sid).1));
    }
    sessions.sort_by_key(|s| s.0);
    let events = manager.cover_packet_all().unwrap();
    assert_eq!(events.len(), sessions.len());
    for (event, (sid, ws)) in events.into_iter().zip(sessions.iter_mut()) {
        match event {
            ManagerEvent::SendPacket { packet, .. } => {
                assert_eq!(&packet.as_bytes()[1..9], &sid[..]);
                assert_eq!(ws.decrypt(&packet).unwrap().msg_type, MessageType::Cover);
            }
            _ => panic!("expected SendPacket"),
        }
    }
    assert_eq!(manager.session_count(), 4);
    assert!(matches!(manager.cover_packet(&[0; 8]), Err(ManagerError::NoSession)));
}

/// A sealed packet is accepted once, and only for the counter it was made for.
#[test]
fn stale_tickets_are_refused() {
    let (cc, _sc) = shared_configs();
    let mut manager = server_manager(SessionLimits::default());
    established_client_session(&mut manager, &cc, SID);
    let ticket = |m: &mut ServerManager| match m.inner.app_outbound(&SID, b"x").unwrap() {
        SealStep::Seal(t) => t,
        SealStep::Event(_) => panic!("expected a ticket"),
    };
    let first = ticket(&mut manager);
    let second = ticket(&mut manager);
    assert_eq!(first.session_id(), &SID);
    assert_eq!(first.request().counter, second.request().counter);
    let sealed = seal(&first);
    assert!(manager.inner.on_sealed(first, sealed, manager.now).is_ok());
    let sealed = seal(&second);
    assert!(matches!(
        manager.inner.on_sealed(second, sealed, manager.now),
        Err(ManagerError::InvalidState("stale seal request"))
    ));
    let third = ticket(&mut manager);
    assert!(matches!(
        manager.inner.on_sealed(
            third,
            Err(CryptoError::Failed("aead".to_string())),
            manager.now
        ),
        Err(ManagerError::Session(SessionError::Codec(CodecError::Crypto(_))))
    ));
    let late = ticket(&mut manager);
    manager.close_session(&SID).unwrap();
    let sealed = seal(&late);
    assert!(matches!(
        manager.inner.on_sealed(late, sealed, manager.now),
        Err(ManagerError::NoSession)
    ));
}

/// Failed key derivation is reported, after room was made.
#[test]
fn failed_key_derivation_is_reported() {
    let (cc, _sc) = shared_configs();
    let (mut manager, _ws, outcome) = establish_for_master(&cc);
    let mut other = outcome.duplicate();
    other.session_id = [1; SESSION_ID_LEN];
    let failed = CryptoError::Failed("kdf".to_string());
    assert!(matches!(
        manager.inner.on_handshake_complete(other, OTHER_ADDR, Err(failed.clone()), manager.now),
        Err(ManagerError::Session(SessionError::Codec(CodecError::Crypto(e)))) if e == failed
    ));
    // An identifier in use is never taken over.
    assert!(matches!(
        manager.on_handshake_complete(outcome, OTHER_ADDR),
        Ok(ManagerEvent::Nothing)
    ));
    assert_eq!(manager.session_count(), 1);

    let mut client = client_manager();
    assert!(matches!(
        client.inner.start_handshake([2; 8], Err(failed.clone()), client.now),
        Err(ManagerError::Handshake(HandshakeV2Error::Crypto(e))) if e == failed
    ));
    assert_eq!(client.state(), ClientManagerState::Idle);
}

/// Only what the server receives keeps a session alive.
#[test]
fn sending_does_not_keep_a_session_alive() {
    let (cc, _sc) = shared_configs();
    let mut manager = server_manager(SessionLimits::default());
    established_client_session(&mut manager, &cc, SID);
    let last_receive = manager.now;
    manager.now = manager.now.plus(Duration::from_secs(299));
    manager.app_outbound(&SID, b"out").unwrap();
    manager.cover_packet(&SID).unwrap();
    let events = manager.tick(last_receive.plus(Duration::from_secs(301)));
    assert!(matches!(
        events[0],
        ManagerEvent::Closed { sid: SID, reason: CloseReason::IdleTimeout }
    ));
}

/// Without a budget for failures nothing is opened.
#[test]
fn zero_failure_buckets_close_the_data_path() {
    let (cc, _sc) = shared_configs();
    let mut limits = SessionLimits::default();
    limits.max_fail_buckets = 0;
    let mut manager = server_manager(limits);
    let (_c, mut ws) = established_client_session(&mut manager, &cc, SID);
    let pkt = ws.encrypt(MessageType::Data, &[0u8; PAYLOAD_LEN]).unwrap();
    assert!(matches!(manager.handle_datagram(&pkt, CLIENT_ADDR), Ok(ManagerEvent::Nothing)));
    assert_eq!(manager.fail_bucket_count(), 0);
}

/// A source that used up its failures is served again after the window.
#[test]
fn failure_budget_refills_after_its_window() {
    let (cc, _sc) = shared_configs();
    let mut manager = server_manager(SessionLimits::default());
    let (_c, mut ws) = established_client_session(&mut manager, &cc, SID);
    let pkt = ws.encrypt(MessageType::Data, &[0u8; PAYLOAD_LEN]).unwrap();
    for _ in 0..64 {
        manager.handle_datagram(&tampered(&pkt), CLIENT_ADDR).unwrap();
    }
    assert!(matches!(manager.handle_datagram(&pkt, CLIENT_ADDR), Ok(ManagerEvent::Nothing)));
    manager.now = manager.now.plus(Duration::from_secs(11));
    assert!(matches!(
        manager.handle_datagram(&pkt, CLIENT_ADDR),
        Ok(ManagerEvent::AppData { .. })
    ));
}

/// The lifetime of a confirmed client session is capped, if a cap is set.
#[test]
fn client_lifetime_cap_applies_to_confirmed_sessions() {
    let (cc, _sc) = shared_configs();
    let mut limits = SessionLimits::default();
    limits.lifetime_cap = Some(Duration::from_secs(60));
    let mut manager = ClientManager::new(&cc, limits).unwrap();
    let mut server = server_machine();
    let (mut srv, _) = client_handshake_with_server(&mut manager, &mut server, SERVER_ADDR);
    let pkt = srv.cover().unwrap();
    manager.handle_datagram(&pkt, SERVER_ADDR).unwrap();
    assert!(manager.is_ready());
    assert!(manager.tick(manager.now.plus(Duration::from_secs(59))).is_empty());
    let events = manager.tick(manager.now.plus(Duration::from_secs(60)));
    assert!(matches!(events[0], ManagerEvent::Closed { reason: CloseReason::LifetimeCap, .. }));
    assert!(manager.tick(manager.now).is_empty());
}

#[test]
fn limits_have_documented_defaults() {
    let l = SessionLimits::default();
    assert_eq!(l.max_sessions, 64);
    assert_eq!(l.idle_timeout, Some(Duration::from_secs(300)));
    assert_eq!(l.lifetime_cap, None);
    assert_eq!(l.liveness_timeout, Some(Duration::from_secs(30)));
    assert_eq!(l.handshake_timeout, Some(Duration::from_secs(30)));
    assert_eq!((l.fail_burst, l.max_fail_buckets), (64, 4096));
    assert_eq!(l.fail_window, Duration::from_secs(10));
}

#[test]
fn waitable_timer_ticks_are_exact() {
    assert_eq!(filetime_ticks(Duration::zero()), 116_444_736_000_000_000);
    assert_eq!(
        filetime_ticks(Duration::from_parts(1_700_000_000, 123_456_789)),
        133_444_736_001_234_567
    );
}

/// Closing twice is closing once.
#[test]
fn closing_tickets_end_the_client_session_once() {
    let mut manager = client_manager();
    let mut server = server_machine();
    client_handshake_with_server(&mut manager, &mut server, SERVER_ADDR);
    let sid = manager.session_id().unwrap();
    assert!(matches!(manager.close().unwrap(), ManagerEvent::SendPacket { .. }));
    assert!(matches!(manager.close().unwrap(), ManagerEvent::Nothing));
    assert!(matches!(manager.app_outbound(b"x"), Err(ManagerError::NoSession)));
    let events = manager.tick(manager.now);
    assert_eq!(events.len(), 1);
    assert!(matches!(
        events[0],
        ManagerEvent::Closed { sid: s, reason: CloseReason::UserClosed } if s == sid
    ));
    assert!(manager.tick(manager.now).is_empty());
}

/// A session that only sends is active: a quieter one makes room.
#[test]
fn sending_counts_as_activity_at_capacity() {
    let (cc, _sc) = shared_configs();
    let mut limits = SessionLimits::default();
    limits.max_sessions = 2;
    let mut manager = server_manager(limits);
    let (first, second, third) = ([1u8; 8], [2u8; 8], [3u8; 8]);
    established_client_session(&mut manager, &cc, first);
    let (_, mut ws2) = established_client_session(&mut manager, &cc, second);
    let pkt = ws2.encrypt(MessageType::Data, &[1; PAYLOAD_LEN]).unwrap();
    manager.handle_datagram(&pkt, CLIENT_ADDR).unwrap();
    manager.now = manager.now.plus(Duration::from_secs(1));
    assert!(matches!(
        manager.app_outbound(&first, b"x").unwrap(),
        ManagerEvent::SendPacket { .. }
    ));
    established_client_session(&mut manager, &cc, third);
    let events = manager.tick(manager.now);
    assert_eq!(events.len(), 1);
    assert!(matches!(
        events[0],
        ManagerEvent::Closed { sid, reason: CloseReason::Capacity } if sid == second
    ));
}

/// A session that only sends idles away all the same.
#[test]
fn sending_does_not_stop_idleness() {
    let (cc, _sc) = shared_configs();
    let mut limits = SessionLimits::default();
    limits.idle_timeout = Some(Duration::from_secs(10));
    let mut manager = server_manager(limits);
    established_client_session(&mut manager, &cc, SID);
    let established = manager.now;
    manager.now = established.plus(Duration::from_secs(9));
    manager.app_outbound(&SID, b"x").unwrap();
    manager.cover_packet(&SID).unwrap();
    assert_eq!(manager.tick(manager.now).len(), 0);
    let events = manager.tick(established.plus(Duration::from_secs(10)));
    assert!(matches!(
        events[0],
        ManagerEvent::Closed { sid: SID, reason: CloseReason::IdleTimeout }
    ));
}

/// One failed sealing fails the whole round, and nothing of it is sent.
#[test]
fn cover_round_fails_as_a_whole() {
    let (cc, _sc) = shared_configs();
    let mut manager = server_manager(SessionLimits::default());
    for first in [1u8, 2, 3] {
        established_client_session(&mut manager, &cc, [first; 8]);
    }
    let steps = manager.inner.cover_packet_all().unwrap();
    assert_eq!(steps.len(), 3);
    let failed = CryptoError::Failed("aead".to_string());
    let replies = steps
        .into_iter()
        .enumerate()
        .map(|(i, step)| match step {
            SealStep::Seal(t) if i == 1 => CoverReply::Sealed(t, Err(failed.clone())),
            SealStep::Seal(t) => {
                let sealed = seal(&t);
                CoverReply::Sealed(t, sealed)
            }
            SealStep::Event(e) => CoverReply::Event(e),
        })
        .collect();
    match manager.inner.on_cover_sealed(replies, manager.now) {
        Err(ManagerError::Session(SessionError::Codec(CodecError::Crypto(e)))) => {
            assert_eq!(e, failed);
        }
        _ => panic!("expected the error of the second sealing"),
    }
    assert_eq!(manager.session_count(), 3);
    let events = manager.cover_packet_all().unwrap();
    assert_eq!(events.len(), 3);
}

/// The failure budget of a source holds in a full table, too.
#[test]
fn exhausted_source_is_dropped_in_a_full_table() {
    let (cc, _sc) = shared_configs();
    let mut limits = SessionLimits::default();
    limits.max_fail_buckets = 1;
    limits.fail_burst = 1;
    let mut manager = server_manager(limits);
    let (_c, mut ws) = established_client_session(&mut manager, &cc, SID);
    let pkt = ws.encrypt(MessageType::Data, &[7; PAYLOAD_LEN]).unwrap();
    assert!(matches!(
        manager.handle_datagram(&tampered(&pkt), CLIENT_ADDR).unwrap(),
        ManagerEvent::Nothing
    ));
    for _ in 0..3 {
        assert!(matches!(
            manager.handle_datagram(&pkt, CLIENT_ADDR).unwrap(),
            ManagerEvent::Nothing
        ));
    }
    manager.now = manager.now.plus(limits.fail_window);
    assert!(matches!(
        manager.handle_datagram(&pkt, CLIENT_ADDR).unwrap(),
        ManagerEvent::AppData { .. }
    ));
}
