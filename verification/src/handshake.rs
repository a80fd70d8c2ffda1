//! The first handshake, over a reliable stream.
//!
//! Every packet on the stream has 8192 bytes. The two hellos and the
//! confirmation are followed by one dummy packet; after that the same size
//! carries data and cover.
//!
//! ```text
//! ClientHello: 0x01 | sid(8) | kem_pk(1184) | dsa_pk(1952) | x25519(32) | nonce(32)
//!              | sig_len(2) | sig
//! ServerHello: 0x02 | sid(8) | kem_ct(1088) | sig(3309) | x25519(32) | nonce(32)
//!              | dsa_pk(1952)
//! Confirm:     0x03 | SHA-256("pq-tunnel-confirm-v2" | secret | nonce)
//! ```
//!
//! The session secret is HKDF over the exclusive or of the ML-KEM secret and
//! the X25519 secret, with the session identifier as salt. The caller does the
//! ML-KEM and ML-DSA work and moves the packets.
use crate::bytes::{append_bytes, take_array, wipe, zeros};
use crate::crypto::{
    ct_eq, hkdf_sha256, hkdf_sha256_of, random_array, random_failure, sha256, sha256_of,
    x25519, x25519_of,
};
use crate::error::CryptoError;
use crate::keys::Secret32;
use crate::time::Duration;
use vstd::prelude::*;
use vstd::slice::slice_to_vec;
use vstd::string::StringExecFns;

verus! {

/// Bytes of every packet on the stream.
pub const PACKET_SIZE: usize = 8192;

/// Most bytes of a payload.
pub const MAX_PAYLOAD_PER_PACKET: usize = 8192;

/// The size that data, cover and dummy packets share.
pub const UNIFORM_PACKET_SIZE: usize = 8192;

/// Errors of the handshake.
#[derive(Debug, Clone, PartialEq, Eq)]
pub enum HandshakeError {
    /// The stream failed.
    Io(String),
    /// The peer broke the protocol.
    Protocol(String),
    /// A signature is not valid.
    VerificationFailed,
    /// A cryptographic failure.
    Crypto(String),
}

/// The result of a completed handshake. The secret is erased on drop.
pub struct HandshakeResult {
    pub shared_secret: [u8; 32],
    pub peer_ml_dsa_key: [u8; 1952],
    pub session_id: [u8; 8],
    pub handshake_duration_ms: u64,
}

impl HandshakeResult {
    /// A second copy of the result.
    pub fn duplicate(&self) -> (r: Self)
        ensures
            r == *self,
    {
        HandshakeResult {
            shared_secret: self.shared_secret,
            peer_ml_dsa_key: self.peer_ml_dsa_key,
            session_id: self.session_id,
            handshake_duration_ms: self.handshake_duration_ms,
        }
    }

    /// Overwrites the secret with zeros.
    pub fn erase(&mut self)
        ensures
            final(self).shared_secret@ == zeros(32),
            final(self).peer_ml_dsa_key == old(self).peer_ml_dsa_key,
            final(self).session_id == old(self).session_id,
            final(self).handshake_duration_ms == old(self).handshake_duration_ms,
        opens_invariants none
        no_unwind
    {
        wipe(&mut self.shared_secret);
    }
}

impl Drop for HandshakeResult {
    fn drop(&mut self)
        opens_invariants none
        no_unwind
    {
        self.erase();
    }
}

/// The first byte of a packet. These codes are not those of the data path.
#[derive(Debug, Clone, Copy, PartialEq, Eq, Structural)]
pub enum MsgType {
    ClientHello,
    ServerHello,
    Confirm,
    Dummy,
    Data,
    Cover,
}

impl MsgType {
    /// The byte on the stream.
    pub open spec fn code(self) -> u8 {
        match self {
            MsgType::ClientHello => 0x01,
            MsgType::ServerHello => 0x02,
            MsgType::Confirm => 0x03,
            MsgType::Dummy => 0x00,
            MsgType::Data => 0x10,
            MsgType::Cover => 0x11,
        }
    }

    /// The byte on the stream.
    pub fn as_u8(self) -> (r: u8)
        ensures
            r == self.code(),
    {
        match self {
            MsgType::ClientHello => 0x01,
            MsgType::ServerHello => 0x02,
            MsgType::Confirm => 0x03,
            MsgType::Dummy => 0x00,
            MsgType::Data => 0x10,
            MsgType::Cover => 0x11,
        }
    }
}

/// No two kinds of packet share a code.
pub proof fn kinds_are_distinct(a: MsgType, b: MsgType)
    ensures
        a.code() == b.code() ==> a == b,
{
}

/// `N` random bytes, if the random source works.
pub fn rand_bytes<const N: usize>() -> (r: Result<[u8; N], CryptoError>)
    ensures
        r matches Err(e) ==> random_failure(e),
        N == 0 ==> r is Ok,
{
    random_array::<N>()
}

/// A payload on the stream: cut at the packet size, or followed by zeros.
pub open spec fn padded_packet(payload: Seq<u8>) -> Seq<u8> {
    if payload.len() >= PACKET_SIZE {
        payload.subrange(0, PACKET_SIZE as int)
    } else {
        payload + zeros((PACKET_SIZE - payload.len()) as nat)
    }
}

/// Every packet has the same size, and a payload that fits is its beginning.
pub proof fn packets_are_uniform(payload: Seq<u8>)
    ensures
        padded_packet(payload).len() == PACKET_SIZE,
        payload.len() <= PACKET_SIZE ==> padded_packet(payload).subrange(0, payload.len() as int)
            == payload,
{
    if payload.len() <= PACKET_SIZE {
        assert(padded_packet(payload).subrange(0, payload.len() as int) =~= payload);
    }
}

/// Brings a payload to the packet size.
pub fn pad_packet(payload: &[u8]) -> (r: Vec<u8>)
    ensures
        r@ == padded_packet(payload@),
{
    let mut pkt: Vec<u8> = Vec::new();
    let mut i: usize = 0;
    while i < PACKET_SIZE
        invariant
            i <= PACKET_SIZE,
            pkt@.len() == i,
            forall|j: int|
                0 <= j < i ==> pkt@[j] == if j < payload@.len() {
                    payload@[j]
                } else {
                    0u8
                },
        decreases PACKET_SIZE - i,
    {
        if i < payload.len() {
            pkt.push(payload[i]);
        } else {
            pkt.push(0);
        }
        i += 1;
    }
    assert(pkt@ =~= padded_packet(payload@));
    pkt
}

/// The text `pq-tunnel-hkdf-v1`.
pub const HKDF_LABEL: [u8; 17] = [
    0x70, 0x71, 0x2d, 0x74, 0x75, 0x6e, 0x6e, 0x65, 0x6c, 0x2d, 0x68, 0x6b, 0x64, 0x66, 0x2d, 0x76,
    0x31,
];

/// The text `pq-tunnel-confirm-v2`.
pub const CONFIRM_LABEL: [u8; 20] = [
    0x70, 0x71, 0x2d, 0x74, 0x75, 0x6e, 0x6e, 0x65, 0x6c, 0x2d, 0x63, 0x6f, 0x6e, 0x66, 0x69, 0x72,
    0x6d, 0x2d, 0x76, 0x32,
];

/// Derives the session secret from a hybrid secret.
pub fn hkdf_derive(input: &[u8; 32], salt: &[u8; 8]) -> (r: [u8; 32])
    ensures
        r@ == hkdf_sha256_of(salt@, input@, HKDF_LABEL@),
{
    hkdf_sha256(salt, input, &HKDF_LABEL)
}

/// What a client proves knowledge of the secret with.
pub open spec fn confirm_of(secret: Seq<u8>, nonce: Seq<u8>) -> Seq<u8> {
    sha256_of(CONFIRM_LABEL@ + secret + nonce)
}

/// What a client proves knowledge of the secret with.
pub fn build_confirm_ct(secret: &[u8; 32], nonce: &[u8; 32]) -> (r: [u8; 32])
    ensures
        r@ == confirm_of(secret@, nonce@),
{
    let mut input: Vec<u8> = Vec::new();
    append_bytes(&mut input, &CONFIRM_LABEL);
    append_bytes(&mut input, secret);
    append_bytes(&mut input, nonce);
    assert(input@ =~= CONFIRM_LABEL@ + secret@ + nonce@);
    let r = sha256(&input);
    wipe(input.as_mut_slice());
    r
}

/// The bytes of a ClientHello. The length of the signature is written in two
/// bytes, its lowest sixteen bits.
pub open spec fn client_hello_layout(
    sid: Seq<u8>,
    kem_pk: Seq<u8>,
    dsa_pk: Seq<u8>,
    x25519: Seq<u8>,
    nonce: Seq<u8>,
    sig: Seq<u8>,
) -> Seq<u8> {
    seq![MsgType::ClientHello.code()] + sid + kem_pk + dsa_pk + x25519 + nonce + seq![
        (sig.len() / 256 % 256) as u8,
        (sig.len() % 256) as u8,
    ] + sig
}

/// The bytes of a ServerHello.
pub open spec fn server_hello_layout(
    sid: Seq<u8>,
    kem_ct: Seq<u8>,
    sig: Seq<u8>,
    x25519: Seq<u8>,
    nonce: Seq<u8>,
    dsa_pk: Seq<u8>,
) -> Seq<u8> {
    seq![MsgType::ServerHello.code()] + sid + kem_ct + sig + x25519 + nonce + dsa_pk
}

/// Encodes a ClientHello.
pub fn serialize_client_hello(
    sid: &[u8; 8],
    nonce: &[u8; 32],
    kem_pk: &[u8; 1184],
    dsa_pk: &[u8; 1952],
    x25519: &[u8; 32],
    sig: &[u8],
) -> (r: Vec<u8>)
    ensures
        r@ == client_hello_layout(sid@, kem_pk@, dsa_pk@, x25519@, nonce@, sig@),
{
    let n: usize = sig.len();
    let mut buf: Vec<u8> = Vec::new();
    buf.push(MsgType::ClientHello.as_u8());
    append_bytes(&mut buf, sid);
    append_bytes(&mut buf, kem_pk);
    append_bytes(&mut buf, dsa_pk);
    append_bytes(&mut buf, x25519);
    append_bytes(&mut buf, nonce);
    buf.push((n / 256 % 256) as u8);
    buf.push((n % 256) as u8);
    append_bytes(&mut buf, sig);
    assert(buf@ =~= client_hello_layout(sid@, kem_pk@, dsa_pk@, x25519@, nonce@, sig@));
    buf
}

/// Encodes a ServerHello.
pub fn serialize_server_hello(
    sid: &[u8; 8],
    nonce: &[u8; 32],
    x25519: &[u8; 32],
    dsa_pk: &[u8; 1952],
    kem_ct: &[u8],
    dsa_sig: &[u8],
) -> (r: Vec<u8>)
    ensures
        r@ == server_hello_layout(sid@, kem_ct@, dsa_sig@, x25519@, nonce@, dsa_pk@),
{
    let mut buf: Vec<u8> = Vec::new();
    buf.push(MsgType::ServerHello.as_u8());
    append_bytes(&mut buf, sid);
    append_bytes(&mut buf, kem_ct);
    append_bytes(&mut buf, dsa_sig);
    append_bytes(&mut buf, x25519);
    append_bytes(&mut buf, nonce);
    append_bytes(&mut buf, dsa_pk);
    assert(buf@ =~= server_hello_layout(sid@, kem_ct@, dsa_sig@, x25519@, nonce@, dsa_pk@));
    buf
}

/// The signature length that a ClientHello announces.
pub open spec fn announced(data: Seq<u8>) -> int {
    data[3209] as int * 256 + data[3210] as int
}

/// A ClientHello that is long enough for the signature that it announces, or
/// too short to announce one.
pub open spec fn signature_fits(data: Seq<u8>) -> bool {
    data.len() >= 3211 ==> 3211 + announced(data) <= data.len()
}

/// Whether the signature that a ClientHello announces is there.
pub fn client_hello_fits(data: &[u8]) -> (r: bool)
    ensures
        r == signature_fits(data@),
{
    if data.len() < 3211 {
        return true;
    }
    let sig_len: usize = data[3209] as usize * 256 + data[3210] as usize;
    sig_len <= data.len() - 3211
}

/// Decodes a ClientHello: identifier, ML-KEM key, ML-DSA key, X25519 key, nonce
/// and signature.
pub fn deserialize_client_hello(data: &[u8]) -> (r: Result<
    ([u8; 8], Vec<u8>, Vec<u8>, [u8; 32], [u8; 32], Vec<u8>),
    HandshakeError,
>)
    requires
        signature_fits(data@),
    ensures
        match r {
            Ok(t) => {
                &&& data@.len() >= 3211
                &&& t.0@ == data@.subrange(1, 9)
                &&& t.1@ == data@.subrange(9, 1193)
                &&& t.2@ == data@.subrange(1193, 3145)
                &&& t.3@ == data@.subrange(3145, 3177)
                &&& t.4@ == data@.subrange(3177, 3209)
                &&& t.5@ == data@.subrange(3211, 3211 + announced(data@))
            },
            Err(e) => data@.len() < 3211 && (e matches HandshakeError::Protocol(s) && s@
                == "short client hello"@),
        },
{
    if data.len() < 3211 {
        return Err(HandshakeError::Protocol(String::from_str("short client hello")));
    }
    let sid: [u8; 8] = take_array(data, 1);
    let kem_pk = slice_to_vec(&data[9..1193]);
    let dsa_pk = slice_to_vec(&data[1193..3145]);
    let x: [u8; 32] = take_array(data, 3145);
    let nonce: [u8; 32] = take_array(data, 3177);
    let sig_len: usize = data[3209] as usize * 256 + data[3210] as usize;
    let sig = slice_to_vec(&data[3211..3211 + sig_len]);
    Ok((sid, kem_pk, dsa_pk, x, nonce, sig))
}

/// Decodes a ServerHello: identifier, ML-KEM ciphertext, signature, X25519 key,
/// nonce and ML-DSA key.
pub fn deserialize_server_hello(data: &[u8]) -> (r: Result<
    ([u8; 8], Vec<u8>, Vec<u8>, [u8; 32], [u8; 32], Vec<u8>),
    HandshakeError,
>)
    ensures
        match r {
            Ok(t) => {
                &&& data@.len() >= 6422
                &&& t.0@ == data@.subrange(1, 9)
                &&& t.1@ == data@.subrange(9, 1097)
                &&& t.2@ == data@.subrange(1097, 4406)
                &&& t.3@ == data@.subrange(4406, 4438)
                &&& t.4@ == data@.subrange(4438, 4470)
                &&& t.5@ == data@.subrange(4470, 6422)
            },
            Err(e) => data@.len() < 6422 && (e matches HandshakeError::Protocol(s) && s@
                == "short server hello"@),
        },
{
    if data.len() < 6422 {
        return Err(HandshakeError::Protocol(String::from_str("short server hello")));
    }
    let sid: [u8; 8] = take_array(data, 1);
    let kem_ct = slice_to_vec(&data[9..1097]);
    let dsa_sig = slice_to_vec(&data[1097..4406]);
    let x: [u8; 32] = take_array(data, 4406);
    let nonce: [u8; 32] = take_array(data, 4438);
    let dsa_pk = slice_to_vec(&data[4470..6422]);
    Ok((sid, kem_ct, dsa_sig, x, nonce, dsa_pk))
}

/// What was written into a ClientHello is read back, also from its packet.
pub proof fn client_hello_reads_back(
    sid: Seq<u8>,
    kem_pk: Seq<u8>,
    dsa_pk: Seq<u8>,
    x: Seq<u8>,
    nonce: Seq<u8>,
    sig: Seq<u8>,
)
    requires
        sid.len() == 8,
        kem_pk.len() == 1184,
        dsa_pk.len() == 1952,
        x.len() == 32,
        nonce.len() == 32,
        sig.len() <= 4981,
    ensures
        ({
            let d = padded_packet(client_hello_layout(sid, kem_pk, dsa_pk, x, nonce, sig));
            &&& d[0] == MsgType::ClientHello.code()
            &&& d.subrange(1, 9) == sid
            &&& d.subrange(9, 1193) == kem_pk
            &&& d.subrange(1193, 3145) == dsa_pk
            &&& d.subrange(3145, 3177) == x
            &&& d.subrange(3177, 3209) == nonce
            &&& announced(d) == sig.len()
            &&& signature_fits(d)
            &&& d.subrange(3211, 3211 + announced(d)) == sig
        }),
{
    let d = padded_packet(client_hello_layout(sid, kem_pk, dsa_pk, x, nonce, sig));
    assert(d.subrange(1, 9) =~= sid);
    assert(d.subrange(9, 1193) =~= kem_pk);
    assert(d.subrange(1193, 3145) =~= dsa_pk);
    assert(d.subrange(3145, 3177) =~= x);
    assert(d.subrange(3177, 3209) =~= nonce);
    assert(d[3209] == (sig.len() / 256 % 256) as u8);
    assert(d[3210] == (sig.len() % 256) as u8);
    assert(announced(d) == sig.len());
    assert(d.subrange(3211, 3211 + sig.len() as int) =~= sig);
}

/// What was written into a ServerHello is read back, also from its packet.
pub proof fn server_hello_reads_back(
    sid: Seq<u8>,
    kem_ct: Seq<u8>,
    sig: Seq<u8>,
    x: Seq<u8>,
    nonce: Seq<u8>,
    dsa_pk: Seq<u8>,
)
    requires
        sid.len() == 8,
        kem_ct.len() == 1088,
        sig.len() == 3309,
        x.len() == 32,
        nonce.len() == 32,
        dsa_pk.len() == 1952,
    ensures
        ({
            let d = padded_packet(server_hello_layout(sid, kem_ct, sig, x, nonce, dsa_pk));
            &&& d[0] == MsgType::ServerHello.code()
            &&& d.subrange(1, 9) == sid
            &&& d.subrange(9, 1097) == kem_ct
            &&& d.subrange(1097, 4406) == sig
            &&& d.subrange(4406, 4438) == x
            &&& d.subrange(4438, 4470) == nonce
            &&& d.subrange(4470, 6422) == dsa_pk
        }),
{
    let d = padded_packet(server_hello_layout(sid, kem_ct, sig, x, nonce, dsa_pk));
    assert(d.subrange(1, 9) =~= sid);
    assert(d.subrange(9, 1097) =~= kem_ct);
    assert(d.subrange(1097, 4406) =~= sig);
    assert(d.subrange(4406, 4438) =~= x);
    assert(d.subrange(4438, 4470) =~= nonce);
    assert(d.subrange(4470, 6422) =~= dsa_pk);
}

/// Bytewise exclusive or.
pub open spec fn xor(a: Seq<u8>, b: Seq<u8>) -> Seq<u8> {
    Seq::new(a.len(), |i: int| a[i] ^ b[i])
}

/// The session secret of an ML-KEM secret, an X25519 secret and a session.
pub open spec fn session_secret(kem: Seq<u8>, ecdh: Seq<u8>, sid: Seq<u8>) -> Seq<u8> {
    hkdf_sha256_of(sid, xor(kem, ecdh), HKDF_LABEL@)
}

/// Combines the two secrets and derives the session secret. The combination is
/// erased.
pub fn derive_session_secret(
    kem: &Secret32,
    own: &Secret32,
    peer: &[u8; 32],
    sid: &[u8; 8],
) -> (r: [u8; 32])
    ensures
        r@ == session_secret(kem@, x25519_of(own@, peer@), sid@),
{
    let ecdh = Secret32::from_bytes(x25519(own.as_bytes(), peer));
    let a = kem.as_bytes();
    let b = ecdh.as_bytes();
    let mut hybrid = [0u8; 32];
    let mut i: usize = 0;
    while i < 32
        invariant
            i <= 32,
            forall|j: int| 0 <= j < i ==> #[trigger] hybrid@[j] == a@[j] ^ b@[j],
        decreases 32 - i,
    {
        hybrid[i] = a[i] ^ b[i];
        i += 1;
    }
    assert(hybrid@ =~= xor(a@, b@));
    let secret = hkdf_derive(&hybrid, sid);
    wipe(&mut hybrid);
    secret
}

/// What a client signs: the session and its nonce.
pub fn client_signed(sid: &[u8; 8], nonce: &[u8; 32]) -> (r: Vec<u8>)
    ensures
        r@ == sid@ + nonce@,
{
    let mut m: Vec<u8> = Vec::new();
    append_bytes(&mut m, sid);
    append_bytes(&mut m, nonce);
    assert(m@ =~= sid@ + nonce@);
    m
}

/// What a server signs: the session, its nonce and the client's X25519 key.
pub fn server_signed(sid: &[u8; 8], nonce: &[u8; 32], client_x: &[u8; 32]) -> (r: Vec<u8>)
    ensures
        r@ == sid@ + nonce@ + client_x@,
{
    let mut m: Vec<u8> = Vec::new();
    append_bytes(&mut m, sid);
    append_bytes(&mut m, nonce);
    append_bytes(&mut m, client_x);
    assert(m@ =~= sid@ + nonce@ + client_x@);
    m
}

/// A server goes on with the verdict on the client's signature: what it signs
/// itself. A client whose signature is not valid is refused.
pub fn server_admit(sid: &[u8; 8], nonce: &[u8; 32], client_x: &[u8; 32], valid: bool) -> (r:
    Result<Vec<u8>, HandshakeError>)
    ensures
        if valid {
            r matches Ok(m) && m@ == sid@ + nonce@ + client_x@
        } else {
            r == Err::<Vec<u8>, HandshakeError>(HandshakeError::VerificationFailed)
        },
{
    if !valid {
        return Err(HandshakeError::VerificationFailed);
    }
    Ok(server_signed(sid, nonce, client_x))
}

/// What a client takes from a ServerHello.
pub struct ServerAnswer {
    pub kem_ct: Vec<u8>,
    pub dsa_sig: Vec<u8>,
    pub x25519: [u8; 32],
    pub nonce: [u8; 32],
    pub dsa_pk: Vec<u8>,
}

/// A client reads the server's packet: it must belong to the session.
pub fn client_accept(sid: &[u8; 8], packet: &[u8]) -> (r: Result<ServerAnswer, HandshakeError>)
    ensures
        match r {
            Ok(a) => {
                &&& packet@.len() >= 6422
                &&& packet@.subrange(1, 9) == sid@
                &&& a.kem_ct@ == packet@.subrange(9, 1097)
                &&& a.dsa_sig@ == packet@.subrange(1097, 4406)
                &&& a.x25519@ == packet@.subrange(4406, 4438)
                &&& a.nonce@ == packet@.subrange(4438, 4470)
                &&& a.dsa_pk@ == packet@.subrange(4470, 6422)
            },
            Err(e) => e matches HandshakeError::Protocol(s) && if packet@.len() < 6422 {
                s@ == "short server hello"@
            } else {
                packet@.subrange(1, 9) != sid@ && s@ == "session_id mismatch"@
            },
        },
{
    let (got, kem_ct, dsa_sig, x, nonce, dsa_pk) = match deserialize_server_hello(packet) {
        Ok(t) => t,
        Err(e) => return Err(e),
    };
    if !ct_eq(&got, sid) {
        return Err(HandshakeError::Protocol(String::from_str("session_id mismatch")));
    }
    Ok(ServerAnswer { kem_ct, dsa_sig, x25519: x, nonce, dsa_pk })
}

/// A client goes on with the decapsulated secret and the verdict on the
/// server's signature: the session secret and the packet that confirms it.
pub fn client_confirm(
    sid: &[u8; 8],
    own: &Secret32,
    answer: &ServerAnswer,
    kem: &Secret32,
    valid: bool,
) -> (r: Result<([u8; 32], Vec<u8>), HandshakeError>)
    ensures
        if valid {
            let secret = session_secret(kem@, x25519_of(own@, answer.x25519@), sid@);
            &&& r matches Ok(t)
            &&& t.0@ == secret
            &&& t.1@ == padded_packet(
                seq![MsgType::Confirm.code()] + confirm_of(secret, answer.nonce@),
            )
        } else {
            r == Err::<([u8; 32], Vec<u8>), HandshakeError>(HandshakeError::VerificationFailed)
        },
{
    if !valid {
        return Err(HandshakeError::VerificationFailed);
    }
    let secret = derive_session_secret(kem, own, &answer.x25519, sid);
    let confirm = build_confirm_ct(&secret, &answer.nonce);
    let mut payload: Vec<u8> = Vec::new();
    payload.push(MsgType::Confirm.as_u8());
    append_bytes(&mut payload, &confirm);
    assert(payload@ =~= seq![MsgType::Confirm.code()] + confirm_of(secret@, answer.nonce@));
    Ok((secret, pad_packet(&payload)))
}

/// A packet that confirms `secret` under `nonce`.
pub open spec fn confirms(packet: Seq<u8>, secret: Seq<u8>, nonce: Seq<u8>) -> bool {
    packet[0] == MsgType::Confirm.code() && packet.subrange(1, 33) == confirm_of(secret, nonce)
}

/// A server checks the confirmation of a client.
pub fn server_check_confirm(packet: &[u8], secret: &[u8; 32], nonce: &[u8; 32]) -> (r: Result<
    (),
    HandshakeError,
>)
    requires
        packet@.len() >= 33,
    ensures
        match r {
            Ok(_) => confirms(packet@, secret@, nonce@),
            Err(e) => !confirms(packet@, secret@, nonce@) && (e matches HandshakeError::Protocol(s)
                && if packet@[0] != MsgType::Confirm.code() {
                s@ == "expected Confirm"@
            } else {
                s@ == "confirm mismatch"@
            }),
        },
{
    if packet[0] != MsgType::Confirm.as_u8() {
        return Err(HandshakeError::Protocol(String::from_str("expected Confirm")));
    }
    let got: [u8; 32] = take_array(packet, 1);
    let expected = build_confirm_ct(secret, nonce);
    if !ct_eq(&got, &expected) {
        return Err(HandshakeError::Protocol(String::from_str("confirm mismatch")));
    }
    Ok(())
}

/// The two sides agree: a server that encapsulated the secret that the client
/// decapsulated, and whose Diffie-Hellman secret is the client's, derives the
/// client's session secret and accepts its confirmation.
pub proof fn confirmation_is_accepted(
    kem: Seq<u8>,
    client: Seq<u8>,
    client_public: Seq<u8>,
    server: Seq<u8>,
    server_public: Seq<u8>,
    sid: Seq<u8>,
    nonce: Seq<u8>,
    packet: Seq<u8>,
)
    requires
        x25519_of(client, server_public) == x25519_of(server, client_public),
        ({
            let c = confirm_of(session_secret(kem, x25519_of(client, server_public), sid), nonce);
            c.len() == 32 && packet == padded_packet(seq![MsgType::Confirm.code()] + c)
        }),
    ensures
        session_secret(kem, x25519_of(client, server_public), sid) == session_secret(
            kem,
            x25519_of(server, client_public),
            sid,
        ),
        confirms(packet, session_secret(kem, x25519_of(server, client_public), sid), nonce),
{
    let c = confirm_of(session_secret(kem, x25519_of(client, server_public), sid), nonce);
    assert(packet.subrange(1, 33) =~= c);
}

/// What both ends hand over in the end. The peer's key must have the length of
/// an ML-DSA-65 key. The duration is kept in milliseconds, modulo 2^64.
pub fn handshake_result(
    secret: [u8; 32],
    dsa_pk: &[u8],
    sid: [u8; 8],
    took: Duration,
) -> (r: Result<HandshakeResult, HandshakeError>)
    ensures
        match r {
            Ok(h) => {
                &&& dsa_pk@.len() == 1952
                &&& h.shared_secret == secret
                &&& h.peer_ml_dsa_key@ == dsa_pk@
                &&& h.session_id == sid
                &&& h.handshake_duration_ms == (took.nanos() / 1_000_000) as u64
            },
            Err(e) => dsa_pk@.len() != 1952 && (e matches HandshakeError::Protocol(s) && s@
                == "bad dsa key len"@),
        },
{
    if dsa_pk.len() != 1952 {
        return Err(HandshakeError::Protocol(String::from_str("bad dsa key len")));
    }
    let key: [u8; 1952] = take_array(dsa_pk, 0);
    assert(key@ =~= dsa_pk@);
    Ok(
        HandshakeResult {
            shared_secret: secret,
            peer_ml_dsa_key: key,
            session_id: sid,
            handshake_duration_ms: took.as_millis() as u64,
        },
    )
}

/// A data packet: what does not fit is cut off.
pub fn data_packet(data: &[u8]) -> (r: Vec<u8>)
    ensures
        r@ == padded_packet(seq![MsgType::Data.code()] + data@),
{
    let mut payload: Vec<u8> = Vec::new();
    payload.push(MsgType::Data.as_u8());
    append_bytes(&mut payload, data);
    assert(payload@ =~= seq![MsgType::Data.code()] + data@);
    pad_packet(&payload)
}

/// The bytes of a data packet, padding and all.
pub fn parse_data_packet(packet: &[u8]) -> (r: Result<Vec<u8>, HandshakeError>)
    ensures
        match r {
            Ok(d) => packet@.len() > 0 && packet@[0] == MsgType::Data.code() && d@
                == packet@.subrange(1, packet@.len() as int),
            Err(e) => (packet@.len() == 0 || packet@[0] != MsgType::Data.code()) && (
            e matches HandshakeError::Protocol(s) && s@ == "not a data packet"@),
        },
{
    if packet.len() == 0 || packet[0] != MsgType::Data.as_u8() {
        return Err(HandshakeError::Protocol(String::from_str("not a data packet")));
    }
    Ok(slice_to_vec(&packet[1..packet.len()]))
}

/// A cover packet with the given filling.
pub fn cover_packet_with(fill: &[u8; 128]) -> (r: Vec<u8>)
    ensures
        r@ == padded_packet(seq![MsgType::Cover.code()] + fill@),
{
    let mut payload: Vec<u8> = Vec::new();
    payload.push(MsgType::Cover.as_u8());
    append_bytes(&mut payload, fill);
    assert(payload@ =~= seq![MsgType::Cover.code()] + fill@);
    pad_packet(&payload)
}

/// A cover packet with a random filling.
pub fn cover_packet() -> (r: Result<Vec<u8>, CryptoError>)
    ensures
        match r {
            Ok(p) => exists|fill: Seq<u8>|
                fill.len() == 128 && p@ == #[trigger] padded_packet(
                    seq![MsgType::Cover.code()] + fill,
                ),
            Err(e) => random_failure(e),
        },
{
    match rand_bytes::<128>() {
        Ok(fill) => Ok(cover_packet_with(&fill)),
        Err(e) => Err(e),
    }
}

/// A dummy packet.
pub fn dummy_packet() -> (r: Vec<u8>)
    ensures
        r@ == zeros(PACKET_SIZE as nat),
{
    let mut payload: Vec<u8> = Vec::new();
    payload.push(MsgType::Dummy.as_u8());
    let r = pad_packet(&payload);
    assert(r@ =~= zeros(PACKET_SIZE as nat));
    r
}

/// Data comes back with its padding: the bytes that were sent, then zeros.
pub proof fn data_reads_back(data: Seq<u8>)
    requires
        data.len() < PACKET_SIZE,
    ensures
        ({
            let p = padded_packet(seq![MsgType::Data.code()] + data);
            &&& p[0] == MsgType::Data.code()
            &&& p.subrange(1, PACKET_SIZE as int) == data + zeros(
                (PACKET_SIZE - 1 - data.len()) as nat,
            )
        }),
{
    let p = padded_packet(seq![MsgType::Data.code()] + data);
    assert(p.subrange(1, PACKET_SIZE as int) =~= data + zeros(
        (PACKET_SIZE - 1 - data.len()) as nat,
    ));
}

/// A packet is the payload, cut at the packet size, and zeros after it.
pub proof fn padding_is_zero(payload: Seq<u8>)
    ensures
        padded_packet(payload).len() == 8192,
        forall|i: int|
            0 <= i < 8192 ==> #[trigger] padded_packet(payload)[i] == if i < payload.len() {
                payload[i]
            } else {
                0u8
            },
{
}

/// The kinds of packet have their codes.
pub proof fn kinds_are_numbered()
    ensures
        MsgType::Dummy.code() == 0,
        MsgType::ClientHello.code() == 1,
        MsgType::ServerHello.code() == 2,
        MsgType::Confirm.code() == 3,
        MsgType::Data.code() == 16,
        MsgType::Cover.code() == 17,
{
}

/// The labels are the texts `pq-tunnel-hkdf-v1` and `pq-tunnel-confirm-v2`.
pub proof fn labels_spell_their_texts()
    ensures
        HKDF_LABEL@ == "pq-tunnel-hkdf-v1"@.map_values(|c: char| c as u8),
        CONFIRM_LABEL@ == "pq-tunnel-confirm-v2"@.map_values(|c: char| c as u8),
{
    reveal_strlit("pq-tunnel-hkdf-v1");
    reveal_strlit("pq-tunnel-confirm-v2");
    assert(HKDF_LABEL@ =~= "pq-tunnel-hkdf-v1"@.map_values(|c: char| c as u8));
    assert(CONFIRM_LABEL@ =~= "pq-tunnel-confirm-v2"@.map_values(|c: char| c as u8));
}

/// The session secret is a hybrid: it is derived from the exclusive or of both
/// secrets, salted with the session; and the confirmation is the digest of that
/// secret and the server's nonce.
pub proof fn session_secret_is_a_hybrid(
    kem: Seq<u8>,
    ecdh: Seq<u8>,
    sid: Seq<u8>,
    secret: Seq<u8>,
    nonce: Seq<u8>,
)
    requires
        kem.len() == 32,
        ecdh.len() == 32,
    ensures
        session_secret(kem, ecdh, sid) == hkdf_sha256_of(
            sid,
            Seq::new(32, |i: int| kem[i] ^ ecdh[i]),
            "pq-tunnel-hkdf-v1"@.map_values(|c: char| c as u8),
        ),
        confirm_of(secret, nonce) == sha256_of(
            "pq-tunnel-confirm-v2"@.map_values(|c: char| c as u8) + secret + nonce,
        ),
{
    labels_spell_their_texts();
    assert(xor(kem, ecdh) =~= Seq::new(32, |i: int| kem[i] ^ ecdh[i]));
}

/// Neither secret can be left out of the combination: with one of them fixed, the
/// combination determines the other one.
pub proof fn combination_is_injective(kem: Seq<u8>, other: Seq<u8>, ecdh: Seq<u8>)
    requires
        kem.len() == other.len() == ecdh.len(),
        xor(kem, ecdh) == xor(other, ecdh) || xor(ecdh, kem) == xor(ecdh, other),
    ensures
        kem == other,
{
    assert forall|i: int| 0 <= i < kem.len() implies kem[i] == other[i] by {
        assert(xor(kem, ecdh)[i] == kem[i] ^ ecdh[i] && xor(other, ecdh)[i] == other[i] ^ ecdh[i]);
        assert(xor(ecdh, kem)[i] == ecdh[i] ^ kem[i] && xor(ecdh, other)[i] == ecdh[i] ^ other[i]);
        let (a, b, c) = (kem[i], other[i], ecdh[i]);
        assert((a ^ c == b ^ c || c ^ a == c ^ b) ==> a == b) by (bit_vector);
    }
    assert(kem =~= other);
}

/// A packet confirms a secret exactly if it is a confirmation and carries the
/// digest of that secret and the nonce.
pub proof fn confirmation_carries_the_digest(packet: Seq<u8>, secret: Seq<u8>, nonce: Seq<u8>)
    requires
        packet.len() >= 33,
    ensures
        confirms(packet, secret, nonce) <==> packet[0] == 3 && packet.subrange(1, 33) == sha256_of(
            "pq-tunnel-confirm-v2"@.map_values(|c: char| c as u8) + secret + nonce,
        ),
{
    labels_spell_their_texts();
}

/// The length that a hello announces is written in two bytes, the higher one
/// first; the signature fits exactly if that many bytes follow.
pub proof fn announced_length_decides(data: Seq<u8>)
    requires
        data.len() >= 3211,
    ensures
        announced(data) == 256 * data[3209] + data[3210],
        signature_fits(data) <==> data.len() - 3211 >= 256 * data[3209] + data[3210],
{
}

} // verus!
