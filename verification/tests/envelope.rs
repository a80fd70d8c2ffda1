use pq_tunnel_core::codec::{
    is_counter_exhausted, Direction, InnerPlaintext, MessageType, PacketHeader, WirePacket,
    AEAD_TAG_LEN, HEADER_LEN, INNER_PLAINTEXT_LEN, MAX_PACKET_NONCE, PACKET_SIZE, PAYLOAD_LEN,
    PROTOCOL_VERSION, SESSION_ID_LEN,
};
use pq_tunnel_core::envelope::{CipherSession, Role, TrafficKeys};
use pq_tunnel_core::error::{CodecError, CryptoError};
use sha2::{Digest, Sha256};

fn digest(parts: &[&[u8]]) -> [u8; 32] {
    let mut h = Sha256::new();
    for p in parts {
        h.update(p);
    }
    h.finalize().into()
}

fn keystream(key: &[u8; 32], nonce: &[u8; 12], data: &[u8]) -> Vec<u8> {
    let mut out = Vec::with_capacity(data.len());
    for (i, chunk) in data.chunks(32).enumerate() {
        let block = digest(&[b"stream", key, nonce, &(i as u64).to_be_bytes()]);
        for (a, b) in chunk.iter().zip(block.iter()) {
            out.push(a ^ b);
        }
    }
    out
}

/// A stand-in for the AEAD: a hash-based stream and a hash-based tag.
fn aead_seal(key: &[u8; 32], nonce: &[u8; 12], plaintext: &[u8], aad: &[u8]) -> Vec<u8> {
    let mut out = keystream(key, nonce, plaintext);
    let tag = digest(&[b"tag", key, nonce, aad, &out]);
    out.extend_from_slice(&tag[..16]);
    out
}

fn aead_open(key: &[u8; 32], nonce: &[u8; 12], region: &[u8], aad: &[u8]) -> Option<Vec<u8>> {
    if region.len() < 16 {
        return None;
    }
    let (ct, tag) = region.split_at(region.len() - 16);
    let expected = digest(&[b"tag", key, nonce, aad, ct]);
    if &expected[..16] != tag {
        return None;
    }
    Some(keystream(key, nonce, ct))
}

/// A stand-in for the derivation of traffic keys.
fn traffic_keys(master: &[u8], sid: &[u8; 8]) -> TrafficKeys {
    let prefix = |label: &[u8]| -> [u8; 4] {
        let d = digest(&[label, master, sid]);
        [d[0], d[1], d[2], d[3]]
    };
    TrafficKeys {
        key_c2s: digest(&[b"key c2s", master, sid]),
        key_s2c: digest(&[b"key s2c", master, sid]),
        prefix_c2s: prefix(b"prefix c2s"),
        prefix_s2c: prefix(b"prefix s2c"),
    }
}

/// A session together with the work of its caller.
struct Cipher {
    session: CipherSession,
}

impl Cipher {
    fn new(role: Role, master: &[u8; 32], sid: [u8; 8]) -> Result<Cipher, CodecError> {
        let session = CipherSession::new(role, Ok(traffic_keys(master, &sid)), sid)?;
        Ok(Cipher { session })
    }

    fn encrypt(&mut self, msg_type: MessageType, payload: &[u8]) -> Result<WirePacket, CodecError> {
        let q = self.session.seal_request(msg_type, payload)?;
        let sealed = aead_seal(&q.key, q.nonce.as_bytes(), &q.plaintext, &q.aad);
        self.session.encrypt(q, Ok(sealed))
    }

    fn decrypt(&mut self, pkt: &WirePacket) -> Result<InnerPlaintext, CodecError> {
        let q = self.session.open_request(pkt)?;
        let opened = aead_open(&q.key, q.nonce.as_bytes(), &q.region, &q.aad);
        self.session.decrypt(pkt, opened)
    }

    fn send_counter(&self) -> u64 {
        self.session.send_counter()
    }

    fn recv_highest(&self) -> Option<u64> {
        self.session.recv_highest()
    }
}

fn derive_master_secret(c: &[u8; 32], s: &[u8; 32]) -> [u8; 32] {
    digest(&[b"master", c, s])
}

fn test_master() -> [u8; 32] {
    derive_master_secret(&[0x11u8; 32], &[0x22u8; 32])
}

fn test_sid() -> [u8; SESSION_ID_LEN] {
    [0xAB; SESSION_ID_LEN]
}

#[test]
fn encrypt_decrypt_roundtrip_same_role_pair() {
    let master = test_master();
    let sid = test_sid();
    let mut client = Cipher::new(Role::Client, &master, sid).unwrap();
    let mut server = Cipher::new(Role::Server, &master, sid).unwrap();

    let mut payload = [0u8; PAYLOAD_LEN];
    payload[0] = 0x42;
    payload[PAYLOAD_LEN - 1] = 0x99;

    let pkt = client
        .encrypt(MessageType::Data, &payload)
        .expect("encrypt");
    assert_eq!(pkt.as_bytes().len(), PACKET_SIZE);
    assert_eq!(pkt.parse_header().unwrap().packet_nonce, 0);

    let inner = server.decrypt(&pkt).expect("decrypt");
    assert_eq!(inner.msg_type, MessageType::Data);
    assert_eq!(inner.direction, Direction::ClientToServer);
    assert_eq!(inner.payload, payload);
    assert_eq!(server.recv_highest(), Some(0));
}

#[test]
fn send_counter_advances_monotonically() {
    let master = test_master();
    let mut client = Cipher::new(Role::Client, &master, test_sid()).unwrap();
    let mut server = Cipher::new(Role::Server, &master, test_sid()).unwrap();

    for i in 0..5u64 {
        let pkt = client
            .encrypt(MessageType::Data, &[i as u8; PAYLOAD_LEN])
            .unwrap();
        assert_eq!(pkt.parse_header().unwrap().packet_nonce, i);
        server.decrypt(&pkt).expect("decrypt");
    }
    assert_eq!(client.send_counter(), 5);
    assert_eq!(server.recv_highest(), Some(4));
}

#[test]
fn envelope_replay_rejected() {
    let master = test_master();
    let mut client = Cipher::new(Role::Client, &master, test_sid()).unwrap();
    let mut server = Cipher::new(Role::Server, &master, test_sid()).unwrap();

    let pkt = client
        .encrypt(MessageType::Data, &[0xAA; PAYLOAD_LEN])
        .unwrap();
    server.decrypt(&pkt).expect("first decrypt");
    // Same packet again -> replay -> rejected.
    let second = server.decrypt(&pkt);
    assert!(
        matches!(second, Err(CodecError::DecryptionFailed)),
        "replay must be rejected"
    );
}

#[test]
fn envelope_rollback_rejected() {
    let master = test_master();
    let mut client = Cipher::new(Role::Client, &master, test_sid()).unwrap();
    let mut server = Cipher::new(Role::Server, &master, test_sid()).unwrap();

    let p1 = client
        .encrypt(MessageType::Data, &[1u8; PAYLOAD_LEN])
        .unwrap(); // counter 0
    let p2 = client
        .encrypt(MessageType::Data, &[2u8; PAYLOAD_LEN])
        .unwrap(); // counter 1

    // Out-of-order: counter 1 arrives before counter 0.  Sliding window
    // accepts it (within window, not yet seen).
    server.decrypt(&p2).expect("decrypt counter 1");

    // Counter 0 arrives — within the window, not yet seen, passes AEAD → accepted.
    // (Unlike the old high-water-only guard, the sliding window tolerates
    // out-of-order delivery)
    server.decrypt(&p1).expect("decrypt counter 0 out-of-order");

    // Replay: counter 0 again — already in the window bitmap → rejected.
    let replay = server.decrypt(&p1);
    assert!(
        matches!(replay, Err(CodecError::DecryptionFailed)),
        "replay must be rejected"
    );
}

#[test]
fn tampered_ciphertext_rejected() {
    let master = test_master();
    let mut client = Cipher::new(Role::Client, &master, test_sid()).unwrap();
    let mut server = Cipher::new(Role::Server, &master, test_sid()).unwrap();

    let pkt = client
        .encrypt(MessageType::Data, &[0u8; PAYLOAD_LEN])
        .unwrap();
    // Flip a byte inside the AEAD ciphertext region (after header).
    let mut mangled = *pkt.as_bytes();
    mangled[HEADER_LEN] ^= 0xFF;
    let bad = WirePacket::from_bytes(&mangled).unwrap();
    let res = server.decrypt(&bad);
    assert!(res.is_err(), "tampered ciphertext must fail AEAD");
}

#[test]
fn tampered_version_rejected() {
    let master = test_master();
    let mut client = Cipher::new(Role::Client, &master, test_sid()).unwrap();
    let pkt = client
        .encrypt(MessageType::Data, &[0u8; PAYLOAD_LEN])
        .unwrap();

    let mut bytes = *pkt.as_bytes();
    bytes[0] = PROTOCOL_VERSION + 1; // version byte forged
    let bad = WirePacket::from_bytes(&bytes).unwrap();
    // parse_header checks version BEFORE AEAD, so rejection is immediate.
    assert!(matches!(
        bad.parse_header(),
        Err(CodecError::InvalidVersion { .. })
    ));
}

#[test]
fn direction_mismatch_rejected() {
    // A client-role session only ever sends/receives its role's directions.
    // Decrypting a client→server packet on a *client* session (which expects
    // server→client) must fail the direction check.
    let master = test_master();
    let mut client = Cipher::new(Role::Client, &master, test_sid()).unwrap();
    let mut other_client = Cipher::new(Role::Client, &master, test_sid()).unwrap();

    let pkt = client
        .encrypt(MessageType::Data, &[0u8; PAYLOAD_LEN])
        .unwrap();
    let res = other_client.decrypt(&pkt);
    assert!(
        matches!(res, Err(CodecError::DecryptionFailed)),
        "direction mismatch must be rejected"
    );
}

#[test]
fn nonce_exhaustion_triggers_on_threshold() {
    let master = test_master();
    let mut client = Cipher::new(Role::Client, &master, test_sid()).unwrap();
    // Fast-forward the send counter to the exhaustion threshold.
    client.session.skip_to(MAX_PACKET_NONCE);
    let res = client.encrypt(MessageType::Data, &[0u8; PAYLOAD_LEN]);
    assert!(
        matches!(res, Err(CodecError::NonceExhausted { .. })),
        "encrypt at threshold must signal rekey"
    );
}

#[test]
fn cover_traffic_roundtrips_indistinguishably_sized() {
    let master = test_master();
    let mut client = Cipher::new(Role::Client, &master, test_sid()).unwrap();
    let mut server = Cipher::new(Role::Server, &master, test_sid()).unwrap();

    let pkt = client
        .encrypt(MessageType::Cover, &[0u8; PAYLOAD_LEN])
        .unwrap();
    assert_eq!(pkt.as_bytes().len(), PACKET_SIZE); // same size as Data
    let inner = server.decrypt(&pkt).expect("decrypt cover");
    assert_eq!(inner.msg_type, MessageType::Cover);
}

#[test]
fn cipher_session_zeroizes_on_drop() {
    // Smoke-test the Drop: constructing and dropping must not panic and must
    // not retain observable nonce prefixes (we only assert no-panic + that the
    // type implements Drop with zeroization; memory-inspection is covered by the
    // WirePacket zeroize test in the codec module).
    let master = test_master();
    let mut s = Cipher::new(Role::Server, &master, test_sid()).unwrap();
    let _ = s.encrypt(MessageType::Data, &[0u8; PAYLOAD_LEN]).unwrap();
    drop(s);
}

#[test]
fn payload_length_mismatch_rejected() {
    let master = test_master();
    let mut client = Cipher::new(Role::Client, &master, test_sid()).unwrap();
    let too_short = vec![0u8; PAYLOAD_LEN - 1];
    assert!(client.encrypt(MessageType::Data, &too_short).is_err());
}

#[test]
fn reverse_duplex_roundtrip() {
    // Server→client direction (s2c). Half the traffic directions were previously
    // only exercised via rejection; this positively verifies the s2c key/prefix
    // and Direction::ServerToClient mapping.
    let master = test_master();
    let mut server = Cipher::new(Role::Server, &master, test_sid()).unwrap();
    let mut client = Cipher::new(Role::Client, &master, test_sid()).unwrap();

    let pkt = server
        .encrypt(MessageType::Data, &[0x33; PAYLOAD_LEN])
        .expect("s2c encrypt");
    assert_eq!(pkt.as_bytes().len(), PACKET_SIZE);
    let inner = client.decrypt(&pkt).expect("c2s decrypt of s2c packet");
    assert_eq!(inner.direction, Direction::ServerToClient);
    assert_eq!(inner.msg_type, MessageType::Data);
    assert_eq!(inner.payload, [0x33u8; PAYLOAD_LEN]);
}

#[test]
fn nonce_exhaustion_boundary_last_accepted_then_rejects() {
    // MAX_PACKET_NONCE - 1 is the last accepted counter; encrypting it rolls
    // send_counter to MAX_PACKET_NONCE, and the *next* encrypt must reject
    //.
    let master = test_master();
    let mut client = Cipher::new(Role::Client, &master, test_sid()).unwrap();
    client.session.skip_to(MAX_PACKET_NONCE - 1);
    let _pkt = client
        .encrypt(MessageType::Data, &[0u8; PAYLOAD_LEN])
        .expect("last-accepted encrypt");
    assert_eq!(client.send_counter(), MAX_PACKET_NONCE);
    let next = client.encrypt(MessageType::Data, &[0u8; PAYLOAD_LEN]);
    assert!(
        matches!(
            next,
            Err(CodecError::NonceExhausted {
                counter: MAX_PACKET_NONCE
            })
        ),
        "next encrypt after boundary must signal rekey"
    );
}

#[test]
fn u64_max_is_counter_exhausted() {
    // u64::MAX is past the threshold -> must be treated as exhausted so a
    // receiver can never reconstruct a nonce at the wrap boundary.
    assert!(is_counter_exhausted(u64::MAX));
    assert!(is_counter_exhausted(MAX_PACKET_NONCE));
    assert!(!is_counter_exhausted(0));
}

#[test]
fn tamper_aead_tag_rejected() {
    let master = test_master();
    let mut client = Cipher::new(Role::Client, &master, test_sid()).unwrap();
    let mut server = Cipher::new(Role::Server, &master, test_sid()).unwrap();
    let mut bytes = *client
        .encrypt(MessageType::Data, &[0u8; PAYLOAD_LEN])
        .unwrap()
        .as_bytes();
    // Flip a byte in the 16-byte AEAD tag (tail of the packet).
    bytes[PACKET_SIZE - 1] ^= 0x01;
    let bad = WirePacket::from_bytes(&bytes).unwrap();
    assert!(server.decrypt(&bad).is_err(), "tampered tag must fail AEAD");
}

#[test]
fn tamper_session_id_aad_rejected() {
    let master = test_master();
    let mut client = Cipher::new(Role::Client, &master, test_sid()).unwrap();
    let mut server = Cipher::new(Role::Server, &master, test_sid()).unwrap();
    let mut bytes = *client
        .encrypt(MessageType::Data, &[0u8; PAYLOAD_LEN])
        .unwrap()
        .as_bytes();
    // session_id is bytes [1..9] (within the 17-byte AAD); flipping it must break
    // the AEAD tag.
    bytes[3] ^= 0x01;
    let bad = WirePacket::from_bytes(&bytes).unwrap();
    assert!(
        server.decrypt(&bad).is_err(),
        "tampered session_id (AAD) must fail AEAD"
    );
}

#[test]
fn tamper_packet_counter_rejected() {
    let master = test_master();
    let mut client = Cipher::new(Role::Client, &master, test_sid()).unwrap();
    let mut server = Cipher::new(Role::Server, &master, test_sid()).unwrap();
    let mut bytes = *client
        .encrypt(MessageType::Data, &[0u8; PAYLOAD_LEN])
        .unwrap()
        .as_bytes();
    // packet_nonce occupies header bytes [9..17]; flipping it changes the
    // reconstructed AEAD nonce AND the AAD -> AEAD must fail.
    bytes[10] ^= 0x01;
    let bad = WirePacket::from_bytes(&bytes).unwrap();
    assert!(
        server.decrypt(&bad).is_err(),
        "tampered packet_nonce must fail AEAD"
    );
}

#[test]
fn version_byte_is_aad_covered() {
    // The version byte is authenticated too: it is part of the associated data
    // of every sealing and opening.
    let master = test_master();
    let mut client = Cipher::new(Role::Client, &master, test_sid()).unwrap();
    let q = client
        .session
        .seal_request(MessageType::Data, &[0u8; PAYLOAD_LEN])
        .unwrap();
    let mut aad = PacketHeader::new(test_sid(), 0).encode();
    assert_eq!(q.aad, aad);
    let ct = aead_seal(&q.key, q.nonce.as_bytes(), &q.plaintext, &q.aad);
    aad[0] = PROTOCOL_VERSION + 1;
    assert!(
        aead_open(&q.key, q.nonce.as_bytes(), &ct, &aad).is_none(),
        "version byte is part of the AAD; flipping it must break AEAD verification"
    );
    let pkt = client.session.encrypt(q, Ok(ct)).unwrap();
    let opened = client.session.open_request(&pkt).unwrap();
    assert_eq!(&opened.aad, pkt.aad());
}

#[test]
fn cross_master_decryption_fails() {
    // Key separation: a packet encrypted under master A must not decrypt
    // under master B's derived keys.
    let a = derive_master_secret(&[0x11u8; 32], &[0x22u8; 32]);
    let b = derive_master_secret(&[0x33u8; 32], &[0x44u8; 32]);
    let mut enc = Cipher::new(Role::Client, &a, test_sid()).unwrap();
    let mut dec = Cipher::new(Role::Server, &b, test_sid()).unwrap();
    let pkt = enc.encrypt(MessageType::Data, &[0u8; PAYLOAD_LEN]).unwrap();
    assert!(
        matches!(dec.decrypt(&pkt), Err(CodecError::DecryptionFailed)),
        "cross-master packet must be rejected at AEAD"
    );
}

#[test]
fn replay_rejects_backward_after_forward_jump() {
    // Accept a forward jump (0..5), then reject an earlier counter (2).
    let master = test_master();
    let mut client = Cipher::new(Role::Client, &master, test_sid()).unwrap();
    let mut server = Cipher::new(Role::Server, &master, test_sid()).unwrap();

    let mut saved_two: Option<WirePacket> = None;
    for i in 0u64..5 {
        let pkt = client
            .encrypt(MessageType::Data, &[(i as u8); PAYLOAD_LEN])
            .unwrap();
        if i == 2 {
            saved_two = Some(pkt.clone());
        }
        server.decrypt(&pkt).expect("forward accept");
    }
    assert_eq!(client.send_counter(), 5);
    assert_eq!(server.recv_highest(), Some(4));
    // counter 2 is now below the high-water and was already seen -> replay rejected.
    let two = saved_two.unwrap();
    assert!(
        matches!(server.decrypt(&two), Err(CodecError::DecryptionFailed)),
        "out-of-order lower counter must be rejected"
    );
    // The next in-order counter (5) is still accepted.
    let p5 = client
        .encrypt(MessageType::Data, &[5u8; PAYLOAD_LEN])
        .unwrap();
    server.decrypt(&p5).expect("next in-order must succeed");
}

#[test]
fn cipher_session_zeroizes_nonce_prefixes() {
    // A session drops its keys, and dropping keys erases them: `drop` is `erase`.
    let mut keys = traffic_keys(&test_master(), &test_sid());
    assert_ne!(
        keys.prefix_c2s, keys.prefix_s2c,
        "per-direction nonce prefixes must differ"
    );
    keys.erase();
    assert_eq!(keys.prefix_c2s, [0u8; 4]);
    assert_eq!(keys.prefix_s2c, [0u8; 4]);
    assert_eq!(keys.key_c2s, [0u8; 32]);
    assert_eq!(keys.key_s2c, [0u8; 32]);
}

/// `decrypt` must never panic on random valid-size packets — it should
/// always return `Ok` or `Err(CodecError::*)` without crashing.
#[test]
fn fuzz_decrypt_never_panics() {
    let master = test_master();
    let mut client = Cipher::new(Role::Client, &master, test_sid()).unwrap();
    let mut server = Cipher::new(Role::Server, &master, test_sid()).unwrap();

    let mut payload = [0u8; PAYLOAD_LEN];
    // Generate a few valid packets to mix into the fuzz corpus.
    let mut valid_packets: Vec<WirePacket> = Vec::new();
    for i in 0..10u64 {
        payload[0] = i as u8;
        let pkt = client.encrypt(MessageType::Data, &payload).unwrap();
        valid_packets.push(pkt.clone());
        server.decrypt(&pkt).expect("valid packet must decrypt");
    }

    // Feed 200 random packets + some old valid ones (replays) to decrypt.
    for _ in 0..200 {
        let mut bytes = [0u8; PACKET_SIZE];
        getrandom::fill(&mut bytes).expect("getrandom");

        // Occasionally use a real encrypted packet to exercise the accept path.
        if getrandom::u32().unwrap_or(0) % 3 == 0 {
            let idx = getrandom::u32().unwrap_or(0) as usize % valid_packets.len();
            let _ = server.decrypt(&valid_packets[idx]);
        } else {
            let pkt = WirePacket::from_bytes(&bytes).unwrap();
            let _ = server.decrypt(&pkt); // must not panic, must return Err
        }
    }
}

/// `decrypt` must collapse ALL failure types to `DecryptionFailed` except
/// `NonceExhausted` (rekey trigger).  No error variant other than these
/// two should ever escape.
#[test]
fn fuzz_decrypt_error_uniformity() {
    let master = test_master();
    let mut server = Cipher::new(Role::Server, &master, test_sid()).unwrap();

    for _ in 0..200 {
        let mut bytes = [0u8; PACKET_SIZE];
        getrandom::fill(&mut bytes).expect("getrandom");
        if let Ok(pkt) = WirePacket::from_bytes(&bytes) {
            match server.decrypt(&pkt) {
                Ok(_) => {}
                Err(e) => {
                    // Must be DecryptionFailed, NonceExhausted, or InvalidVersion
                    // (InvalidVersion is collapsed to DecryptionFailed by the version
                    // pre-filter, so it should not appear here).
                    assert!(
                        matches!(
                            e,
                            CodecError::DecryptionFailed | CodecError::NonceExhausted { .. }
                        ),
                        "unexpected error variant from decrypt: {:?}",
                        e
                    );
                }
            }
        }
    }
}

/// Tampered version byte must be rejected.
#[test]
fn negative_tampered_version_rejected() {
    let master = test_master();
    let mut client = Cipher::new(Role::Client, &master, test_sid()).unwrap();
    let mut server = Cipher::new(Role::Server, &master, test_sid()).unwrap();

    let pkt = client
        .encrypt(MessageType::Data, &[0u8; PAYLOAD_LEN])
        .unwrap();
    // Tamper with the version byte.
    let mut bytes = *pkt.as_bytes();
    bytes[0] = 0; // version 0 (should be 1)
    let bad = WirePacket::from_bytes(&bytes).unwrap();
    assert!(
        matches!(server.decrypt(&bad), Err(CodecError::DecryptionFailed)),
        "tampered version must be rejected (collapsed to DecryptionFailed)"
    );
}

/// Tampered AEAD tag must be rejected.
#[test]
fn negative_tampered_tag_rejected() {
    let master = test_master();
    let mut client = Cipher::new(Role::Client, &master, test_sid()).unwrap();
    let mut server = Cipher::new(Role::Server, &master, test_sid()).unwrap();

    let pkt = client
        .encrypt(MessageType::Data, &[0u8; PAYLOAD_LEN])
        .unwrap();
    let mut bytes = *pkt.as_bytes();
    // Flip a byte in the tag (last 16 bytes).
    bytes[PACKET_SIZE - 1] ^= 0x01;
    let bad = WirePacket::from_bytes(&bytes).unwrap();
    assert!(server.decrypt(&bad).is_err(), "tampered tag must fail AEAD");
}

/// Tampered session_id (AAD) must be rejected.
#[test]
fn negative_tampered_session_id_rejected() {
    let master = test_master();
    let mut client = Cipher::new(Role::Client, &master, test_sid()).unwrap();
    let mut server = Cipher::new(Role::Server, &master, test_sid()).unwrap();

    let pkt = client
        .encrypt(MessageType::Data, &[0u8; PAYLOAD_LEN])
        .unwrap();
    let mut bytes = *pkt.as_bytes();
    bytes[3] ^= 0x01; // session_id byte
    let bad = WirePacket::from_bytes(&bytes).unwrap();
    assert!(
        server.decrypt(&bad).is_err(),
        "tampered session_id (AAD) must fail AEAD"
    );
}

/// Tampered packet_nonce must be rejected (it's part of the nonce AND AAD).
#[test]
fn negative_tampered_counter_rejected() {
    let master = test_master();
    let mut client = Cipher::new(Role::Client, &master, test_sid()).unwrap();
    let mut server = Cipher::new(Role::Server, &master, test_sid()).unwrap();

    let pkt = client
        .encrypt(MessageType::Data, &[0u8; PAYLOAD_LEN])
        .unwrap();
    let mut bytes = *pkt.as_bytes();
    bytes[10] ^= 0x01; // packet_nonce byte
    let bad = WirePacket::from_bytes(&bytes).unwrap();
    assert!(
        server.decrypt(&bad).is_err(),
        "tampered counter must fail AEAD"
    );
}

/// Oversized packet (extra bytes) must be rejected by `from_bytes`.
#[test]
fn negative_oversized_packet_rejected() {
    let mut big = [0u8; PACKET_SIZE + 1];
    getrandom::fill(&mut big).expect("getrandom");
    assert!(
        WirePacket::from_bytes(&big).is_err(),
        "oversized packet must be rejected"
    );
}

/// Undersized packet must be rejected.
#[test]
fn negative_undersized_packet_rejected() {
    let short = [0u8; PACKET_SIZE - 1];
    assert!(
        WirePacket::from_bytes(&short).is_err(),
        "undersized packet must be rejected"
    );
}

/// Direction-flipped packet (client encrypts c2s, server tries to decrypt
/// on its own role — which expects s2c) must be rejected.
#[test]
fn negative_direction_mismatch_rejected() {
    let master = test_master();
    let mut client = Cipher::new(Role::Client, &master, test_sid()).unwrap();
    let mut other_client = Cipher::new(Role::Client, &master, test_sid()).unwrap();

    let pkt = client
        .encrypt(MessageType::Data, &[0u8; PAYLOAD_LEN])
        .unwrap();
    assert!(
        matches!(
            other_client.decrypt(&pkt),
            Err(CodecError::DecryptionFailed)
        ),
        "direction mismatch must be rejected"
    );
}

#[test]
fn sealing_needs_keys_and_a_full_region() {
    let failed = CryptoError::Failed("derivation".to_string());
    let r = CipherSession::new(Role::Client, Err(failed.clone()), test_sid());
    assert!(matches!(r, Err(CodecError::Crypto(e)) if e == failed));

    let mut client = Cipher::new(Role::Client, &test_master(), test_sid()).unwrap();
    let q = client.session.seal_request(MessageType::Data, &[7u8; PAYLOAD_LEN]).unwrap();
    let r = client.session.encrypt(q, Err(failed.clone()));
    assert!(matches!(r, Err(CodecError::Crypto(e)) if e == failed));
    assert_eq!(client.send_counter(), 0);

    let q = client.session.seal_request(MessageType::Data, &[7u8; PAYLOAD_LEN]).unwrap();
    let r = client.session.encrypt(q, Ok(vec![0u8; INNER_PLAINTEXT_LEN]));
    assert!(matches!(
        r,
        Err(CodecError::Truncated { field: "aead_region", min: 1263, got: INNER_PLAINTEXT_LEN })
    ));
    assert_eq!(client.send_counter(), 0);
    assert_eq!(INNER_PLAINTEXT_LEN + AEAD_TAG_LEN, 1263);
}

#[test]
fn every_packet_has_its_own_nonce() {
    let mut client = Cipher::new(Role::Client, &test_master(), test_sid()).unwrap();
    let mut nonces = Vec::new();
    for i in 0..10u64 {
        let q = client.session.seal_request(MessageType::Data, &[0u8; PAYLOAD_LEN]).unwrap();
        let mut expected = traffic_keys(&test_master(), &test_sid()).prefix_c2s.to_vec();
        expected.extend_from_slice(&i.to_be_bytes());
        assert_eq!(q.nonce.as_bytes().to_vec(), expected);
        assert!(!nonces.contains(q.nonce.as_bytes()));
        nonces.push(*q.nonce.as_bytes());
        client.encrypt(MessageType::Data, &[0u8; PAYLOAD_LEN]).unwrap();
    }
    // A counter is never moved back.
    client.session.skip_to(3);
    assert_eq!(client.send_counter(), 10);
}

#[test]
fn authentic_packet_at_the_threshold_asks_for_fresh_keys() {
    let master = test_master();
    let mut server = Cipher::new(Role::Server, &master, test_sid()).unwrap();
    let keys = traffic_keys(&master, &test_sid());
    let header = PacketHeader::new(test_sid(), MAX_PACKET_NONCE).encode();
    let mut nonce = [0u8; 12];
    nonce[..4].copy_from_slice(&keys.prefix_c2s);
    nonce[4..].copy_from_slice(&MAX_PACKET_NONCE.to_be_bytes());
    let inner =
        InnerPlaintext::new(MessageType::Data, Direction::ClientToServer, &[0u8; PAYLOAD_LEN])
            .unwrap();
    let region = aead_seal(&keys.key_c2s, &nonce, &inner.encode(), &header);
    let pkt = WirePacket::from_parts(&header, &region).unwrap();
    assert!(matches!(
        server.decrypt(&pkt),
        Err(CodecError::NonceExhausted { counter: MAX_PACKET_NONCE })
    ));
    // A forged one does not.
    let mut bytes = *pkt.as_bytes();
    bytes[PACKET_SIZE - 1] ^= 1;
    let forged = WirePacket::from_bytes(&bytes).unwrap();
    assert!(matches!(server.decrypt(&forged), Err(CodecError::DecryptionFailed)));
}

#[test]
fn authentic_garbage_is_rejected_like_a_forgery() {
    let master = test_master();
    let mut server = Cipher::new(Role::Server, &master, test_sid()).unwrap();
    let keys = traffic_keys(&master, &test_sid());
    for (counter, msg, dir) in [(0u64, 0x99u8, 0u8), (1, 1, 9), (2, 1, 1)] {
        let header = PacketHeader::new(test_sid(), counter).encode();
        let mut nonce = [0u8; 12];
        nonce[..4].copy_from_slice(&keys.prefix_c2s);
        nonce[4..].copy_from_slice(&counter.to_be_bytes());
        let mut plain = [0u8; INNER_PLAINTEXT_LEN];
        plain[0] = msg;
        plain[1] = dir;
        let region = aead_seal(&keys.key_c2s, &nonce, &plain, &header);
        let pkt = WirePacket::from_parts(&header, &region).unwrap();
        assert!(matches!(server.decrypt(&pkt), Err(CodecError::DecryptionFailed)));
        // The counter of an authentic packet is used up all the same.
        assert_eq!(server.recv_highest(), Some(counter));
    }
}

#[test]
fn reflected_packet_is_rejected_even_if_it_opens() {
    let master = test_master();
    let mut client = Cipher::new(Role::Client, &master, test_sid()).unwrap();
    let q = client.session.seal_request(MessageType::Data, &[3u8; PAYLOAD_LEN]).unwrap();
    let plaintext = q.plaintext.to_vec();
    let sealed = aead_seal(&q.key, q.nonce.as_bytes(), &q.plaintext, &q.aad);
    let pkt = client.session.encrypt(q, Ok(sealed)).unwrap();
    assert!(matches!(
        client.session.decrypt(&pkt, Some(plaintext)),
        Err(CodecError::DecryptionFailed)
    ));
    assert!(matches!(client.decrypt(&pkt), Err(CodecError::DecryptionFailed)));
}
