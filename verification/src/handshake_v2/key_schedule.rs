//! Key schedule.
//!
//! ```text
//! master          = HKDF(ikm = ssA | ssB | dh, salt = 0^32,
//!                        info = "pq-tunnel-master-v2" | version | sid | TH3)
//! finished_key    = HKDF(ikm = master, salt = 0^32,
//!                        info = "pq-tunnel-finished-v1" | version | sid)
//! client_finished = first 16 bytes of HMAC-SHA256(finished_key, TH3)
//! ```
use crate::bytes::{append_bytes, take_array, wipe, zeros};
use crate::codec::SESSION_ID_LEN;
use crate::crypto::{hkdf_sha256, hkdf_sha256_of, hmac_sha256, hmac_sha256_of};
use crate::handshake_v2::fragment::FINISHED_MAC_LEN;
use crate::keys::{MasterSecret, Secret32, SharedSecret};
use vstd::prelude::*;
use vstd::slice::slice_to_vec;

verus! {

/// The text `pq-tunnel-master-v2`.
pub const MASTER_LABEL: [u8; 19] = [
    0x70, 0x71, 0x2d, 0x74, 0x75, 0x6e, 0x6e, 0x65, 0x6c, 0x2d, 0x6d, 0x61, 0x73, 0x74, 0x65, 0x72,
    0x2d, 0x76, 0x32,
];

/// The text `pq-tunnel-finished-v1`.
pub const FINISHED_LABEL: [u8; 21] = [
    0x70, 0x71, 0x2d, 0x74, 0x75, 0x6e, 0x6e, 0x65, 0x6c, 0x2d, 0x66, 0x69, 0x6e, 0x69, 0x73, 0x68,
    0x65, 0x64, 0x2d, 0x76, 0x31,
];

/// The master secret of a session.
pub open spec fn master_of(
    ss_a: Seq<u8>,
    ss_b: Seq<u8>,
    dh: Seq<u8>,
    version: u8,
    sid: Seq<u8>,
    th3: Seq<u8>,
) -> Seq<u8> {
    hkdf_sha256_of(
        zeros(32),
        ss_a + ss_b + dh,
        MASTER_LABEL@ + seq![version] + sid + th3,
    )
}

/// The key of the Finished MAC.
pub open spec fn finished_key_of(master: Seq<u8>, version: u8, sid: Seq<u8>) -> Seq<u8> {
    hkdf_sha256_of(zeros(32), master, FINISHED_LABEL@ + seq![version] + sid)
}

/// The Finished MAC.
pub open spec fn finished_of(master: Seq<u8>, version: u8, sid: Seq<u8>, th3: Seq<u8>) -> Seq<u8> {
    hmac_sha256_of(finished_key_of(master, version, sid), th3).subrange(0, 16)
}

/// Derives the master secret. The staging buffer is erased.
pub fn derive_master(
    ss_a: &SharedSecret,
    ss_b: &SharedSecret,
    dh: &SharedSecret,
    version: u8,
    sid: &[u8; SESSION_ID_LEN],
    th3: &[u8; 32],
) -> (r: MasterSecret)
    ensures
        r@ == master_of(ss_a@, ss_b@, dh@, version, sid@, th3@),
{
    let salt = [0u8; 32];
    assert(salt@ =~= zeros(32));
    let mut ikm: Vec<u8> = slice_to_vec(ss_a.as_bytes());
    append_bytes(&mut ikm, ss_b.as_bytes());
    append_bytes(&mut ikm, dh.as_bytes());
    let mut info: Vec<u8> = slice_to_vec(&MASTER_LABEL);
    info.push(version);
    append_bytes(&mut info, sid);
    append_bytes(&mut info, th3);
    assert(info@ =~= MASTER_LABEL@ + seq![version] + sid@ + th3@);
    let okm = hkdf_sha256(&salt, ikm.as_slice(), info.as_slice());
    wipe(ikm.as_mut_slice());
    Secret32::from_bytes(okm)
}

/// Derives the key of the Finished MAC.
pub fn derive_finished_key(
    master: &MasterSecret,
    version: u8,
    sid: &[u8; SESSION_ID_LEN],
) -> (r: Secret32)
    ensures
        r@ == finished_key_of(master@, version, sid@),
{
    let salt = [0u8; 32];
    assert(salt@ =~= zeros(32));
    let mut info: Vec<u8> = slice_to_vec(&FINISHED_LABEL);
    info.push(version);
    append_bytes(&mut info, sid);
    assert(info@ =~= FINISHED_LABEL@ + seq![version] + sid@);
    Secret32::from_bytes(hkdf_sha256(&salt, master.as_bytes(), info.as_slice()))
}

/// Computes the Finished MAC of a master secret.
pub fn compute_client_finished(
    master: &MasterSecret,
    version: u8,
    sid: &[u8; SESSION_ID_LEN],
    th3: &[u8; 32],
) -> (r: [u8; FINISHED_MAC_LEN])
    ensures
        r@ == finished_of(master@, version, sid@, th3@),
{
    let key = derive_finished_key(master, version, sid);
    let mac = hmac_sha256(key.as_bytes(), th3);
    take_array(&mac, 0)
}

/// The labels are the texts `pq-tunnel-master-v2` and `pq-tunnel-finished-v1`.
pub proof fn labels_spell_their_texts()
    ensures
        MASTER_LABEL@ == "pq-tunnel-master-v2"@.map_values(|c: char| c as u8),
        FINISHED_LABEL@ == "pq-tunnel-finished-v1"@.map_values(|c: char| c as u8),
{
    reveal_strlit("pq-tunnel-master-v2");
    reveal_strlit("pq-tunnel-finished-v1");
    assert(MASTER_LABEL@ =~= "pq-tunnel-master-v2"@.map_values(|c: char| c as u8));
    assert(FINISHED_LABEL@ =~= "pq-tunnel-finished-v1"@.map_values(|c: char| c as u8));
}

/// The master secret is a hybrid: its key material is both encapsulated secrets
/// and the Diffie-Hellman secret, in this order, and it is bound to the version,
/// the session and the transcript.
pub proof fn master_is_a_hybrid(
    ss_a: Seq<u8>,
    ss_b: Seq<u8>,
    dh: Seq<u8>,
    version: u8,
    sid: Seq<u8>,
    th3: Seq<u8>,
)
    ensures
        master_of(ss_a, ss_b, dh, version, sid, th3) == hkdf_sha256_of(
            zeros(32),
            ss_a + ss_b + dh,
            "pq-tunnel-master-v2"@.map_values(|c: char| c as u8) + seq![version] + sid + th3,
        ),
{
    labels_spell_their_texts();
}

/// The Finished MAC is the first half of the HMAC of the transcript under a key
/// that is derived from the master secret, the version and the session.
pub proof fn finished_is_keyed_by_the_master(
    master: Seq<u8>,
    version: u8,
    sid: Seq<u8>,
    th3: Seq<u8>,
)
    ensures
        finished_of(master, version, sid, th3) == hmac_sha256_of(
            hkdf_sha256_of(
                zeros(32),
                master,
                "pq-tunnel-finished-v1"@.map_values(|c: char| c as u8) + seq![version] + sid,
            ),
            th3,
        ).subrange(0, 16),
{
    labels_spell_their_texts();
}

} // verus!
