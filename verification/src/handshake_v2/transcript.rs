//! Transcript digests.
//!
//! ```text
//! TH1 = SHA256(domain | M1_z)
//! TH2 = SHA256(domain | M1 | M2_z)
//! TH3 = SHA256(domain | M1_z | M2_z | M3_z)
//! ```
//!
//! `_z` marks a message whose signature or MAC slot is zero-filled. Fragment
//! headers and padding are never hashed.
use crate::bytes::{append_bytes, zeros};
use crate::crypto::{sha256, sha256_of};
use crate::handshake_v2::fragment::{
    body_len, known_type, message_body_len, FINISHED_MAC_LEN, HS_TYPE_CLIENT_CONFIRM,
    HS_TYPE_CLIENT_HELLO, HS_TYPE_SERVER_HELLO, M1_BODY_LEN,
};
use crate::keys::ML_DSA_65_SIGNATURE_BYTES;
use vstd::prelude::*;
use vstd::slice::slice_to_vec;

verus! {

/// The text `pq-tunnel-v1`, hashed first.
pub const HANDSHAKE_DOMAIN: [u8; 12] = [
    0x70, 0x71, 0x2d, 0x74, 0x75, 0x6e, 0x6e, 0x65, 0x6c, 0x2d, 0x76, 0x31,
];

/// Bytes of the slot that is zeroed: the signature of M1 and M2, the MAC of
/// M3.
pub open spec fn slot_len(hs_type: u8) -> int {
    if hs_type == HS_TYPE_CLIENT_CONFIRM {
        FINISHED_MAC_LEN as int
    } else {
        ML_DSA_65_SIGNATURE_BYTES as int
    }
}

/// A message with its slot zeroed.
pub open spec fn zero_filled(hs_type: u8, message: Seq<u8>) -> Seq<u8> {
    message.subrange(0, message.len() - slot_len(hs_type)) + zeros(slot_len(hs_type) as nat)
}

pub open spec fn th1(m1: Seq<u8>) -> Seq<u8> {
    sha256_of(HANDSHAKE_DOMAIN@ + zero_filled(HS_TYPE_CLIENT_HELLO, m1))
}

pub open spec fn th2(m1: Seq<u8>, m2: Seq<u8>) -> Seq<u8> {
    sha256_of(HANDSHAKE_DOMAIN@ + m1 + zero_filled(HS_TYPE_SERVER_HELLO, m2))
}

pub open spec fn th3(m1: Seq<u8>, m2: Seq<u8>, m3: Seq<u8>) -> Seq<u8> {
    sha256_of(
        HANDSHAKE_DOMAIN@ + zero_filled(HS_TYPE_CLIENT_HELLO, m1) + zero_filled(
            HS_TYPE_SERVER_HELLO,
            m2,
        ) + zero_filled(HS_TYPE_CLIENT_CONFIRM, m3),
    )
}

/// Messages that differ at most in their signature or MAC slot have the same
/// digests, wherever that slot is zero-filled: a digest can be computed before
/// the slot is filled and checked afterwards.
pub proof fn digests_ignore_slots(
    m1: Seq<u8>,
    n1: Seq<u8>,
    m2: Seq<u8>,
    n2: Seq<u8>,
    m3: Seq<u8>,
    n3: Seq<u8>,
)
    requires
        m1.len() == n1.len() == body_len(HS_TYPE_CLIENT_HELLO),
        m2.len() == n2.len() == body_len(HS_TYPE_SERVER_HELLO),
        m3.len() == n3.len() == body_len(HS_TYPE_CLIENT_CONFIRM),
        forall|i: int| 0 <= i < m1.len() - slot_len(HS_TYPE_CLIENT_HELLO) ==> m1[i] == n1[i],
        forall|i: int| 0 <= i < m2.len() - slot_len(HS_TYPE_SERVER_HELLO) ==> m2[i] == n2[i],
        forall|i: int| 0 <= i < m3.len() - slot_len(HS_TYPE_CLIENT_CONFIRM) ==> m3[i] == n3[i],
    ensures
        th1(m1) == th1(n1),
        th2(m1, m2) == th2(m1, n2),
        th3(m1, m2, m3) == th3(n1, n2, n3),
{
    assert(zero_filled(HS_TYPE_CLIENT_HELLO, m1) =~= zero_filled(HS_TYPE_CLIENT_HELLO, n1));
    assert(zero_filled(HS_TYPE_SERVER_HELLO, m2) =~= zero_filled(HS_TYPE_SERVER_HELLO, n2));
    assert(zero_filled(HS_TYPE_CLIENT_CONFIRM, m3) =~= zero_filled(HS_TYPE_CLIENT_CONFIRM, n3));
}

/// The input of TH2 covers all of M1, its signature included, and all of M2 up
/// to its signature: two inputs are equal only if these parts are.
pub proof fn th2_input_is_injective(m1: Seq<u8>, m2: Seq<u8>, n1: Seq<u8>, n2: Seq<u8>)
    requires
        m1.len() == n1.len() == body_len(HS_TYPE_CLIENT_HELLO),
        m2.len() == n2.len() == body_len(HS_TYPE_SERVER_HELLO),
        HANDSHAKE_DOMAIN@ + m1 + zero_filled(HS_TYPE_SERVER_HELLO, m2) == HANDSHAKE_DOMAIN@ + n1
            + zero_filled(HS_TYPE_SERVER_HELLO, n2),
    ensures
        m1 == n1,
        m2.subrange(0, 2313) == n2.subrange(0, 2313),
{
    let s = HANDSHAKE_DOMAIN@ + m1 + zero_filled(HS_TYPE_SERVER_HELLO, m2);
    let t = HANDSHAKE_DOMAIN@ + n1 + zero_filled(HS_TYPE_SERVER_HELLO, n2);
    assert(s.subrange(12, 4546) =~= m1);
    assert(t.subrange(12, 4546) =~= n1);
    assert(s.subrange(4546, 6859) =~= m2.subrange(0, 2313));
    assert(t.subrange(4546, 6859) =~= n2.subrange(0, 2313));
}

/// The form of a message that is hashed: `None` for an unknown type or a
/// message of the wrong size.
pub fn canonical_zerofill(hs_type: u8, message: &[u8]) -> (r: Option<Vec<u8>>)
    ensures
        match r {
            Some(v) => known_type(hs_type) && message@.len() == body_len(hs_type) && v@
                == zero_filled(hs_type, message@),
            None => !known_type(hs_type) || message@.len() != body_len(hs_type),
        },
{
    let len: usize = match message_body_len(hs_type) {
        Some(l) => l,
        None => return None,
    };
    if message.len() != len {
        return None;
    }
    let slot: usize = if hs_type == HS_TYPE_CLIENT_CONFIRM {
        FINISHED_MAC_LEN
    } else {
        ML_DSA_65_SIGNATURE_BYTES
    };
    let mut out: Vec<u8> = slice_to_vec(message);
    let mut i: usize = len - slot;
    while i < len
        invariant
            len - slot <= i <= len,
            slot == slot_len(hs_type),
            slot <= len,
            message@.len() == len,
            out@.len() == len,
            forall|j: int| 0 <= j < len - slot ==> out@[j] == message@[j],
            forall|j: int| len - slot <= j < i ==> out@[j] == 0u8,
        decreases len - i,
    {
        out[i] = 0;
        i += 1;
    }
    assert(out@ =~= zero_filled(hs_type, message@));
    Some(out)
}

/// TH1: the digest that the client signs. The signature slot of `m1` may
/// already be filled.
pub fn th1_from_m1(m1: &[u8]) -> (r: Option<[u8; 32]>)
    ensures
        match r {
            Some(d) => m1@.len() == M1_BODY_LEN && d@ == th1(m1@),
            None => m1@.len() != M1_BODY_LEN,
        },
{
    let canon = match canonical_zerofill(HS_TYPE_CLIENT_HELLO, m1) {
        Some(c) => c,
        None => return None,
    };
    let mut input: Vec<u8> = slice_to_vec(&HANDSHAKE_DOMAIN);
    append_bytes(&mut input, canon.as_slice());
    Some(sha256(input.as_slice()))
}

/// TH2: the digest that the server signs. It covers M1 with its signature.
pub fn th2_from_m1_m2(m1_s: &[u8], m2: &[u8]) -> (r: Option<[u8; 32]>)
    ensures
        match r {
            Some(d) => m1_s@.len() == M1_BODY_LEN && m2@.len() == body_len(HS_TYPE_SERVER_HELLO)
                && d@ == th2(m1_s@, m2@),
            None => m1_s@.len() != M1_BODY_LEN || m2@.len() != body_len(HS_TYPE_SERVER_HELLO),
        },
{
    if m1_s.len() != M1_BODY_LEN {
        return None;
    }
    let m2_z = match canonical_zerofill(HS_TYPE_SERVER_HELLO, m2) {
        Some(c) => c,
        None => return None,
    };
    let mut input: Vec<u8> = slice_to_vec(&HANDSHAKE_DOMAIN);
    append_bytes(&mut input, m1_s);
    append_bytes(&mut input, m2_z.as_slice());
    Some(sha256(input.as_slice()))
}

/// TH3: bound into the master secret and into the Finished MAC.
pub fn th3_from_m1_m2_m3(m1: &[u8], m2: &[u8], m3: &[u8]) -> (r: Option<[u8; 32]>)
    ensures
        match r {
            Some(d) => m1@.len() == M1_BODY_LEN && m2@.len() == body_len(HS_TYPE_SERVER_HELLO)
                && m3@.len() == body_len(HS_TYPE_CLIENT_CONFIRM) && d@ == th3(m1@, m2@, m3@),
            None => m1@.len() != M1_BODY_LEN || m2@.len() != body_len(HS_TYPE_SERVER_HELLO)
                || m3@.len() != body_len(HS_TYPE_CLIENT_CONFIRM),
        },
{
    match (
        canonical_zerofill(HS_TYPE_CLIENT_HELLO, m1),
        canonical_zerofill(HS_TYPE_SERVER_HELLO, m2),
        canonical_zerofill(HS_TYPE_CLIENT_CONFIRM, m3),
    ) {
        (Some(m1_z), Some(m2_z), Some(m3_z)) => {
            let mut input: Vec<u8> = slice_to_vec(&HANDSHAKE_DOMAIN);
            append_bytes(&mut input, m1_z.as_slice());
            append_bytes(&mut input, m2_z.as_slice());
            append_bytes(&mut input, m3_z.as_slice());
            Some(sha256(input.as_slice()))
        },
        _ => None,
    }
}

/// The domain is the text `pq-tunnel-v1`.
pub proof fn domain_spells_its_text()
    ensures
        HANDSHAKE_DOMAIN@ == "pq-tunnel-v1"@.map_values(|c: char| c as u8),
{
    reveal_strlit("pq-tunnel-v1");
    assert(HANDSHAKE_DOMAIN@ =~= "pq-tunnel-v1"@.map_values(|c: char| c as u8));
}

/// The digests hash the domain and then the messages in order. TH1 and TH3 read
/// every signature and the MAC as zeros; TH2 reads the client's signature as it
/// is.
pub proof fn digests_hash_the_messages(m1: Seq<u8>, m2: Seq<u8>, m3: Seq<u8>)
    requires
        m1.len() == 4534,
        m2.len() == 5622,
        m3.len() == 1113,
    ensures
        ({
            let domain = "pq-tunnel-v1"@.map_values(|c: char| c as u8);
            let m1_z = m1.subrange(0, 1225) + zeros(3309);
            let m2_z = m2.subrange(0, 2313) + zeros(3309);
            let m3_z = m3.subrange(0, 1097) + zeros(16);
            &&& th1(m1) == sha256_of(domain + m1_z)
            &&& th2(m1, m2) == sha256_of(domain + m1 + m2_z)
            &&& th3(m1, m2, m3) == sha256_of(domain + m1_z + m2_z + m3_z)
        }),
{
    domain_spells_its_text();
}

/// Zeroing the slot of a message touches its last bytes only.
pub proof fn only_the_slot_is_zeroed(hs_type: u8, message: Seq<u8>)
    requires
        known_type(hs_type),
        message.len() == body_len(hs_type),
    ensures
        zero_filled(hs_type, message).len() == message.len(),
        forall|i: int|
            0 <= i < message.len() ==> #[trigger] zero_filled(hs_type, message)[i] == if i
                < message.len() - (if hs_type == HS_TYPE_CLIENT_CONFIRM {
                16int
            } else {
                3309int
            }) {
                message[i]
            } else {
                0u8
            },
{
}

} // verus!
