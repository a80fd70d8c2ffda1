//! Byte layouts of the three handshake messages.
use crate::bytes::{lemma_array_ext, take_array, write_at, zeros};
use crate::codec::{PROTOCOL_VERSION, SESSION_ID_LEN};
use crate::error::CodecError;
use crate::handshake_v2::fragment::{
    FINISHED_MAC_LEN, M1_BODY_LEN, M2_BODY_LEN, M3_BODY_LEN, X25519_PUBLIC_KEY_BYTES,
};
use crate::keys::{
    MlDsaSignature, MlKemCiphertext, MlKemPublicKey, ML_DSA_65_SIGNATURE_BYTES,
    ML_KEM_768_PUBLIC_KEY_BYTES,
};
use vstd::prelude::*;

verus! {

/// Layout of a ClientHello.
pub open spec fn m1_layout(version: u8, sid: Seq<u8>, pk: Seq<u8>, x: Seq<u8>, sig: Seq<u8>) -> Seq<
    u8,
> {
    seq![version] + sid + pk + x + sig
}

/// Layout of a ServerHello.
pub open spec fn m2_layout(
    version: u8,
    sid: Seq<u8>,
    pk: Seq<u8>,
    x: Seq<u8>,
    ct: Seq<u8>,
    sig: Seq<u8>,
) -> Seq<u8> {
    seq![version] + sid + pk + x + ct + sig
}

/// Layout of a ClientConfirm.
pub open spec fn m3_layout(version: u8, sid: Seq<u8>, ct: Seq<u8>, mac: Seq<u8>) -> Seq<u8> {
    seq![version] + sid + ct + mac
}

/// The bytes of a signature slot: zeros while there is no signature.
pub open spec fn sig_slot(sig: Option<&MlDsaSignature>) -> Seq<u8> {
    match sig {
        Some(s) => s.bytes@,
        None => zeros(ML_DSA_65_SIGNATURE_BYTES as nat),
    }
}

/// The bytes of a MAC slot: zeros while there is no MAC.
pub open spec fn mac_slot(mac: Option<&[u8; FINISHED_MAC_LEN]>) -> Seq<u8> {
    match mac {
        Some(m) => m@,
        None => zeros(FINISHED_MAC_LEN as nat),
    }
}

/// What decoding a message of size `len` reports when it fails.
pub open spec fn message_error(name: &'static str, len: usize, data: Seq<u8>) -> CodecError {
    if data.len() != len {
        CodecError::Truncated { field: name, min: len, got: data.len() as usize }
    } else {
        CodecError::InvalidVersion { expected: PROTOCOL_VERSION, found: data[0] }
    }
}

/// A message of the right size and version.
pub open spec fn well_sized(len: usize, data: Seq<u8>) -> bool {
    data.len() == len && data[0] == PROTOCOL_VERSION
}

/// Encodes a ClientHello; without a signature its slot is zero.
pub fn encode_m1(
    version: u8,
    sid: &[u8; SESSION_ID_LEN],
    eph_pk_c: &MlKemPublicKey,
    x_c: &[u8; X25519_PUBLIC_KEY_BYTES],
    sig: Option<&MlDsaSignature>,
) -> (r: [u8; M1_BODY_LEN])
    ensures
        r@ == m1_layout(version, sid@, eph_pk_c.bytes@, x_c@, sig_slot(sig)),
{
    let mut out = [0u8; M1_BODY_LEN];
    out[0] = version;
    write_at(&mut out, 1, sid);
    write_at(&mut out, 9, &eph_pk_c.bytes);
    write_at(&mut out, 9 + ML_KEM_768_PUBLIC_KEY_BYTES, x_c);
    if let Some(s) = sig {
        write_at(&mut out, M1_BODY_LEN - ML_DSA_65_SIGNATURE_BYTES, &s.bytes);
    }
    assert(out@ =~= m1_layout(version, sid@, eph_pk_c.bytes@, x_c@, sig_slot(sig)));
    out
}

/// Encodes a ServerHello; without a signature its slot is zero.
pub fn encode_m2(
    version: u8,
    sid: &[u8; SESSION_ID_LEN],
    eph_pk_s: &MlKemPublicKey,
    x_s: &[u8; X25519_PUBLIC_KEY_BYTES],
    ct2: &MlKemCiphertext,
    sig: Option<&MlDsaSignature>,
) -> (r: [u8; M2_BODY_LEN])
    ensures
        r@ == m2_layout(version, sid@, eph_pk_s.bytes@, x_s@, ct2.bytes@, sig_slot(sig)),
{
    let mut out = [0u8; M2_BODY_LEN];
    out[0] = version;
    write_at(&mut out, 1, sid);
    write_at(&mut out, 9, &eph_pk_s.bytes);
    write_at(&mut out, 9 + ML_KEM_768_PUBLIC_KEY_BYTES, x_s);
    write_at(&mut out, 9 + ML_KEM_768_PUBLIC_KEY_BYTES + X25519_PUBLIC_KEY_BYTES, &ct2.bytes);
    if let Some(s) = sig {
        write_at(&mut out, M2_BODY_LEN - ML_DSA_65_SIGNATURE_BYTES, &s.bytes);
    }
    assert(out@ =~= m2_layout(
        version,
        sid@,
        eph_pk_s.bytes@,
        x_s@,
        ct2.bytes@,
        sig_slot(sig),
    ));
    out
}

/// Encodes a ClientConfirm; without a MAC its slot is zero.
pub fn encode_m3(
    version: u8,
    sid: &[u8; SESSION_ID_LEN],
    ct3: &MlKemCiphertext,
    finished: Option<&[u8; FINISHED_MAC_LEN]>,
) -> (r: [u8; M3_BODY_LEN])
    ensures
        r@ == m3_layout(version, sid@, ct3.bytes@, mac_slot(finished)),
{
    let mut out = [0u8; M3_BODY_LEN];
    out[0] = version;
    write_at(&mut out, 1, sid);
    write_at(&mut out, 9, &ct3.bytes);
    if let Some(m) = finished {
        write_at(&mut out, M3_BODY_LEN - FINISHED_MAC_LEN, m);
    }
    assert(out@ =~= m3_layout(version, sid@, ct3.bytes@, mac_slot(finished)));
    out
}

/// M1.
#[derive(Clone, Copy, PartialEq, Eq)]
pub struct ClientHello {
    pub version: u8,
    pub sid: [u8; SESSION_ID_LEN],
    pub eph_pk_c: MlKemPublicKey,
    pub x_c: [u8; X25519_PUBLIC_KEY_BYTES],
    pub client_sig: MlDsaSignature,
}

impl ClientHello {
    pub open spec fn encoding(self) -> Seq<u8> {
        m1_layout(self.version, self.sid@, self.eph_pk_c.bytes@, self.x_c@, self.client_sig.bytes@)
    }

    pub fn encode(&self) -> (r: [u8; M1_BODY_LEN])
        ensures
            r@ == self.encoding(),
    {
        encode_m1(self.version, &self.sid, &self.eph_pk_c, &self.x_c, Some(&self.client_sig))
    }

    /// Strict decoding: exact length, then the version.
    pub fn decode(data: &[u8]) -> (r: Result<Self, CodecError>)
        ensures
            match r {
                Ok(m) => well_sized(M1_BODY_LEN, data@) && m.encoding() == data@,
                Err(e) => !well_sized(M1_BODY_LEN, data@) && e == message_error(
                    "ClientHello",
                    M1_BODY_LEN,
                    data@,
                ),
            },
    {
        if data.len() != M1_BODY_LEN {
            return Err(
                CodecError::Truncated { field: "ClientHello", min: M1_BODY_LEN, got: data.len() },
            );
        }
        let version: u8 = data[0];
        if version != PROTOCOL_VERSION {
            return Err(CodecError::InvalidVersion { expected: PROTOCOL_VERSION, found: version });
        }
        let m = ClientHello {
            version,
            sid: take_array(data, 1),
            eph_pk_c: MlKemPublicKey { bytes: take_array(data, 9) },
            x_c: take_array(data, 9 + ML_KEM_768_PUBLIC_KEY_BYTES),
            client_sig: MlDsaSignature {
                bytes: take_array(data, M1_BODY_LEN - ML_DSA_65_SIGNATURE_BYTES),
            },
        };
        assert(m.encoding() =~= data@);
        Ok(m)
    }
}

/// M2.
#[derive(Clone, Copy, PartialEq, Eq)]
pub struct ServerHello {
    pub version: u8,
    pub sid: [u8; SESSION_ID_LEN],
    pub eph_pk_s: MlKemPublicKey,
    pub x_s: [u8; X25519_PUBLIC_KEY_BYTES],
    pub ct2: MlKemCiphertext,
    pub server_sig: MlDsaSignature,
}

impl ServerHello {
    pub open spec fn encoding(self) -> Seq<u8> {
        m2_layout(
            self.version,
            self.sid@,
            self.eph_pk_s.bytes@,
            self.x_s@,
            self.ct2.bytes@,
            self.server_sig.bytes@,
        )
    }

    pub fn encode(&self) -> (r: [u8; M2_BODY_LEN])
        ensures
            r@ == self.encoding(),
    {
        encode_m2(
            self.version,
            &self.sid,
            &self.eph_pk_s,
            &self.x_s,
            &self.ct2,
            Some(&self.server_sig),
        )
    }

    /// Strict decoding: exact length, then the version.
    pub fn decode(data: &[u8]) -> (r: Result<Self, CodecError>)
        ensures
            match r {
                Ok(m) => well_sized(M2_BODY_LEN, data@) && m.encoding() == data@,
                Err(e) => !well_sized(M2_BODY_LEN, data@) && e == message_error(
                    "ServerHello",
                    M2_BODY_LEN,
                    data@,
                ),
            },
    {
        if data.len() != M2_BODY_LEN {
            return Err(
                CodecError::Truncated { field: "ServerHello", min: M2_BODY_LEN, got: data.len() },
            );
        }
        let version: u8 = data[0];
        if version != PROTOCOL_VERSION {
            return Err(CodecError::InvalidVersion { expected: PROTOCOL_VERSION, found: version });
        }
        let m = ServerHello {
            version,
            sid: take_array(data, 1),
            eph_pk_s: MlKemPublicKey { bytes: take_array(data, 9) },
            x_s: take_array(data, 9 + ML_KEM_768_PUBLIC_KEY_BYTES),
            ct2: MlKemCiphertext {
                bytes: take_array(data, 9 + ML_KEM_768_PUBLIC_KEY_BYTES + X25519_PUBLIC_KEY_BYTES),
            },
            server_sig: MlDsaSignature {
                bytes: take_array(data, M2_BODY_LEN - ML_DSA_65_SIGNATURE_BYTES),
            },
        };
        assert(m.encoding() =~= data@);
        Ok(m)
    }
}

/// M3.
#[derive(Clone, Copy, PartialEq, Eq)]
pub struct ClientConfirm {
    pub version: u8,
    pub sid: [u8; SESSION_ID_LEN],
    pub ct3: MlKemCiphertext,
    pub client_finished: [u8; FINISHED_MAC_LEN],
}

impl ClientConfirm {
    pub open spec fn encoding(self) -> Seq<u8> {
        m3_layout(self.version, self.sid@, self.ct3.bytes@, self.client_finished@)
    }

    pub fn encode(&self) -> (r: [u8; M3_BODY_LEN])
        ensures
            r@ == self.encoding(),
    {
        encode_m3(self.version, &self.sid, &self.ct3, Some(&self.client_finished))
    }

    /// Strict decoding: exact length, then the version.
    pub fn decode(data: &[u8]) -> (r: Result<Self, CodecError>)
        ensures
            match r {
                Ok(m) => well_sized(M3_BODY_LEN, data@) && m.encoding() == data@,
                Err(e) => !well_sized(M3_BODY_LEN, data@) && e == message_error(
                    "ClientConfirm",
                    M3_BODY_LEN,
                    data@,
                ),
            },
    {
        if data.len() != M3_BODY_LEN {
            return Err(
                CodecError::Truncated { field: "ClientConfirm", min: M3_BODY_LEN, got: data.len() },
            );
        }
        let version: u8 = data[0];
        if version != PROTOCOL_VERSION {
            return Err(CodecError::InvalidVersion { expected: PROTOCOL_VERSION, found: version });
        }
        let m = ClientConfirm {
            version,
            sid: take_array(data, 1),
            ct3: MlKemCiphertext { bytes: take_array(data, 9) },
            client_finished: take_array(data, M3_BODY_LEN - FINISHED_MAC_LEN),
        };
        assert(m.encoding() =~= data@);
        Ok(m)
    }
}

/// A ClientHello is determined by its bytes: decoding what was encoded gives
/// the same message, and it has the size of an M1.
pub proof fn client_hello_roundtrip(a: ClientHello, b: ClientHello)
    ensures
        a.encoding().len() == M1_BODY_LEN,
        a.version == PROTOCOL_VERSION ==> well_sized(M1_BODY_LEN, a.encoding()),
        a.encoding() == b.encoding() ==> a == b,
{
    let (s, t) = (a.encoding(), b.encoding());
    if s == t {
        assert(s[0] == a.version && t[0] == b.version);
        assert(s.subrange(1, 9) =~= a.sid@ && t.subrange(1, 9) =~= b.sid@);
        assert(s.subrange(9, 1193) =~= a.eph_pk_c.bytes@ && t.subrange(9, 1193)
            =~= b.eph_pk_c.bytes@);
        assert(s.subrange(1193, 1225) =~= a.x_c@ && t.subrange(1193, 1225) =~= b.x_c@);
        assert(s.subrange(1225, 4534) =~= a.client_sig.bytes@ && t.subrange(1225, 4534)
            =~= b.client_sig.bytes@);
        lemma_array_ext(a.sid, b.sid);
        lemma_array_ext(a.eph_pk_c.bytes, b.eph_pk_c.bytes);
        lemma_array_ext(a.x_c, b.x_c);
        lemma_array_ext(a.client_sig.bytes, b.client_sig.bytes);
    }
}

/// A ServerHello is determined by its bytes.
pub proof fn server_hello_roundtrip(a: ServerHello, b: ServerHello)
    ensures
        a.encoding().len() == M2_BODY_LEN,
        a.version == PROTOCOL_VERSION ==> well_sized(M2_BODY_LEN, a.encoding()),
        a.encoding() == b.encoding() ==> a == b,
{
    let (s, t) = (a.encoding(), b.encoding());
    if s == t {
        assert(s[0] == a.version && t[0] == b.version);
        assert(s.subrange(1, 9) =~= a.sid@ && t.subrange(1, 9) =~= b.sid@);
        assert(s.subrange(9, 1193) =~= a.eph_pk_s.bytes@ && t.subrange(9, 1193)
            =~= b.eph_pk_s.bytes@);
        assert(s.subrange(1193, 1225) =~= a.x_s@ && t.subrange(1193, 1225) =~= b.x_s@);
        assert(s.subrange(1225, 2313) =~= a.ct2.bytes@ && t.subrange(1225, 2313) =~= b.ct2.bytes@);
        assert(s.subrange(2313, 5622) =~= a.server_sig.bytes@ && t.subrange(2313, 5622)
            =~= b.server_sig.bytes@);
        lemma_array_ext(a.sid, b.sid);
        lemma_array_ext(a.eph_pk_s.bytes, b.eph_pk_s.bytes);
        lemma_array_ext(a.x_s, b.x_s);
        lemma_array_ext(a.ct2.bytes, b.ct2.bytes);
        lemma_array_ext(a.server_sig.bytes, b.server_sig.bytes);
    }
}

/// A ClientConfirm is determined by its bytes.
pub proof fn client_confirm_roundtrip(a: ClientConfirm, b: ClientConfirm)
    ensures
        a.encoding().len() == M3_BODY_LEN,
        a.version == PROTOCOL_VERSION ==> well_sized(M3_BODY_LEN, a.encoding()),
        a.encoding() == b.encoding() ==> a == b,
{
    let (s, t) = (a.encoding(), b.encoding());
    if s == t {
        assert(s[0] == a.version && t[0] == b.version);
        assert(s.subrange(1, 9) =~= a.sid@ && t.subrange(1, 9) =~= b.sid@);
        assert(s.subrange(9, 1097) =~= a.ct3.bytes@ && t.subrange(9, 1097) =~= b.ct3.bytes@);
        assert(s.subrange(1097, 1113) =~= a.client_finished@ && t.subrange(1097, 1113)
            =~= b.client_finished@);
        lemma_array_ext(a.sid, b.sid);
        lemma_array_ext(a.ct3.bytes, b.ct3.bytes);
        lemma_array_ext(a.client_finished, b.client_finished);
    }
}

/// The parts of a ClientHello stand at fixed places: version, session, ML-KEM
/// key, X25519 key, signature.
pub proof fn client_hello_layout(m: ClientHello)
    ensures
        m.encoding().len() == 4534,
        m.encoding()[0] == m.version,
        m.encoding().subrange(1, 9) == m.sid@,
        m.encoding().subrange(9, 1193) == m.eph_pk_c.bytes@,
        m.encoding().subrange(1193, 1225) == m.x_c@,
        m.encoding().subrange(1225, 4534) == m.client_sig.bytes@,
{
    let s = m.encoding();
    assert(s.subrange(1, 9) =~= m.sid@);
    assert(s.subrange(9, 1193) =~= m.eph_pk_c.bytes@);
    assert(s.subrange(1193, 1225) =~= m.x_c@);
    assert(s.subrange(1225, 4534) =~= m.client_sig.bytes@);
}

/// The parts of a ServerHello stand at fixed places: version, session, ML-KEM
/// key, X25519 key, ciphertext, signature.
pub proof fn server_hello_layout(m: ServerHello)
    ensures
        m.encoding().len() == 5622,
        m.encoding()[0] == m.version,
        m.encoding().subrange(1, 9) == m.sid@,
        m.encoding().subrange(9, 1193) == m.eph_pk_s.bytes@,
        m.encoding().subrange(1193, 1225) == m.x_s@,
        m.encoding().subrange(1225, 2313) == m.ct2.bytes@,
        m.encoding().subrange(2313, 5622) == m.server_sig.bytes@,
{
    let s = m.encoding();
    assert(s.subrange(1, 9) =~= m.sid@);
    assert(s.subrange(9, 1193) =~= m.eph_pk_s.bytes@);
    assert(s.subrange(1193, 1225) =~= m.x_s@);
    assert(s.subrange(1225, 2313) =~= m.ct2.bytes@);
    assert(s.subrange(2313, 5622) =~= m.server_sig.bytes@);
}

/// The parts of a ClientConfirm stand at fixed places: version, session,
/// ciphertext, MAC.
pub proof fn client_confirm_layout(m: ClientConfirm)
    ensures
        m.encoding().len() == 1113,
        m.encoding()[0] == m.version,
        m.encoding().subrange(1, 9) == m.sid@,
        m.encoding().subrange(9, 1097) == m.ct3.bytes@,
        m.encoding().subrange(1097, 1113) == m.client_finished@,
{
    let s = m.encoding();
    assert(s.subrange(1, 9) =~= m.sid@);
    assert(s.subrange(9, 1097) =~= m.ct3.bytes@);
    assert(s.subrange(1097, 1113) =~= m.client_finished@);
}

/// A slot that is not filled yet is zero, and only the size and the version of a
/// message decide whether it can be decoded; the size is checked first.
pub proof fn decoding_checks_size_then_version(name: &'static str, len: usize, data: Seq<u8>)
    ensures
        sig_slot(None) == zeros(3309),
        mac_slot(None) == zeros(16),
        well_sized(len, data) <==> data.len() == len && data[0] == 1,
        data.len() != len ==> (message_error(name, len, data) matches CodecError::Truncated {
            field,
            min,
            got,
        } && field == name && min == len && got == data.len() as usize),
        data.len() == len ==> (message_error(name, len, data) matches CodecError::InvalidVersion {
            expected,
            found,
        } && expected == 1 && found == data[0]),
{
}

} // verus!
