//! Key material as plain bytes.
//!
//! Public values are fixed-size byte strings, as they appear on the wire.
//! Secrets are erased on drop and have no `Debug`.
use crate::bytes::{wipe, wipe_vec, zeros};
use vstd::prelude::*;

verus! {

/// Bytes of an ML-KEM-768 encapsulation key.
pub const ML_KEM_768_PUBLIC_KEY_BYTES: usize = 1184;

/// Bytes of an ML-KEM-768 ciphertext.
pub const ML_KEM_768_CIPHERTEXT_BYTES: usize = 1088;

/// Bytes of an ML-DSA-65 public key.
pub const ML_DSA_65_PUBLIC_KEY_BYTES: usize = 1952;

/// Bytes of an ML-DSA-65 signature.
pub const ML_DSA_65_SIGNATURE_BYTES: usize = 3309;

/// An ML-KEM-768 encapsulation key.
#[derive(Debug, Clone, Copy, PartialEq, Eq)]
pub struct MlKemPublicKey {
    pub bytes: [u8; ML_KEM_768_PUBLIC_KEY_BYTES],
}

/// An ML-KEM-768 ciphertext.
#[derive(Debug, Clone, Copy, PartialEq, Eq)]
pub struct MlKemCiphertext {
    pub bytes: [u8; ML_KEM_768_CIPHERTEXT_BYTES],
}

/// An ML-DSA-65 public key: the identity of a peer.
#[derive(Debug, Clone, Copy, PartialEq, Eq)]
pub struct MlDsaPublicKey {
    pub bytes: [u8; ML_DSA_65_PUBLIC_KEY_BYTES],
}

/// An ML-DSA-65 signature.
#[derive(Debug, Clone, Copy, PartialEq, Eq)]
pub struct MlDsaSignature {
    pub bytes: [u8; ML_DSA_65_SIGNATURE_BYTES],
}

/// A 32-byte secret: a shared secret, a scalar or a session master.
pub struct Secret32 {
    bytes: [u8; 32],
}

/// The master secret of a session.
pub type MasterSecret = Secret32;

/// A shared secret of an encapsulation or of a Diffie-Hellman exchange.
pub type SharedSecret = Secret32;

impl View for Secret32 {
    type V = Seq<u8>;

    closed spec fn view(&self) -> Seq<u8> {
        self.bytes@
    }
}

impl Secret32 {
    pub fn from_bytes(bytes: [u8; 32]) -> (r: Self)
        ensures
            r@ == bytes@,
    {
        Secret32 { bytes }
    }

    pub fn as_bytes(&self) -> (r: &[u8; 32])
        ensures
            r@ == self@,
    {
        &self.bytes
    }

    /// A second copy of the secret.
    pub fn duplicate(&self) -> (r: Self)
        ensures
            r@ == self@,
    {
        Secret32 { bytes: self.bytes }
    }

    /// Overwrites the secret with zeros.
    pub fn erase(&mut self)
        ensures
            final(self)@ == zeros(32),
        opens_invariants none
        no_unwind
    {
        wipe(&mut self.bytes);
    }
}

impl Drop for Secret32 {
    fn drop(&mut self)
        opens_invariants none
        no_unwind
    {
        self.erase();
    }
}

/// An ML-KEM-768 decapsulation key, in the encoding of the backend that made
/// it. The library only carries it.
pub struct MlKemSecretKey {
    bytes: Vec<u8>,
}

impl View for MlKemSecretKey {
    type V = Seq<u8>;

    closed spec fn view(&self) -> Seq<u8> {
        self.bytes@
    }
}

impl MlKemSecretKey {
    pub fn from_bytes(bytes: Vec<u8>) -> (r: Self)
        ensures
            r@ == bytes@,
    {
        MlKemSecretKey { bytes }
    }

    pub fn as_bytes(&self) -> (r: &[u8])
        ensures
            r@ == self@,
    {
        self.bytes.as_slice()
    }

    /// Overwrites the key with zeros and empties it.
    pub fn erase(&mut self)
        ensures
            final(self)@ == Seq::<u8>::empty(),
        opens_invariants none
        no_unwind
    {
        wipe_vec(&mut self.bytes);
    }
}

impl Drop for MlKemSecretKey {
    fn drop(&mut self)
        opens_invariants none
        no_unwind
    {
        self.erase();
    }
}

} // verus!
