//! The outside cryptographic and random functions that the protocol calls.
//!
//! Each result that takes pages to state has a name; the rest of the library
//! is proved for whatever the names stand for.
use crate::error::CryptoError;
use sha2::Digest;
use subtle::ConstantTimeEq;
use vstd::prelude::*;
use vstd::string::StringExecFns;

verus! {

/// SHA-256 of `data`.
pub uninterp spec fn sha256_of(data: Seq<u8>) -> Seq<u8>;

/// 32 bytes of HKDF-SHA-256 output for a salt, input key material and info.
pub uninterp spec fn hkdf_sha256_of(salt: Seq<u8>, ikm: Seq<u8>, info: Seq<u8>) -> Seq<u8>;

/// HKDF-SHA-256 extraction, which is HMAC-SHA-256 keyed with the salt.
pub uninterp spec fn hmac_sha256_of(key: Seq<u8>, data: Seq<u8>) -> Seq<u8>;

/// X25519 of a scalar and a u-coordinate.
pub uninterp spec fn x25519_of(scalar: Seq<u8>, u: Seq<u8>) -> Seq<u8>;

/// The u-coordinate of the X25519 base point.
pub const X25519_BASE: [u8; 32] = [
    9, 0, 0, 0, 0, 0, 0, 0, 0, 0, 0, 0, 0, 0, 0, 0, 0, 0, 0, 0, 0, 0, 0, 0, 0, 0, 0, 0, 0, 0, 0, 0,
];

/// The error of the system's random source.
#[verifier::external_type_specification]
#[verifier::external_body]
pub struct ExRandomError(getrandom::Error);

/// Calls `sha2::Sha256::digest`. Claimed: the digest is a function of the data
/// alone, named [`sha256_of`].
#[verifier::external_body]
pub(crate) fn sha256(data: &[u8]) -> (r: [u8; 32])
    ensures
        r@ == sha256_of(data@),
{
    sha2::Sha256::digest(data).into()
}

/// Calls `hkdf::Hkdf::<Sha256>::new` with the salt and the input key material,
/// and `expand` with the info. Claimed: the 32 output bytes are a function of
/// the three arguments, named [`hkdf_sha256_of`]. `expand` fails only for more
/// than 255 blocks of output.
#[verifier::external_body]
pub(crate) fn hkdf_sha256(salt: &[u8], ikm: &[u8], info: &[u8]) -> (r: [u8; 32])
    ensures
        r@ == hkdf_sha256_of(salt@, ikm@, info@),
{
    let mut okm = [0u8; 32];
    hkdf::Hkdf::<sha2::Sha256>::new(Some(salt), ikm).expand(info, &mut okm).expect("one block");
    okm
}

/// Calls `hkdf::Hkdf::<Sha256>::extract` with the key as salt: an HMAC-SHA-256
/// of the data under the key. Claimed: the 32 bytes are a function of the two
/// arguments, named [`hmac_sha256_of`].
#[verifier::external_body]
pub(crate) fn hmac_sha256(key: &[u8], data: &[u8]) -> (r: [u8; 32])
    ensures
        r@ == hmac_sha256_of(key@, data@),
{
    hkdf::Hkdf::<sha2::Sha256>::extract(Some(key), data).0.into()
}

/// Calls `x25519_dalek::x25519`. Claimed: the result is a function of the two
/// arguments, named [`x25519_of`].
#[verifier::external_body]
pub(crate) fn x25519(scalar: &[u8; 32], u: &[u8; 32]) -> (r: [u8; 32])
    ensures
        r@ == x25519_of(scalar@, u@),
{
    x25519_dalek::x25519(*scalar, *u)
}

/// Calls `subtle::ConstantTimeEq::ct_eq` on two byte slices. Claimed: the
/// answer is whether they are equal. The time it takes is not stated.
#[verifier::external_body]
pub(crate) fn ct_eq(a: &[u8], b: &[u8]) -> (r: bool)
    ensures
        r == (a@ == b@),
{
    bool::from(a.ct_eq(b))
}

/// Calls `getrandom::fill`. Claimed: the length is unchanged, and an empty
/// buffer is filled without asking the system's source. The bytes, and whether
/// the source works, depend on chance and on the machine.
#[verifier::external_body]
fn fill(buf: &mut [u8]) -> (r: Result<(), getrandom::Error>)
    ensures
        final(buf)@.len() == old(buf)@.len(),
        old(buf)@.len() == 0 ==> r is Ok,
{
    getrandom::fill(buf)
}

/// Calls `getrandom::u64`. Nothing is claimed of the value.
#[verifier::external_body]
fn draw_u64() -> (r: Result<u64, getrandom::Error>)
{
    getrandom::u64()
}

/// Formats the error of the random source with `format!`. Nothing is claimed of
/// the text.
#[verifier::external_body]
fn random_error_text(e: &getrandom::Error) -> (r: String)
{
    format!("{e}")
}

/// The error of a failed random source: an `InvalidInput` that names the source.
pub open spec fn random_failure(e: CryptoError) -> bool {
    e matches CryptoError::InvalidInput(t) && "getrandom: "@.is_prefix_of(t@)
}

/// What an attempt to fill a buffer leads to: the buffer as the source left it
/// or, if the source failed, an error that says so.
pub fn filled_array<const N: usize>(buf: [u8; N], outcome: Result<(), getrandom::Error>) -> (r:
    Result<[u8; N], CryptoError>)
    ensures
        match outcome {
            Ok(_) => r == Ok::<[u8; N], CryptoError>(buf),
            Err(_) => r matches Err(e) && random_failure(e),
        },
{
    match outcome {
        Ok(_) => Ok(buf),
        Err(e) => {
            let mut text = String::from_str("getrandom: ");
            text.append(random_error_text(&e).as_str());
            Err(CryptoError::InvalidInput(text))
        },
    }
}

/// `N` random bytes. Whatever the source gives is returned; if it fails, the
/// error says so, as [`filled_array`] states it. No bytes need no source.
pub fn random_array<const N: usize>() -> (r: Result<[u8; N], CryptoError>)
    ensures
        r matches Err(e) ==> random_failure(e),
        N == 0 ==> r is Ok,
{
    let mut buf = [0u8; N];
    let outcome = fill(&mut buf);
    filled_array(buf, outcome)
}

/// What a draw stands for: the number that was drawn, 0 if the source failed.
pub fn drawn_or_zero(drawn: Result<u64, getrandom::Error>) -> (r: u64)
    ensures
        r == match drawn {
            Ok(v) => v,
            Err(_) => 0,
        },
{
    match drawn {
        Ok(v) => v,
        Err(_) => 0,
    }
}

/// A random 64-bit integer, 0 if the source fails: [`drawn_or_zero`] of one
/// draw. Every value is possible, so nothing is stated of it.
pub(crate) fn random_u64_or_zero() -> (r: u64)
{
    drawn_or_zero(draw_u64())
}

} // verus!
