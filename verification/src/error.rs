//! Errors of the packet codec, of the AEAD envelope and of stream sessions.
use vstd::prelude::*;

verus! {

/// A failure of the cryptographic backend, as it was reported.
///
/// Fatal and local: never caused by a single packet of the peer.
#[derive(Debug, Clone, PartialEq, Eq)]
pub enum CryptoError {
    /// A value handed to the backend had the wrong shape, or the system's
    /// random source failed.
    InvalidInput(String),
    /// Any other failure: key generation, derivation, encapsulation, sealing.
    Failed(String),
}

/// Errors of a stream session.
#[derive(Debug, Clone, PartialEq, Eq)]
pub enum TunnelError {
    /// A cryptographic failure.
    Crypto(CryptoError),
    /// The transport failed.
    Quic(String),
    /// The transport's own security layer failed.
    Tls(String),
    /// The peer closed the connection.
    ConnectionClosed,
    /// The handshake took too long.
    HandshakeTimeout,
    /// Invalid local configuration.
    InvalidConfig(String),
    /// An input or output operation failed.
    Io(String),
}

/// Errors raised by the packet codec and by the AEAD envelope.
///
/// Every variant stands for a packet that is malformed or violates the
/// protocol and must be rejected. On the receive path every per-packet failure
/// is collapsed to `DecryptionFailed`, so that callers cannot tell a replay
/// from a forgery.
#[allow(inconsistent_fields)]
#[derive(Debug, Clone, PartialEq, Eq)]
pub enum CodecError {
    /// Parser input of the wrong size.
    Truncated { field: &'static str, min: usize, got: usize },
    /// A caller supplied a field that is not of its exact size.
    WrongLength { field: &'static str, expected: usize, got: usize },
    /// The version byte is not the supported one.
    InvalidVersion { expected: u8, found: u8 },
    /// A message type byte outside the known set.
    InvalidMessageType(u8),
    /// A direction byte outside the known set.
    InvalidDirection(u8),
    /// The per-direction counter reached the rotation threshold.
    NonceExhausted { counter: u64 },
    /// An offered rekey proof did not validate.
    RekeyRejected { reason: &'static str },
    /// Uniform "drop this packet" result.
    DecryptionFailed,
    /// Key setup or sealing failed locally.
    Crypto(CryptoError),
}

} // verus!
