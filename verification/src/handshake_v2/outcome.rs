//! What a completed handshake hands over, and what can go wrong locally.
use crate::codec::{PROTOCOL_VERSION, SESSION_ID_LEN};
use crate::crypto::{random_array, random_failure};
use crate::error::{CodecError, CryptoError};
use crate::keys::{MasterSecret, MlDsaPublicKey};
use crate::text::{unsupported_version, unsupported_version_text};
use crate::time::Duration;
use vstd::prelude::*;

verus! {

/// Local failures of the handshake.
///
/// Nothing that a peer sends is an error: malformed fragments, failed
/// verification and forged confirmations are silent drops.
#[derive(Debug, Clone, PartialEq, Eq)]
pub enum HandshakeV2Error {
    /// The socket failed. Fatal.
    Transport(String),
    /// A peer's port vanished. Informational: one vanished peer must not end
    /// the sessions of others.
    TransportReset,
    /// A datagram of the wrong size was skipped.
    DatagramRejected,
    /// Packet codec failure.
    Codec(CodecError),
    /// Local cryptographic failure. Fatal.
    Crypto(CryptoError),
    /// The retransmit budget ran out.
    Timeout,
    /// Invalid local configuration.
    InvalidConfig(String),
}

/// The result of a completed handshake.
pub struct HandshakeOutcome {
    /// Session master secret, erased on drop.
    pub master: MasterSecret,
    /// The session identifier that the client chose.
    pub session_id: [u8; SESSION_ID_LEN],
    /// The pinned key that authenticated the peer. It is never on the wire.
    pub peer_identity: MlDsaPublicKey,
    /// How long the establishment took.
    pub handshake_duration: Duration,
}

/// What an outcome holds.
pub struct OutcomeView {
    pub master: Seq<u8>,
    pub session_id: [u8; SESSION_ID_LEN],
    pub peer_identity: MlDsaPublicKey,
    pub handshake_nanos: nat,
}

impl View for HandshakeOutcome {
    type V = OutcomeView;

    open spec fn view(&self) -> OutcomeView {
        OutcomeView {
            master: self.master@,
            session_id: self.session_id,
            peer_identity: self.peer_identity,
            handshake_nanos: self.handshake_duration.nanos(),
        }
    }
}

impl HandshakeOutcome {
    /// A second copy of the outcome.
    pub fn duplicate(&self) -> (r: Self)
        ensures
            r@ == self@,
    {
        HandshakeOutcome {
            master: self.master.duplicate(),
            session_id: self.session_id,
            peer_identity: self.peer_identity,
            handshake_duration: self.handshake_duration,
        }
    }
}

/// Accepts the one supported version.
pub fn validate_version(version: u8) -> (r: Result<(), HandshakeV2Error>)
    ensures
        match r {
            Ok(_) => version == PROTOCOL_VERSION,
            Err(e) => version != PROTOCOL_VERSION && (e matches HandshakeV2Error::InvalidConfig(t)
                && t@ == unsupported_version(version)),
        },
{
    if version == PROTOCOL_VERSION {
        Ok(())
    } else {
        Err(HandshakeV2Error::InvalidConfig(unsupported_version_text(version)))
    }
}

/// The session identifier that a draw gives, or its failure.
pub fn sid_from(drawn: Result<[u8; SESSION_ID_LEN], CryptoError>) -> (r: Result<
    [u8; SESSION_ID_LEN],
    HandshakeV2Error,
>)
    ensures
        match drawn {
            Ok(sid) => r == Ok::<[u8; SESSION_ID_LEN], HandshakeV2Error>(sid),
            Err(e) => r == Err::<[u8; SESSION_ID_LEN], HandshakeV2Error>(
                HandshakeV2Error::Crypto(e),
            ),
        },
{
    match drawn {
        Ok(sid) => Ok(sid),
        Err(e) => Err(HandshakeV2Error::Crypto(e)),
    }
}

/// A random session identifier: what [`sid_from`] makes of one draw.
pub fn random_sid() -> (r: Result<[u8; SESSION_ID_LEN], HandshakeV2Error>)
    ensures
        r matches Err(e) ==> (e matches HandshakeV2Error::Crypto(c) && random_failure(c)),
{
    sid_from(random_array::<SESSION_ID_LEN>())
}

/// What is seen of an outcome is all that it holds.
pub proof fn outcome_is_seen_whole(o: HandshakeOutcome)
    ensures
        o@.master == o.master@,
        o@.session_id == o.session_id,
        o@.peer_identity == o.peer_identity,
        o@.handshake_nanos == o.handshake_duration.nanos(),
{
}

} // verus!
