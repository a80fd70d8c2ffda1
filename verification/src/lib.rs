//! Core of a post-quantum tunnel: fixed-size packets, mutual authentication
//! with hybrid key establishment, an AEAD envelope with replay protection,
//! session management and cover traffic.
//!
//! The library computes and decides. It performs no input or output, reads no
//! clock, and leaves ML-KEM, ML-DSA, the AEAD and the derivation of traffic
//! keys to its caller: where such work is needed, a step hands out a request
//! and is resumed with the answer.
//!
//! - [`codec`]: the wire format of packets.
//! - [`replay`], [`nonce`], [`envelope`]: sealing, opening, replay protection.
//! - [`handshake_v2`]: the handshake over datagrams.
//! - [`wire_session`], [`session_manager`]: sessions and their lifecycle.
//! - [`scheduler`], [`rate`]: cover traffic and budgets of sources.
//! - [`udp`]: one packet per datagram.
//! - [`handshake`], [`session`], [`config`]: the first handshake, over a stream.
//! - [`crypto`]: the outside functions that are called, and what is claimed of
//!   them.
pub mod bytes;
pub mod codec;
pub mod config;
pub mod crypto;
pub mod envelope;
pub mod error;
pub mod handshake;
pub mod handshake_v2;
pub mod keys;
pub mod metrics;
pub mod net;
pub mod nonce;
pub mod rate;
pub mod replay;
pub mod scheduler;
pub mod session;
pub mod session_manager;
pub mod state;
pub mod text;
pub mod time;
pub mod udp;
pub mod wire_session;

pub use codec::{
    Direction, InnerPlaintext, MessageType, PacketHeader, WirePacket, AEAD_NONCE_LEN, AEAD_TAG_LEN,
    HEADER_LEN, INNER_PLAINTEXT_LEN, PACKET_NONCE_LEN, PACKET_SIZE, PAYLOAD_LEN, PROTOCOL_VERSION,
    SESSION_ID_LEN,
};
pub use envelope::{CipherSession, Role};
pub use error::CodecError;
pub use handshake_v2::client::{
    ClientConfig as HandshakeV2ClientConfig, ClientEvent, ClientHandshake,
};
pub use handshake_v2::fragment::{
    expected_frag_count, fragment_message, is_handshake_fragment, message_body_len,
    FragmentAssembler, FragmentResult, HandshakeFragment, FINISHED_MAC_LEN, HS_FRAG_BODY_MAX,
    HS_FRAG_HEADER_LEN, HS_TYPE_CLIENT_CONFIRM, HS_TYPE_CLIENT_HELLO, HS_TYPE_SERVER_HELLO,
    M1_BODY_LEN, M1_FRAG_COUNT, M2_BODY_LEN, M2_FRAG_COUNT, M3_BODY_LEN, M3_FRAG_COUNT,
    X25519_PUBLIC_KEY_BYTES,
};
pub use handshake_v2::message::{ClientConfirm, ClientHello, ServerHello};
pub use handshake_v2::outcome::{HandshakeOutcome, HandshakeV2Error};
pub use handshake_v2::server::{
    ServerConfig as HandshakeV2ServerConfig, ServerEvent, ServerHandshake,
};
pub use handshake_v2::transcript::{th1_from_m1, th2_from_m1_m2, th3_from_m1_m2_m3};
pub use metrics::SessionMetrics;
pub use scheduler::{
    interval_from_rate_bps, CoverPolicy, CoverScheduler, DEFAULT_COVER_RATE_BPS,
};
pub use session_manager::client::{ClientManagerState, ClientSessionManager};
pub use session_manager::event::{
    CloseReason, ManagerError, ManagerEvent, ManagerNotification, ServerAppCommand, SessionLimits,
};
pub use session_manager::server::ServerSessionManager;
pub use state::{InvalidTransition, ProtocolState};
pub use udp::UdpError;
pub use wire_session::{SessionError, WireSession};
