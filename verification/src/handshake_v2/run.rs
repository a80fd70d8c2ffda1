//! Decisions of a driver that runs a single handshake over a transport.
use crate::codec::{WirePacket, PROTOCOL_VERSION};
use crate::handshake_v2::client::ClientEvent;
use crate::handshake_v2::fragment::datagrams;
use crate::handshake_v2::outcome::{
    validate_version, HandshakeOutcome, HandshakeV2Error, OutcomeView,
};
use crate::handshake_v2::server::{ServerConfig, ServerEvent};
use crate::net::PeerAddr;
use crate::text::unsupported_version;
use crate::time::{elapsed, Instant};
use vstd::prelude::*;
use vstd::string::StringExecFns;

verus! {

/// What a failed receive means.
#[derive(Debug, Clone, PartialEq, Eq)]
pub enum RecvVerdict {
    /// Go on.
    Skip,
    /// Go on, and log that a peer's port vanished.
    Warn,
    /// Stop with this error.
    Stop(HandshakeV2Error),
}

/// What a failed receive means to a client, and to a driver of one handshake:
/// only datagrams of the wrong size are skipped.
pub fn recv_verdict(e: HandshakeV2Error) -> (r: RecvVerdict)
    ensures
        r == if e is DatagramRejected {
            RecvVerdict::Skip
        } else {
            RecvVerdict::Stop(e)
        },
{
    match e {
        HandshakeV2Error::DatagramRejected => RecvVerdict::Skip,
        _ => RecvVerdict::Stop(e),
    }
}

/// What the driver of one handshake does next.
pub enum RunStep {
    /// Wait for the next datagram or timer.
    Wait,
    /// Send these datagrams, in order.
    Transmit(Vec<WirePacket>, PeerAddr),
    /// The handshake is complete.
    Done(HandshakeOutcome),
}

/// A server runs only with the supported version and with a roster.
pub fn validate_server_config(cfg: &ServerConfig) -> (r: Result<(), HandshakeV2Error>)
    ensures
        match r {
            Ok(_) => cfg.version == PROTOCOL_VERSION && cfg.roster@.len() > 0,
            Err(e) => e matches HandshakeV2Error::InvalidConfig(t) && if cfg.version
                != PROTOCOL_VERSION {
                t@ == unsupported_version(cfg.version)
            } else {
                cfg.roster@.len() == 0 && t@ == "roster must not be empty (fail closed)"@
            },
        },
{
    match validate_version(cfg.version) {
        Ok(_) => {},
        Err(e) => return Err(e),
    }
    if cfg.roster.len() == 0 {
        return Err(
            HandshakeV2Error::InvalidConfig(
                String::from_str("roster must not be empty (fail closed)"),
            ),
        );
    }
    Ok(())
}

/// What a client does with an event of its machine. A completed handshake
/// records how long it took.
pub fn client_run_step(event: ClientEvent, server: PeerAddr, started: Instant, now: Instant) -> (r:
    RunStep)
    ensures
        match event {
            ClientEvent::Emit(p) => r matches RunStep::Transmit(q, to) && datagrams(q@) == datagrams(
                p@,
            ) && to == server,
            ClientEvent::Complete(o) => r matches RunStep::Done(d) && d@ == (OutcomeView {
                handshake_nanos: elapsed(now, started),
                ..o@
            }),
            ClientEvent::Nothing => r is Wait,
        },
{
    match event {
        ClientEvent::Emit(packets) => RunStep::Transmit(packets, server),
        ClientEvent::Complete(outcome) => {
            let mut outcome = outcome;
            outcome.handshake_duration = now.duration_since(started);
            RunStep::Done(outcome)
        },
        ClientEvent::Nothing => RunStep::Wait,
    }
}

/// What a server does with an event of its machine.
pub fn server_run_step(event: ServerEvent) -> (r: RunStep)
    ensures
        match event {
            ServerEvent::Emit(p, peer) => r matches RunStep::Transmit(q, to) && datagrams(q@)
                == datagrams(p@) && to == peer,
            ServerEvent::Complete(o) => r matches RunStep::Done(d) && d@ == o@,
            ServerEvent::Nothing => r is Wait,
        },
{
    match event {
        ServerEvent::Emit(packets, peer) => RunStep::Transmit(packets, peer),
        ServerEvent::Complete(outcome) => RunStep::Done(outcome),
        ServerEvent::Nothing => RunStep::Wait,
    }
}

} // verus!
