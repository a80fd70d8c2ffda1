//! Peer addresses.
use vstd::prelude::*;

verus! {

/// The address of a peer: an IPv4 or IPv6 socket address.
///
/// The address is a hint for routing replies and for per-source budgets. It
/// never identifies a session.
#[allow(inconsistent_fields)]
#[derive(Debug, Clone, Copy, PartialEq, Eq, Hash, Structural)]
pub enum PeerAddr {
    V4 { ip: u32, port: u16 },
    V6 { ip: u128, port: u16, flowinfo: u32, scope_id: u32 },
}

} // verus!
