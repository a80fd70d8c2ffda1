//! Configuration of a stream session.
use crate::error::TunnelError;
use crate::net::PeerAddr;
use crate::time::Duration;
use vstd::prelude::*;
use vstd::string::StringExecFns;

verus! {

/// Configuration of a stream session. The caller keeps the identity keys.
#[derive(Debug, Clone, Copy, PartialEq, Eq)]
pub struct TunnelConfig {
    pub listen_addr: Option<PeerAddr>,
    pub remote_addr: Option<PeerAddr>,
    pub mtu: u16,
    pub handshake_timeout: Duration,
    pub keepalive_interval: Duration,
}

impl Default for TunnelConfig {
    fn default() -> (r: Self)
        ensures
            r.listen_addr is None,
            r.remote_addr is None,
            r.mtu == 1400,
            r.handshake_timeout.nanos() == 10_000_000_000,
            r.keepalive_interval.nanos() == 15_000_000_000,
    {
        TunnelConfig {
            listen_addr: None,
            remote_addr: None,
            mtu: 1400,
            handshake_timeout: Duration::from_secs(10),
            keepalive_interval: Duration::from_secs(15),
        }
    }
}

impl TunnelConfig {
    /// Where a client connects to.
    pub fn remote(&self) -> (r: Result<PeerAddr, TunnelError>)
        ensures
            match self.remote_addr {
                Some(a) => r == Ok::<PeerAddr, TunnelError>(a),
                None => r matches Err(TunnelError::InvalidConfig(t)) && t@
                    == "remote address required"@,
            },
    {
        match self.remote_addr {
            Some(a) => Ok(a),
            None => Err(TunnelError::InvalidConfig(String::from_str("remote address required"))),
        }
    }

    /// Where a server listens.
    pub fn local(&self) -> (r: Result<PeerAddr, TunnelError>)
        ensures
            match self.listen_addr {
                Some(a) => r == Ok::<PeerAddr, TunnelError>(a),
                None => r matches Err(TunnelError::InvalidConfig(t)) && t@
                    == "listen address required"@,
            },
    {
        match self.listen_addr {
            Some(a) => Ok(a),
            None => Err(TunnelError::InvalidConfig(String::from_str("listen address required"))),
        }
    }
}

} // verus!
