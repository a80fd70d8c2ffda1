//! Traffic counters of a session.
use crate::time::Instant;
use vstd::prelude::*;

verus! {

#[derive(Debug, Clone, Copy, PartialEq, Eq)]
pub struct SessionMetrics {
    pub bytes_sent: u64,
    pub bytes_received: u64,
    pub packets_sent: u64,
    pub packets_received: u64,
    pub handshake_duration_ms: Option<u64>,
    pub created_at: Option<Instant>,
}

impl Default for SessionMetrics {
    fn default() -> (r: Self)
        ensures
            r == (SessionMetrics {
                bytes_sent: 0,
                bytes_received: 0,
                packets_sent: 0,
                packets_received: 0,
                handshake_duration_ms: None,
                created_at: None,
            }),
    {
        SessionMetrics {
            bytes_sent: 0,
            bytes_received: 0,
            packets_sent: 0,
            packets_received: 0,
            handshake_duration_ms: None,
            created_at: None,
        }
    }
}

} // verus!
