use pq_tunnel_core::config::TunnelConfig;
use pq_tunnel_core::error::TunnelError;
use pq_tunnel_core::net::PeerAddr;
use pq_tunnel_core::session::{stream_metrics, RotationClock};
use pq_tunnel_core::time::{Duration, Instant};

fn at(secs: u64) -> Instant {
    Instant::from_origin(Duration::from_secs(secs))
}

#[test]
fn tunnel_defaults() {
    let c = TunnelConfig::default();
    assert_eq!(c.mtu, 1400);
    assert_eq!(c.handshake_timeout, Duration::from_secs(10));
    assert_eq!(c.keepalive_interval, Duration::from_secs(15));
    assert_eq!(
        c.remote(),
        Err(TunnelError::InvalidConfig("remote address required".to_string()))
    );
    assert_eq!(
        c.local(),
        Err(TunnelError::InvalidConfig("listen address required".to_string()))
    );
    let a = PeerAddr::V6 { ip: 1, port: 443, flowinfo: 0, scope_id: 0 };
    let c = TunnelConfig { listen_addr: Some(a), remote_addr: Some(a), ..c };
    assert_eq!(c.remote(), Ok(a));
    assert_eq!(c.local(), Ok(a));
}

#[test]
fn keys_are_due_after_a_minute_without_rotation() {
    let mut clock = RotationClock::new(at(100));
    assert!(!clock.needs_key_rotation(at(160)));
    assert!(clock.needs_key_rotation(at(161)));
    clock.record_key_rotation(at(161));
    assert!(!clock.needs_key_rotation(at(161)));
    assert!(!clock.needs_key_rotation(at(10_000)));
    // What counts is how long after the creation the latest rotation came.
    clock.record_key_rotation(at(220));
    assert!(!clock.needs_key_rotation(at(10_000)));
    clock.record_key_rotation(at(221));
    assert!(clock.needs_key_rotation(at(10_000)));
}

#[test]
fn stream_counters_start_at_zero() {
    let m = stream_metrics(42, at(7));
    assert_eq!(m.handshake_duration_ms, Some(42));
    assert_eq!(m.created_at, Some(at(7)));
    assert_eq!((m.bytes_sent, m.bytes_received, m.packets_sent, m.packets_received), (0, 0, 0, 0));
}

#[test]
fn spans_and_points() {
    let d = Duration::from_parts(3, 250_000_001);
    assert_eq!(d.as_secs(), 3);
    assert_eq!(d.subsec_nanos(), 250_000_001);
    assert_eq!(d.as_millis(), 3250);
    assert_eq!(d.as_nanos(), 3_250_000_001);
    assert_eq!(at(5).duration_since(at(2)), Duration::from_secs(3));
    assert_eq!(at(2).duration_since(at(5)), Duration::zero());
    assert!(Duration::zero().is_zero());
    assert_eq!(Duration::from_secs(u64::MAX).saturating_mul(2).as_secs(), u64::MAX);
}
