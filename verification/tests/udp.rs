use pq_tunnel_core::codec::PACKET_SIZE;
use pq_tunnel_core::handshake_v2::outcome::HandshakeV2Error;
use pq_tunnel_core::net::PeerAddr;
use pq_tunnel_core::udp::{
    received_packet, recv_failure, sent_whole, IoFailure, IoKind, Route, UdpError,
    RECV_BUFFER_SIZE,
};

fn io(kind: IoKind, message: &str) -> UdpError {
    UdpError::Io(IoFailure { kind, os_code: None, message: message.to_string() })
}

fn addr(port: u16) -> PeerAddr {
    PeerAddr::V4 { ip: 0x7F00_0001, port }
}

#[test]
fn recoverable_reset_classification() {
    assert!(io(IoKind::ConnectionReset, "reset").is_recoverable_reset());
    assert!(io(IoKind::ConnectionRefused, "refused").is_recoverable_reset());
    assert!(!io(IoKind::WouldBlock, "block").is_recoverable_reset());
    assert!(!UdpError::WrongSize { expected: 1, got: 2 }.is_recoverable_reset());
    assert!(!UdpError::NoPeer.is_recoverable_reset());
}

#[test]
fn send_without_peer_fails() {
    assert_eq!(Route::unset().destination(), Err(UdpError::NoPeer));
}

#[test]
fn undersized_datagram_rejected() {
    let buf = [0u8; RECV_BUFFER_SIZE];
    match received_packet(&buf, 5) {
        Err(UdpError::WrongSize { expected, got }) => {
            assert_eq!(expected, PACKET_SIZE);
            assert_eq!(got, 5);
        }
        _ => panic!("expected WrongSize"),
    }
}

#[test]
fn oversized_datagram_rejected() {
    // A longer datagram fills the whole buffer, or is reported with a code.
    let buf = [0u8; RECV_BUFFER_SIZE];
    assert!(matches!(
        received_packet(&buf, RECV_BUFFER_SIZE),
        Err(UdpError::WrongSize { got, .. }) if got != PACKET_SIZE
    ));
    let too_long =
        IoFailure { kind: IoKind::Other, os_code: Some(10040), message: "long".to_string() };
    assert_eq!(
        recv_failure(too_long),
        UdpError::WrongSize { expected: PACKET_SIZE, got: PACKET_SIZE + 1 }
    );
    let other = IoFailure { kind: IoKind::Other, os_code: Some(5), message: "io".to_string() };
    assert_eq!(recv_failure(other.clone()), UdpError::Io(other));
}

#[test]
fn set_peer_supports_rebinding() {
    let mut route = Route::unset();
    assert_eq!(route.peer(), None);
    route.set_peer(addr(0));
    assert_eq!(route.peer(), Some(addr(0)));
}

#[test]
fn roaming_reroutes_to_new_peer() {
    let mut route = Route::to(addr(40001));
    assert_eq!(route.destination(), Ok(addr(40001)));
    route.set_peer(addr(40002));
    assert_eq!(route.destination(), Ok(addr(40002)));
}

#[test]
fn exact_datagrams_become_packets() {
    let mut buf = [0u8; RECV_BUFFER_SIZE];
    for (i, b) in buf.iter_mut().enumerate() {
        *b = (i % 251) as u8;
    }
    let pkt = received_packet(&buf, PACKET_SIZE).ok().unwrap();
    assert_eq!(&pkt.as_bytes()[..], &buf[..PACKET_SIZE]);
    assert_eq!(sent_whole(PACKET_SIZE), Ok(()));
    assert_eq!(
        sent_whole(7),
        Err(UdpError::WrongSize { expected: PACKET_SIZE, got: 7 })
    );
}

#[test]
fn failures_have_the_right_weight() {
    assert_eq!(
        UdpError::WrongSize { expected: 1280, got: 3 }.into_recv_error(),
        HandshakeV2Error::DatagramRejected
    );
    assert_eq!(
        io(IoKind::ConnectionReset, "reset").into_recv_error(),
        HandshakeV2Error::TransportReset
    );
    assert_eq!(
        io(IoKind::Other, "gone").into_recv_error(),
        HandshakeV2Error::Transport("udp io: gone".to_string())
    );
    assert_eq!(
        UdpError::NoPeer.into_send_error(),
        HandshakeV2Error::Transport("no remote peer configured".to_string())
    );
    assert_eq!(
        UdpError::WrongSize { expected: 1280, got: 1205 }.into_send_error(),
        HandshakeV2Error::Transport(
            "datagram size mismatch: expected 1280, got 1205".to_string()
        )
    );
}
