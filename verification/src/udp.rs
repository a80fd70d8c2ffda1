//! One packet per datagram: what is accepted from a socket, and what its
//! failures mean.
//!
//! A datagram must have exactly the packet size. The receive buffer is one byte
//! longer, so that a longer datagram, which is cut to the buffer, is told apart
//! from a packet. The peer is a field of its own and can change at any time.
use crate::codec::{WirePacket, PACKET_SIZE};
use crate::handshake_v2::outcome::HandshakeV2Error;
use crate::net::PeerAddr;
use crate::text::{append_decimal, decimal};
use vstd::prelude::*;
use vstd::string::StringExecFns;

verus! {

/// Bytes of the receive buffer.
pub const RECV_BUFFER_SIZE: usize = 1281;

/// The code with which one platform reports a datagram that is longer than the
/// buffer.
pub const MESSAGE_TOO_LONG: i32 = 10040;

/// Kinds of socket failures, as far as they matter here.
#[derive(Debug, Clone, Copy, PartialEq, Eq, Structural)]
pub enum IoKind {
    ConnectionReset,
    ConnectionRefused,
    WouldBlock,
    Other,
}

/// A failure of a socket.
#[derive(Debug, Clone, PartialEq, Eq)]
pub struct IoFailure {
    pub kind: IoKind,
    /// The platform's own code, if there is one.
    pub os_code: Option<i32>,
    pub message: String,
}

/// Failures of the transport.
#[derive(Debug, Clone, PartialEq, Eq)]
pub enum UdpError {
    /// The socket failed.
    Io(IoFailure),
    /// A packet was to be sent, but no peer is set.
    NoPeer,
    /// A datagram did not have the packet size.
    WrongSize { expected: usize, got: usize },
}

impl UdpError {
    /// The failure only says that a peer's port vanished.
    pub open spec fn reset(self) -> bool {
        self matches UdpError::Io(f) && (f.kind == IoKind::ConnectionReset || f.kind
            == IoKind::ConnectionRefused)
    }

    /// The text of the failure.
    pub open spec fn text(self) -> Seq<char> {
        match self {
            UdpError::Io(f) => "udp io: "@ + f.message@,
            UdpError::NoPeer => "no remote peer configured"@,
            UdpError::WrongSize { expected, got } => "datagram size mismatch: expected "@ + decimal(
                expected as nat,
            ) + ", got "@ + decimal(got as nat),
        }
    }

    /// Whether the failure only says that a peer's port vanished. In UDP that
    /// is information, not a failure of the protocol.
    pub fn is_recoverable_reset(&self) -> (r: bool)
        ensures
            r == self.reset(),
    {
        match self {
            UdpError::Io(f) => match f.kind {
                IoKind::ConnectionReset => true,
                IoKind::ConnectionRefused => true,
                _ => false,
            },
            _ => false,
        }
    }

    /// The text of the failure.
    pub fn describe(&self) -> (r: String)
        ensures
            r@ == self.text(),
    {
        match self {
            UdpError::Io(f) => {
                let mut text = String::from_str("udp io: ");
                text.append(f.message.as_str());
                text
            },
            UdpError::NoPeer => String::from_str("no remote peer configured"),
            UdpError::WrongSize { expected, got } => {
                let mut text = String::from_str("datagram size mismatch: expected ");
                append_decimal(&mut text, *expected as u64);
                text.append(", got ");
                append_decimal(&mut text, *got as u64);
                text
            },
        }
    }

    /// What a failed receive means to the handshake and to the managers.
    pub fn into_recv_error(self) -> (r: HandshakeV2Error)
        ensures
            match self {
                UdpError::WrongSize { .. } => r is DatagramRejected,
                _ => if self.reset() {
                    r is TransportReset
                } else {
                    r matches HandshakeV2Error::Transport(t) && t@ == self.text()
                },
            },
    {
        if let UdpError::WrongSize { .. } = self {
            return HandshakeV2Error::DatagramRejected;
        }
        if self.is_recoverable_reset() {
            return HandshakeV2Error::TransportReset;
        }
        HandshakeV2Error::Transport(self.describe())
    }

    /// What a failed send means.
    pub fn into_send_error(self) -> (r: HandshakeV2Error)
        ensures
            r matches HandshakeV2Error::Transport(t) && t@ == self.text(),
    {
        HandshakeV2Error::Transport(self.describe())
    }
}

/// What arrived in the receive buffer: a packet, if it has the packet size.
pub fn received_packet(buf: &[u8], n: usize) -> (r: Result<WirePacket, UdpError>)
    requires
        n <= buf@.len(),
    ensures
        match r {
            Ok(p) => n == PACKET_SIZE && p@ == buf@.subrange(0, 1280),
            Err(e) => n != PACKET_SIZE && e == (UdpError::WrongSize {
                expected: PACKET_SIZE,
                got: n,
            }),
        },
{
    if n != PACKET_SIZE {
        return Err(UdpError::WrongSize { expected: PACKET_SIZE, got: n });
    }
    Ok(WirePacket::from_bytes(&buf[0..PACKET_SIZE]).unwrap())
}

/// A failed receive. A datagram that was too long is reported like one that was
/// cut.
pub fn recv_failure(f: IoFailure) -> (r: UdpError)
    ensures
        r == if f.os_code == Some(MESSAGE_TOO_LONG) {
            UdpError::WrongSize { expected: PACKET_SIZE, got: RECV_BUFFER_SIZE }
        } else {
            UdpError::Io(f)
        },
{
    match f.os_code {
        Some(code) => {
            if code == MESSAGE_TOO_LONG {
                return UdpError::WrongSize { expected: PACKET_SIZE, got: RECV_BUFFER_SIZE };
            }
        },
        None => {},
    }
    UdpError::Io(f)
}

/// What was sent must have been a whole packet.
pub fn sent_whole(n: usize) -> (r: Result<(), UdpError>)
    ensures
        match r {
            Ok(_) => n == PACKET_SIZE,
            Err(e) => n != PACKET_SIZE && e == (UdpError::WrongSize {
                expected: PACKET_SIZE,
                got: n,
            }),
        },
{
    if n == PACKET_SIZE {
        Ok(())
    } else {
        Err(UdpError::WrongSize { expected: PACKET_SIZE, got: n })
    }
}

/// Where an endpoint sends its packets.
#[derive(Debug, Clone, Copy, PartialEq, Eq)]
pub struct Route {
    pub peer: Option<PeerAddr>,
}

impl Route {
    /// No peer yet: an endpoint that listens.
    pub fn unset() -> (r: Self)
        ensures
            r.peer is None,
    {
        Route { peer: None }
    }

    /// A fixed peer to begin with.
    pub fn to(peer: PeerAddr) -> (r: Self)
        ensures
            r.peer == Some(peer),
    {
        Route { peer: Some(peer) }
    }

    /// The current peer.
    pub fn peer(&self) -> (r: Option<PeerAddr>)
        ensures
            r == self.peer,
    {
        self.peer
    }

    /// Changes the peer; the next packet goes there.
    pub fn set_peer(&mut self, peer: PeerAddr)
        ensures
            final(self).peer == Some(peer),
    {
        self.peer = Some(peer);
    }

    /// Where the next packet goes.
    pub fn destination(&self) -> (r: Result<PeerAddr, UdpError>)
        ensures
            r == match self.peer {
                Some(p) => Ok::<PeerAddr, UdpError>(p),
                None => Err::<PeerAddr, UdpError>(UdpError::NoPeer),
            },
    {
        match self.peer {
            Some(p) => Ok(p),
            None => Err(UdpError::NoPeer),
        }
    }
}

/// Only a connection that the peer's side reset or refused is a recoverable
/// reset; in particular a missing peer and a datagram of the wrong size are not.
pub proof fn only_vanished_ports_are_resets(e: UdpError)
    ensures
        e.reset() <==> (e matches UdpError::Io(f) && (f.kind == IoKind::ConnectionReset || f.kind
            == IoKind::ConnectionRefused)),
        e.reset() ==> !(e is NoPeer) && !(e is WrongSize),
{
}

/// The text of a datagram of the wrong size names both sizes, and that of a socket
/// failure ends with what the socket said.
pub proof fn failure_text_says_what_failed(e: UdpError)
    ensures
        e matches UdpError::WrongSize { expected, got } ==> (decimal(expected as nat) + ", got "@
            + decimal(got as nat)).is_suffix_of(e.text()),
        e matches UdpError::Io(f) ==> f.message@.is_suffix_of(e.text()),
{
    let t = e.text();
    if let UdpError::WrongSize { expected, got } = e {
        let b = decimal(expected as nat) + ", got "@ + decimal(got as nat);
        assert(t.subrange(t.len() - b.len(), t.len() as int) =~= b);
    }
    if let UdpError::Io(f) = e {
        let b = f.message@;
        assert(t.subrange(t.len() - b.len(), t.len() as int) =~= b);
    }
}

} // verus!
