//! Fragment framing and reassembly.
//!
//! Every fragment is one datagram:
//!
//! ```text
//! version(1) | sid(8) | hs_type(1) | frag_idx(1) | frag_total(1) | body(<= 1268) | zero padding
//! ```
//!
//! Byte 9 of a datagram tells fragments from data packets.
use crate::bytes::{lemma_array_ext, splice, take_array, write_at, zeros};
use crate::codec::{WirePacket, PACKET_SIZE, PROTOCOL_VERSION, SESSION_ID_LEN};
use crate::error::CodecError;
use crate::keys::{
    ML_DSA_65_SIGNATURE_BYTES, ML_KEM_768_CIPHERTEXT_BYTES, ML_KEM_768_PUBLIC_KEY_BYTES,
};
use vstd::prelude::*;
use vstd::slice::slice_to_vec;

verus! {

/// Fragment type byte of a ClientHello.
pub const HS_TYPE_CLIENT_HELLO: u8 = 0x10;

/// Fragment type byte of a ServerHello.
pub const HS_TYPE_SERVER_HELLO: u8 = 0x20;

/// Fragment type byte of a ClientConfirm.
pub const HS_TYPE_CLIENT_CONFIRM: u8 = 0x30;

/// Bytes of a fragment header.
pub const HS_FRAG_HEADER_LEN: usize = 12;

/// Most body bytes of one fragment.
pub const HS_FRAG_BODY_MAX: usize = PACKET_SIZE - HS_FRAG_HEADER_LEN;

/// Bytes of an X25519 public key.
pub const X25519_PUBLIC_KEY_BYTES: usize = 32;

/// Bytes of the Finished MAC.
pub const FINISHED_MAC_LEN: usize = 16;

/// Bytes of a ClientHello.
pub const M1_BODY_LEN: usize = 9 + ML_KEM_768_PUBLIC_KEY_BYTES + X25519_PUBLIC_KEY_BYTES
    + ML_DSA_65_SIGNATURE_BYTES;

/// Bytes of a ServerHello.
pub const M2_BODY_LEN: usize = 9 + ML_KEM_768_PUBLIC_KEY_BYTES + X25519_PUBLIC_KEY_BYTES
    + ML_KEM_768_CIPHERTEXT_BYTES + ML_DSA_65_SIGNATURE_BYTES;

/// Bytes of a ClientConfirm.
pub const M3_BODY_LEN: usize = 9 + ML_KEM_768_CIPHERTEXT_BYTES + FINISHED_MAC_LEN;

/// Fragments of a ClientHello.
pub const M1_FRAG_COUNT: u8 = 4;

/// Fragments of a ServerHello.
pub const M2_FRAG_COUNT: u8 = 5;

/// Fragments of a ClientConfirm.
pub const M3_FRAG_COUNT: u8 = 1;

/// Slots of a reassembly buffer: the fragments of the largest message.
pub const MAX_FRAGS: usize = 5;

/// A known fragment type.
pub open spec fn known_type(hs_type: u8) -> bool {
    hs_type == HS_TYPE_CLIENT_HELLO || hs_type == HS_TYPE_SERVER_HELLO || hs_type
        == HS_TYPE_CLIENT_CONFIRM
}

/// Fragments of a message of a known type.
pub open spec fn frag_count(hs_type: u8) -> u8 {
    if hs_type == HS_TYPE_CLIENT_HELLO {
        M1_FRAG_COUNT
    } else if hs_type == HS_TYPE_SERVER_HELLO {
        M2_FRAG_COUNT
    } else {
        M3_FRAG_COUNT
    }
}

/// Bytes of a message of a known type.
pub open spec fn body_len(hs_type: u8) -> usize {
    if hs_type == HS_TYPE_CLIENT_HELLO {
        M1_BODY_LEN
    } else if hs_type == HS_TYPE_SERVER_HELLO {
        M2_BODY_LEN
    } else {
        M3_BODY_LEN
    }
}

/// The message sizes, and that each message needs exactly its number of
/// fragments. Fragment types differ from every message type of a data packet.
pub proof fn fragment_counts_are_exact(hs_type: u8)
    requires
        known_type(hs_type),
    ensures
        M1_BODY_LEN == 4534 && M2_BODY_LEN == 5622 && M3_BODY_LEN == 1113,
        HS_FRAG_BODY_MAX == 1268,
        frag_start(frag_count(hs_type) - 1) < body_len(hs_type) <= frag_start(
            frag_count(hs_type) as int,
        ),
        frag_start(1) == HS_FRAG_BODY_MAX,
        1 <= frag_count(hs_type) <= MAX_FRAGS,
        forall|t: crate::codec::MessageType| #[trigger] t.code() < hs_type,
{
}

/// Number of fragments of a message type.
pub fn expected_frag_count(hs_type: u8) -> (r: Option<u8>)
    ensures
        r == if known_type(hs_type) {
            Some(frag_count(hs_type))
        } else {
            None
        },
{
    if hs_type == HS_TYPE_CLIENT_HELLO {
        Some(M1_FRAG_COUNT)
    } else if hs_type == HS_TYPE_SERVER_HELLO {
        Some(M2_FRAG_COUNT)
    } else if hs_type == HS_TYPE_CLIENT_CONFIRM {
        Some(M3_FRAG_COUNT)
    } else {
        None
    }
}

/// Size of a message type.
pub fn message_body_len(hs_type: u8) -> (r: Option<usize>)
    ensures
        r == if known_type(hs_type) {
            Some(body_len(hs_type))
        } else {
            None
        },
{
    if hs_type == HS_TYPE_CLIENT_HELLO {
        Some(M1_BODY_LEN)
    } else if hs_type == HS_TYPE_SERVER_HELLO {
        Some(M2_BODY_LEN)
    } else if hs_type == HS_TYPE_CLIENT_CONFIRM {
        Some(M3_BODY_LEN)
    } else {
        None
    }
}

/// Whether a datagram belongs to the handshake rather than to the data path:
/// byte 9 is a fragment type.
pub fn is_handshake_fragment(pkt: &WirePacket) -> (r: bool)
    ensures
        r == known_type(pkt@[9]),
{
    let t: u8 = pkt.bytes[9];
    t == HS_TYPE_CLIENT_HELLO || t == HS_TYPE_SERVER_HELLO || t == HS_TYPE_CLIENT_CONFIRM
}

/// A parsed fragment.
#[derive(Debug, Clone, PartialEq, Eq)]
pub struct HandshakeFragment {
    pub version: u8,
    pub sid: [u8; SESSION_ID_LEN],
    pub hs_type: u8,
    pub frag_idx: u8,
    pub frag_total: u8,
    pub body: Vec<u8>,
}

/// Where the part of fragment `idx` starts in its message: 1268 is
/// [`HS_FRAG_BODY_MAX`].
pub open spec fn frag_start(idx: int) -> int {
    idx * 1268
}

/// Body bytes of fragment `idx` of a message of a known type.
pub open spec fn frag_body_len(hs_type: u8, idx: int) -> int {
    let rest = body_len(hs_type) - frag_start(idx);
    if rest < HS_FRAG_BODY_MAX {
        rest
    } else {
        HS_FRAG_BODY_MAX as int
    }
}

/// The part of `message` that fragment `idx` carries.
pub open spec fn frag_body(hs_type: u8, message: Seq<u8>, idx: int) -> Seq<u8> {
    message.subrange(frag_start(idx), frag_start(idx) + frag_body_len(hs_type, idx))
}

/// The datagram of fragment `idx` of `message`.
pub open spec fn frag_datagram(
    hs_type: u8,
    version: u8,
    sid: Seq<u8>,
    message: Seq<u8>,
    idx: int,
) -> Seq<u8> {
    seq![version] + sid + seq![hs_type, idx as u8, frag_count(hs_type)] + frag_body(
        hs_type,
        message,
        idx,
    ) + zeros((HS_FRAG_BODY_MAX - frag_body_len(hs_type, idx)) as nat)
}

/// A datagram that is structurally a fragment.
pub open spec fn is_fragment(dg: Seq<u8>) -> bool {
    &&& dg.len() == PACKET_SIZE
    &&& dg[0] == PROTOCOL_VERSION
    &&& known_type(dg[9])
    &&& dg[11] == frag_count(dg[9])
    &&& dg[10] < dg[11]
}

/// What parsing the datagram `dg` is to give: `f`.
pub open spec fn fragment_of(dg: Seq<u8>, f: HandshakeFragment) -> bool {
    &&& is_fragment(dg)
    &&& f.version == PROTOCOL_VERSION
    &&& f.sid@ == dg.subrange(1, 9)
    &&& f.hs_type == dg[9]
    &&& f.frag_idx == dg[10]
    &&& f.frag_total == dg[11]
    &&& f.body@ == dg.subrange(12, 12 + frag_body_len(dg[9], dg[10] as int))
}

/// Parsing a fragment of a message gives back the session, the type, the
/// place and the part of the message that it carries.
pub proof fn fragment_roundtrip(
    hs_type: u8,
    sid: [u8; SESSION_ID_LEN],
    message: Seq<u8>,
    idx: int,
    f: HandshakeFragment,
)
    requires
        known_type(hs_type),
        message.len() == body_len(hs_type),
        0 <= idx < frag_count(hs_type),
    ensures
        is_fragment(frag_datagram(hs_type, PROTOCOL_VERSION, sid@, message, idx)),
        fragment_of(frag_datagram(hs_type, PROTOCOL_VERSION, sid@, message, idx), f) ==> {
            &&& f.sid == sid
            &&& f.hs_type == hs_type
            &&& f.frag_idx == idx
            &&& f.frag_total == frag_count(hs_type)
            &&& f.body@ == frag_body(hs_type, message, idx)
        },
{
    let dg = frag_datagram(hs_type, PROTOCOL_VERSION, sid@, message, idx);
    assert(dg.len() == PACKET_SIZE);
    assert(dg.subrange(1, 9) =~= sid@);
    assert(dg.subrange(12, 12 + frag_body_len(hs_type, idx)) =~= frag_body(hs_type, message, idx));
    lemma_array_ext(f.sid, sid);
}

impl HandshakeFragment {
    /// Strict parsing of a datagram. Checked in order: version, type, number
    /// of fragments, index.
    pub fn from_datagram(pkt: &WirePacket) -> (r: Result<Self, CodecError>)
        ensures
            match r {
                Ok(f) => fragment_of(pkt@, f),
                Err(e) => {
                    &&& !is_fragment(pkt@)
                    &&& e == if pkt@[0] != PROTOCOL_VERSION {
                        CodecError::InvalidVersion { expected: PROTOCOL_VERSION, found: pkt@[0] }
                    } else if !known_type(pkt@[9]) {
                        CodecError::InvalidMessageType(pkt@[9])
                    } else if pkt@[11] != frag_count(pkt@[9]) {
                        CodecError::Truncated {
                            field: "frag_total",
                            min: frag_count(pkt@[9]) as usize,
                            got: pkt@[11] as usize,
                        }
                    } else {
                        CodecError::Truncated {
                            field: "frag_idx",
                            min: pkt@[11] as usize,
                            got: pkt@[10] as usize,
                        }
                    }
                },
            },
    {
        let bytes: &[u8] = &pkt.bytes;
        let version: u8 = bytes[0];
        if version != PROTOCOL_VERSION {
            return Err(CodecError::InvalidVersion { expected: PROTOCOL_VERSION, found: version });
        }
        let sid: [u8; SESSION_ID_LEN] = take_array(bytes, 1);
        let hs_type: u8 = bytes[9];
        let frag_idx: u8 = bytes[10];
        let frag_total: u8 = bytes[11];
        let (expected, msg_len): (u8, usize) = match (
            expected_frag_count(hs_type),
            message_body_len(hs_type),
        ) {
            (Some(n), Some(l)) => (n, l),
            _ => return Err(CodecError::InvalidMessageType(hs_type)),
        };
        if frag_total != expected {
            return Err(
                CodecError::Truncated {
                    field: "frag_total",
                    min: expected as usize,
                    got: frag_total as usize,
                },
            );
        }
        if frag_idx >= frag_total {
            return Err(
                CodecError::Truncated {
                    field: "frag_idx",
                    min: frag_total as usize,
                    got: frag_idx as usize,
                },
            );
        }
        let start: usize = frag_idx as usize * 1268;
        let rest: usize = msg_len - start;
        let len: usize = if rest < HS_FRAG_BODY_MAX {
            rest
        } else {
            HS_FRAG_BODY_MAX
        };
        let body = slice_to_vec(&bytes[HS_FRAG_HEADER_LEN..HS_FRAG_HEADER_LEN + len]);
        Ok(HandshakeFragment { version, sid, hs_type, frag_idx, frag_total, body })
    }
}

/// Cuts a message into its datagrams. The same message always gives the same
/// datagrams, so a retransmission is byte-identical.
pub fn fragment_message(
    hs_type: u8,
    version: u8,
    sid: [u8; SESSION_ID_LEN],
    message: &[u8],
) -> (r: Result<Vec<WirePacket>, CodecError>)
    ensures
        match r {
            Ok(v) => {
                &&& known_type(hs_type) && message@.len() == body_len(hs_type)
                &&& datagrams(v@) == fragments(hs_type, version, sid@, message@)
            },
            Err(e) => if !known_type(hs_type) {
                e == CodecError::InvalidMessageType(hs_type)
            } else {
                message@.len() != body_len(hs_type) && e == (CodecError::WrongLength {
                    field: "handshake message",
                    expected: body_len(hs_type),
                    got: message@.len() as usize,
                })
            },
        },
{
    let (total, msg_len): (u8, usize) = match (
        expected_frag_count(hs_type),
        message_body_len(hs_type),
    ) {
        (Some(n), Some(l)) => (n, l),
        _ => return Err(CodecError::InvalidMessageType(hs_type)),
    };
    if message.len() != msg_len {
        return Err(
            CodecError::WrongLength {
                field: "handshake message",
                expected: msg_len,
                got: message.len(),
            },
        );
    }
    let mut out: Vec<WirePacket> = Vec::new();
    let mut idx: u8 = 0;
    while idx < total
        invariant
            idx <= total,
            known_type(hs_type),
            total == frag_count(hs_type),
            msg_len == body_len(hs_type),
            message@.len() == msg_len,
            out@.len() == idx,
            forall|j: int|
                0 <= j < idx ==> (#[trigger] out@[j])@ == frag_datagram(
                    hs_type,
                    version,
                    sid@,
                    message@,
                    j,
                ),
        decreases total - idx,
    {
        let mut dg = [0u8; PACKET_SIZE];
        dg[0] = version;
        write_at(&mut dg, 1, &sid);
        dg[9] = hs_type;
        dg[10] = idx;
        dg[11] = total;
        let start: usize = idx as usize * 1268;
        let rest: usize = msg_len - start;
        let len: usize = if rest < HS_FRAG_BODY_MAX {
            rest
        } else {
            HS_FRAG_BODY_MAX
        };
        write_at(&mut dg, HS_FRAG_HEADER_LEN, &message[start..start + len]);
        assert(dg@ =~= frag_datagram(hs_type, version, sid@, message@, idx as int));
        out.push(WirePacket { bytes: dg });
        idx += 1;
    }
    assert(datagrams(out@) =~= fragments(hs_type, version, sid@, message@));
    Ok(out)
}

/// The bytes of a list of packets.
pub open spec fn datagrams(packets: Seq<WirePacket>) -> Seq<Seq<u8>> {
    Seq::new(packets.len(), |i: int| packets[i]@)
}

/// The datagrams of a message.
pub open spec fn fragments(hs_type: u8, version: u8, sid: Seq<u8>, message: Seq<u8>) -> Seq<
    Seq<u8>,
> {
    Seq::new(
        frag_count(hs_type) as nat,
        |i: int| frag_datagram(hs_type, version, sid, message, i),
    )
}

/// Copies of the packets, in order.
pub fn duplicate_packets(packets: &[WirePacket]) -> (r: Vec<WirePacket>)
    ensures
        r@ == packets@,
{
    let mut out: Vec<WirePacket> = Vec::new();
    let mut i: usize = 0;
    while i < packets.len()
        invariant
            i <= packets@.len(),
            out@ == packets@.subrange(0, i as int),
        decreases packets@.len() - i,
    {
        out.push(packets[i].duplicate());
        i += 1;
        assert(out@ =~= packets@.subrange(0, i as int));
    }
    assert(out@ =~= packets@);
    out
}

/// What a fragment did to an assembler.
#[derive(Debug, Clone, Copy, PartialEq, Eq, Structural)]
pub enum FragmentResult {
    /// Nothing: duplicate, inconsistent, or already complete.
    Ignored,
    /// New data, not yet complete.
    Advanced,
    /// The message became complete.
    Completed,
}

/// Order-independent reassembly of one message.
pub struct FragmentAssembler {
    hs_type: u8,
    total: u8,
    received: [bool; MAX_FRAGS],
    buffer: Vec<u8>,
    complete: bool,
}

/// What an assembler holds.
#[verifier::ext_equal]
pub struct AssemblerView {
    pub hs_type: u8,
    /// Which fragments have arrived.
    pub received: Seq<bool>,
    pub buffer: Seq<u8>,
}

impl AssemblerView {
    /// An assembler that has received nothing.
    pub open spec fn fresh(hs_type: u8) -> Self {
        AssemblerView {
            hs_type,
            received: Seq::new(frag_count(hs_type) as nat, |i: int| false),
            buffer: zeros(body_len(hs_type) as nat),
        }
    }

    pub open spec fn wf(self) -> bool {
        &&& known_type(self.hs_type)
        &&& self.received.len() == frag_count(self.hs_type)
        &&& self.buffer.len() == body_len(self.hs_type)
    }

    /// Every fragment has arrived.
    pub open spec fn complete(self) -> bool {
        forall|i: int| 0 <= i < self.received.len() ==> #[trigger] self.received[i]
    }

    /// A fragment of the right type and place that is new and fits.
    pub open spec fn takes(self, hs_type: u8, total: u8, idx: u8, body: Seq<u8>) -> bool {
        &&& !self.complete()
        &&& hs_type == self.hs_type
        &&& total == self.received.len()
        &&& idx < total
        &&& !self.received[idx as int]
        &&& frag_start(idx as int) + body.len() <= self.buffer.len()
    }

    /// The assembler after a fragment was offered to it.
    pub open spec fn offered(self, hs_type: u8, total: u8, idx: u8, body: Seq<u8>) -> Self {
        if self.takes(hs_type, total, idx, body) {
            AssemblerView {
                received: self.received.update(idx as int, true),
                buffer: splice(self.buffer, frag_start(idx as int), body),
                ..self
            }
        } else {
            self
        }
    }

    /// What the assembler reports of that.
    pub open spec fn report(self, hs_type: u8, total: u8, idx: u8, body: Seq<u8>) -> FragmentResult {
        if !self.takes(hs_type, total, idx, body) {
            FragmentResult::Ignored
        } else if self.offered(hs_type, total, idx, body).complete() {
            FragmentResult::Completed
        } else {
            FragmentResult::Advanced
        }
    }

    /// The assembler after it was offered the fragments of `message` with the
    /// indices in `order`, one after the other.
    pub open spec fn fed(self, message: Seq<u8>, order: Seq<int>) -> Self
        decreases order.len(),
    {
        if order.len() == 0 {
            self
        } else {
            let i = order.last();
            self.fed(message, order.drop_last()).offered(
                self.hs_type,
                frag_count(self.hs_type),
                i as u8,
                frag_body(self.hs_type, message, i),
            )
        }
    }
}

/// Reassembly does not depend on order or duplicates: fed with the fragments
/// of a message in any order, with any repetitions, an assembler is complete
/// as soon as every fragment was among them, not before, and then holds the
/// message.
pub proof fn reassembly_is_order_independent(hs_type: u8, message: Seq<u8>, order: Seq<int>)
    requires
        known_type(hs_type),
        message.len() == body_len(hs_type),
        forall|k: int| 0 <= k < order.len() ==> 0 <= #[trigger] order[k] < frag_count(hs_type),
    ensures
        ({
            let a = AssemblerView::fresh(hs_type).fed(message, order);
            &&& a.complete() <==> (forall|i: int|
                0 <= i < frag_count(hs_type) ==> #[trigger] order.contains(i))
            &&& a.complete() ==> a.buffer == message
        }),
{
    lemma_fed(hs_type, message, order);
    let a = AssemblerView::fresh(hs_type).fed(message, order);
    if a.complete() {
        assert forall|i: int| 0 <= i < frag_count(hs_type) implies #[trigger] order.contains(i) by {
            assert(a.received[i]);
        }
        assert forall|p: int| 0 <= p < message.len() implies a.buffer[p] == message[p] by {
            let i = p / 1268;
            assert(0 <= i < frag_count(hs_type));
            assert(a.received[i]);
            assert(frag_body(hs_type, a.buffer, i)[p - i * 1268] == frag_body(hs_type, message, i)[p
                - i * 1268]);
        }
        assert(a.buffer =~= message);
    }
}

/// What the datagram of one more fragment carries, and what an assembler that
/// was fed with other fragments of the message makes of it.
pub proof fn lemma_one_more_fragment(
    hs_type: u8,
    sid: Seq<u8>,
    message: Seq<u8>,
    order: Seq<int>,
    idx: int,
)
    requires
        known_type(hs_type),
        sid.len() == SESSION_ID_LEN,
        message.len() == body_len(hs_type),
        forall|k: int| 0 <= k < order.len() ==> 0 <= #[trigger] order[k] < frag_count(hs_type),
        0 <= idx < frag_count(hs_type),
    ensures
        ({
            let dg = frag_datagram(hs_type, PROTOCOL_VERSION, sid, message, idx);
            let body = dg.subrange(12, 12 + frag_body_len(dg[9], dg[10] as int));
            let a = AssemblerView::fresh(hs_type).fed(message, order);
            let b = AssemblerView::fresh(hs_type).fed(message, order.push(idx));
            &&& is_fragment(dg)
            &&& dg[9] == hs_type
            &&& dg[10] == idx
            &&& dg.subrange(1, 9) == sid
            &&& a.wf()
            &&& a.offered(dg[9], dg[11], dg[10], body) == b
            &&& a.report(dg[9], dg[11], dg[10], body) == FragmentResult::Completed <==> b.complete()
                && !a.complete()
            &&& b.complete() ==> b.buffer == message
        }),
{
    let dg = frag_datagram(hs_type, PROTOCOL_VERSION, sid, message, idx);
    let body = frag_body(hs_type, message, idx);
    let more = order.push(idx);
    assert(dg.len() == PACKET_SIZE);
    assert(dg.subrange(1, 9) =~= sid);
    assert(dg.subrange(12, 12 + frag_body_len(hs_type, idx)) =~= body);
    assert(more.drop_last() =~= order);
    lemma_fed(hs_type, message, order);
    reassembly_is_order_independent(hs_type, message, more);
    let a = AssemblerView::fresh(hs_type).fed(message, order);
    assert(body.len() == frag_body_len(hs_type, idx));
    if !a.takes(hs_type, frag_count(hs_type), idx as u8, body) {
        assert(a.complete() || a.received[idx]);
    }
}

/// After any feeding: a slot is filled exactly if its index was offered, and a
/// filled slot holds its part of the message.
proof fn lemma_fed(hs_type: u8, message: Seq<u8>, order: Seq<int>)
    requires
        known_type(hs_type),
        message.len() == body_len(hs_type),
        forall|k: int| 0 <= k < order.len() ==> 0 <= #[trigger] order[k] < frag_count(hs_type),
    ensures
        ({
            let a = AssemblerView::fresh(hs_type).fed(message, order);
            &&& a.wf()
            &&& a.hs_type == hs_type
            &&& forall|i: int|
                0 <= i < frag_count(hs_type) ==> #[trigger] a.received[i] == order.contains(i)
            &&& forall|i: int|
                0 <= i < frag_count(hs_type) && #[trigger] a.received[i] ==> frag_body(
                    hs_type,
                    a.buffer,
                    i,
                ) == frag_body(hs_type, message, i)
        }),
    decreases order.len(),
{
    if order.len() > 0 {
        let prev = order.drop_last();
        let j = order.last();
        lemma_fed(hs_type, message, prev);
        let b = AssemblerView::fresh(hs_type).fed(message, prev);
        let a = AssemblerView::fresh(hs_type).fed(message, order);
        assert(forall|i: int| order.contains(i) <==> prev.contains(i) || i == j) by {
            assert(order =~= prev.push(j));
            assert forall|i: int| order.contains(i) implies prev.contains(i) || i == j by {
                let k = choose|k: int| 0 <= k < order.len() && order[k] == i;
                if k < prev.len() {
                    assert(prev[k] == i);
                }
            }
            assert forall|i: int| prev.contains(i) || i == j implies order.contains(i) by {
                if prev.contains(i) {
                    let k = choose|k: int| 0 <= k < prev.len() && prev[k] == i;
                    assert(order[k] == i);
                } else {
                    assert(order[order.len() - 1] == i);
                }
            }
        }
        let body = frag_body(hs_type, message, j);
        assert(body.len() == frag_body_len(hs_type, j));
        if b.takes(hs_type, frag_count(hs_type), j as u8, body) {
            assert forall|i: int| 0 <= i < frag_count(hs_type) && #[trigger] a.received[i] implies frag_body(
                hs_type,
                a.buffer,
                i,
            ) == frag_body(hs_type, message, i) by {
                if i == j {
                    assert(frag_body(hs_type, a.buffer, i) =~= body);
                } else {
                    assert(b.received[i]);
                    assert(frag_body(hs_type, a.buffer, i) =~= frag_body(hs_type, b.buffer, i));
                }
            }
        } else {
            assert(b.received[j] || b.complete());
            assert(b.received[j]);
        }
    }
}

impl View for FragmentAssembler {
    type V = AssemblerView;

    closed spec fn view(&self) -> AssemblerView {
        AssemblerView {
            hs_type: self.hs_type,
            received: self.received@.subrange(0, self.total as int),
            buffer: self.buffer@,
        }
    }
}

/// A consistent assembler holds as many slots and bytes as its message needs.
pub proof fn assembler_is_well_formed(a: FragmentAssembler)
    requires
        a.wf(),
    ensures
        a@.wf(),
{
}

impl FragmentAssembler {
    /// Internal consistency.
    pub closed spec fn wf(self) -> bool {
        &&& self.total <= MAX_FRAGS
        &&& self@.wf()
        &&& self.complete == self@.complete()
    }

    /// A fresh assembler for a message type.
    pub fn new(hs_type: u8) -> (r: Option<Self>)
        ensures
            match r {
                Some(a) => known_type(hs_type) && a.wf() && a@ == AssemblerView::fresh(hs_type)
                    && !a@.complete(),
                None => !known_type(hs_type),
            },
    {
        let (total, msg_len): (u8, usize) = match (
            expected_frag_count(hs_type),
            message_body_len(hs_type),
        ) {
            (Some(n), Some(l)) => (n, l),
            _ => return None,
        };
        let a = FragmentAssembler {
            hs_type,
            total,
            received: [false; MAX_FRAGS],
            buffer: vec![0u8; msg_len],
            complete: false,
        };
        proof {
            assert(a@.received =~= AssemblerView::fresh(hs_type).received);
            assert(a@.buffer =~= AssemblerView::fresh(hs_type).buffer);
            assert(!a@.received[0]);
        }
        Some(a)
    }

    /// Offers a fragment.
    pub fn add_fragment(&mut self, frag: &HandshakeFragment) -> (r: FragmentResult)
        requires
            old(self).wf(),
        ensures
            final(self).wf(),
            final(self)@ == old(self)@.offered(
                frag.hs_type,
                frag.frag_total,
                frag.frag_idx,
                frag.body@,
            ),
            r == old(self)@.report(frag.hs_type, frag.frag_total, frag.frag_idx, frag.body@),
    {
        let ghost before = self@;
        if self.complete || frag.hs_type != self.hs_type || frag.frag_total != self.total {
            return FragmentResult::Ignored;
        }
        let idx: usize = frag.frag_idx as usize;
        if idx >= self.total as usize {
            return FragmentResult::Ignored;
        }
        assert(before.received[idx as int] == self.received@[idx as int]);
        if self.received[idx] {
            return FragmentResult::Ignored;
        }
        let start: usize = idx * 1268;
        if frag.body.len() > self.buffer.len() || start > self.buffer.len() - frag.body.len() {
            return FragmentResult::Ignored;
        }
        self.received[idx] = true;
        let mut i: usize = 0;
        while i < frag.body.len()
            invariant
                i <= frag.body@.len(),
                start + frag.body@.len() <= before.buffer.len(),
                self.buffer@.len() == before.buffer.len(),
                self.hs_type == old(self).hs_type,
                self.total == old(self).total,
                self.complete == old(self).complete,
                self.received@ == old(self).received@.update(idx as int, true),
                forall|j: int|
                    0 <= j < before.buffer.len() ==> #[trigger] self.buffer@[j] == if start <= j
                        < start + i {
                        frag.body@[j - start]
                    } else {
                        before.buffer[j]
                    },
            decreases frag.body@.len() - i,
        {
            assert(start + i < self.buffer.len());
            self.buffer[start + i] = frag.body[i];
            i += 1;
        }
        let ghost target = before.offered(
            frag.hs_type,
            frag.frag_total,
            frag.frag_idx,
            frag.body@,
        );
        assert(self@.buffer =~= target.buffer);
        assert(self@.received =~= target.received);
        let mut all: bool = true;
        let mut k: usize = 0;
        while k < self.total as usize
            invariant
                k <= self.total <= MAX_FRAGS,
                self@.received == target.received,
                self@.received.len() == self.total,
                all == (forall|j: int| 0 <= j < k ==> #[trigger] target.received[j]),
            decreases self.total - k,
        {
            assert(target.received[k as int] == self.received@[k as int]);
            if !self.received[k] {
                all = false;
            }
            k += 1;
        }
        if all {
            self.complete = true;
            assert(self@ =~= target);
            FragmentResult::Completed
        } else {
            assert(self@ =~= target);
            FragmentResult::Advanced
        }
    }

    /// The message, once complete.
    pub fn message(&self) -> (r: Option<&[u8]>)
        requires
            self.wf(),
        ensures
            match r {
                Some(m) => self@.complete() && m@ == self@.buffer,
                None => !self@.complete(),
            },
    {
        if self.complete {
            Some(self.buffer.as_slice())
        } else {
            None
        }
    }
}

/// A datagram of a message says which session, which message and which part of it
/// it carries, then that part, then zeros: byte `j` of the body of fragment `idx`
/// is byte `1268 * idx + j` of the message.
pub proof fn fragment_layout(hs_type: u8, version: u8, sid: Seq<u8>, message: Seq<u8>, idx: int)
    requires
        known_type(hs_type),
        sid.len() == 8,
        message.len() == body_len(hs_type),
        0 <= idx < frag_count(hs_type),
    ensures
        ({
            let dg = frag_datagram(hs_type, version, sid, message, idx);
            &&& dg.len() == 1280
            &&& dg[0] == version
            &&& dg.subrange(1, 9) == sid
            &&& dg[9] == hs_type
            &&& dg[10] == idx
            &&& dg[11] == frag_count(hs_type)
            &&& forall|j: int|
                0 <= j < 1268 ==> #[trigger] dg[12 + j] == if 1268 * idx + j < message.len() {
                    message[1268 * idx + j]
                } else {
                    0u8
                }
        }),
{
    let dg = frag_datagram(hs_type, version, sid, message, idx);
    assert(dg.subrange(1, 9) =~= sid);
}

/// The three messages have their type bytes, sizes and numbers of fragments, and
/// no other byte is a type.
pub proof fn messages_have_their_sizes(hs_type: u8)
    ensures
        known_type(hs_type) <==> hs_type == 0x10 || hs_type == 0x20 || hs_type == 0x30,
        body_len(0x10) == 4534 && frag_count(0x10) == 4,
        body_len(0x20) == 5622 && frag_count(0x20) == 5,
        body_len(0x30) == 1113 && frag_count(0x30) == 1,
{
}

/// A datagram of the right size is a fragment exactly if its version, its type,
/// its number of fragments and its index fit.
pub proof fn fragments_are_recognised(dg: Seq<u8>, f: HandshakeFragment)
    requires
        dg.len() == 1280,
    ensures
        is_fragment(dg) <==> dg[0] == 1 && dg[10] < dg[11] && (dg[9] == 0x10 && dg[11] == 4
            || dg[9] == 0x20 && dg[11] == 5 || dg[9] == 0x30 && dg[11] == 1),
        fragment_of(dg, f) ==> f.version == dg[0] && f.sid@ == dg.subrange(1, 9) && f.hs_type
            == dg[9] && f.frag_idx == dg[10] && f.frag_total == dg[11] && f.body@ == dg.subrange(
            12,
            12 + f.body@.len() as int,
        ) && f.body@.len() == if body_len(dg[9]) - 1268 * dg[10] < 1268 {
            body_len(dg[9]) - 1268 * dg[10]
        } else {
            1268
        },
{
}

/// An assembler takes in a fragment exactly if it belongs to its message, is new
/// and fits; then the fragment is marked and written at its place, and nothing
/// else changes. Any other fragment changes nothing and is reported as ignored.
pub proof fn assembler_takes_new_fragments_only(
    a: AssemblerView,
    hs_type: u8,
    total: u8,
    idx: u8,
    body: Seq<u8>,
)
    requires
        a.wf(),
    ensures
        ({
            let missing = exists|i: int| 0 <= i < a.received.len() && !(#[trigger] a.received[i]);
            let fits = hs_type == a.hs_type && total == a.received.len() && idx < total
                && !a.received[idx as int] && 1268 * idx + body.len() <= a.buffer.len();
            let b = a.offered(hs_type, total, idx, body);
            let r = a.report(hs_type, total, idx, body);
            if missing && fits {
                &&& b.hs_type == a.hs_type
                &&& b.received.len() == a.received.len()
                &&& forall|i: int|
                    0 <= i < a.received.len() ==> #[trigger] b.received[i] == (a.received[i] || i
                        == idx)
                &&& b.buffer.len() == a.buffer.len()
                &&& forall|j: int|
                    0 <= j < a.buffer.len() ==> #[trigger] b.buffer[j] == if 1268 * idx <= j < 1268
                        * idx + body.len() {
                        body[j - 1268 * idx]
                    } else {
                        a.buffer[j]
                    }
                &&& r == if (forall|i: int|
                    0 <= i < a.received.len() && i != idx ==> #[trigger] a.received[i]) {
                    FragmentResult::Completed
                } else {
                    FragmentResult::Advanced
                }
            } else {
                b == a && r == FragmentResult::Ignored
            }
        }),
{
    let b = a.offered(hs_type, total, idx, body);
    if a.takes(hs_type, total, idx, body) {
        if b.complete() {
            assert forall|i: int| 0 <= i < a.received.len() && i != idx implies #[trigger] a.received[i] by {
                assert(b.received[i]);
            }
        }
    }
}

/// A message is sent as its fragments, each once and in order.
pub proof fn message_is_sent_in_order(hs_type: u8, version: u8, sid: Seq<u8>, message: Seq<u8>)
    ensures
        fragments(hs_type, version, sid, message).len() == frag_count(hs_type),
        forall|i: int|
            0 <= i < frag_count(hs_type) ==> #[trigger] fragments(hs_type, version, sid, message)[i]
                == frag_datagram(hs_type, version, sid, message, i),
{
}

/// The bytes of a list of packets are those of its packets, in order.
pub proof fn datagrams_are_in_order(packets: Seq<WirePacket>)
    ensures
        datagrams(packets).len() == packets.len(),
        forall|i: int|
            0 <= i < packets.len() ==> #[trigger] datagrams(packets)[i] == packets[i].bytes@,
{
}

} // verus!
