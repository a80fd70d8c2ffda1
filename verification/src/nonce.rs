//! Per-direction nonce counters.
//!
//! The AEAD nonce is the 4-byte secret prefix of a direction followed by the
//! 64-bit big-endian packet counter. A sender's counter only grows and stops
//! at [`MAX_PACKET_NONCE`], so no nonce is built twice for one prefix.
use crate::bytes::{be_bytes, be_value, lemma_be_roundtrip, u64_to_be, write_at};
use crate::codec::{AEAD_NONCE_LEN, MAX_PACKET_NONCE};
use crate::error::CodecError;
use vstd::prelude::*;

verus! {

/// A 12-byte AEAD nonce.
#[derive(Debug, Clone, Copy, PartialEq, Eq)]
pub struct AeadNonce {
    pub bytes: [u8; AEAD_NONCE_LEN],
}

impl AeadNonce {
    pub fn as_bytes(&self) -> (r: &[u8; AEAD_NONCE_LEN])
        ensures
            *r == self.bytes,
    {
        &self.bytes
    }
}

/// The nonce of packet `counter` in the direction of `prefix`.
pub open spec fn session_nonce(prefix: Seq<u8>, counter: u64) -> Seq<u8> {
    prefix + be_bytes(counter)
}

/// Distinct counters or distinct prefixes give distinct nonces.
pub proof fn nonces_are_unique(p: Seq<u8>, a: u64, q: Seq<u8>, b: u64)
    requires
        p.len() == 4,
        q.len() == 4,
    ensures
        session_nonce(p, a).len() == AEAD_NONCE_LEN,
        session_nonce(p, a) == session_nonce(q, b) ==> p == q && a == b,
{
    lemma_be_roundtrip(a);
    lemma_be_roundtrip(b);
    let (x, y) = (session_nonce(p, a), session_nonce(q, b));
    assert(x.subrange(0, 4) =~= p && y.subrange(0, 4) =~= q);
    assert(x.subrange(4, 12) =~= be_bytes(a) && y.subrange(4, 12) =~= be_bytes(b));
}

/// Builds the nonce of packet `counter`.
pub fn build_session_nonce(prefix: &[u8; 4], counter: u64) -> (r: AeadNonce)
    ensures
        r.bytes@ == session_nonce(prefix@, counter),
{
    let mut bytes = [0u8; AEAD_NONCE_LEN];
    write_at(&mut bytes, 0, prefix);
    let be = u64_to_be(counter);
    write_at(&mut bytes, 4, &be);
    assert(bytes@ =~= session_nonce(prefix@, counter));
    AeadNonce { bytes }
}

/// Whether `counter` lies within the safety margin below the wrap-around.
pub fn is_counter_exhausted(counter: u64) -> (r: bool)
    ensures
        r == (counter >= MAX_PACKET_NONCE),
{
    crate::codec::is_counter_exhausted(counter)
}

/// The first counter that is never used.
pub fn max_packet_nonce() -> (r: u64)
    ensures
        r == MAX_PACKET_NONCE,
{
    MAX_PACKET_NONCE
}

/// Send counter of one direction.
pub struct SendCounter {
    counter: u64,
}

impl View for SendCounter {
    type V = u64;

    closed spec fn view(&self) -> u64 {
        self.counter
    }
}

impl SendCounter {
    /// Starts at 0.
    pub fn new() -> (r: Self)
        ensures
            r@ == 0,
    {
        SendCounter { counter: 0 }
    }

    /// The counter of the next packet.
    pub fn get(&self) -> (r: u64)
        ensures
            r == self@,
    {
        self.counter
    }

    /// Skips forward to `counter`. A counter is never moved back: a smaller
    /// value changes nothing.
    pub fn skip_to(&mut self, counter: u64)
        ensures
            final(self)@ == if counter > old(self)@ {
                counter
            } else {
                old(self)@
            },
    {
        if counter > self.counter {
            self.counter = counter;
        }
    }

    /// The nonce of the next packet; the counter advances by one. At the
    /// threshold nothing changes and the error carries the counter.
    pub fn next_nonce(&mut self, prefix: &[u8; 4]) -> (r: Result<AeadNonce, CodecError>)
        ensures
            match r {
                Ok(n) => {
                    &&& old(self)@ < MAX_PACKET_NONCE
                    &&& n.bytes@ == session_nonce(prefix@, old(self)@)
                    &&& final(self)@ == old(self)@ + 1
                },
                Err(e) => {
                    &&& old(self)@ >= MAX_PACKET_NONCE
                    &&& e == (CodecError::NonceExhausted { counter: old(self)@ })
                    &&& final(self)@ == old(self)@
                },
            },
    {
        if is_counter_exhausted(self.counter) {
            return Err(CodecError::NonceExhausted { counter: self.counter });
        }
        let nonce = build_session_nonce(prefix, self.counter);
        self.counter = self.counter + 1;
        Ok(nonce)
    }
}

impl Default for SendCounter {
    fn default() -> (r: Self)
        ensures
            r@ == 0,
    {
        SendCounter::new()
    }
}

/// A nonce is the prefix of its direction, then the counter, the highest byte of
/// the counter first.
pub proof fn nonce_layout(prefix: Seq<u8>, counter: u64)
    requires
        prefix.len() == 4,
    ensures
        session_nonce(prefix, counter).len() == 12,
        session_nonce(prefix, counter).subrange(0, 4) == prefix,
        be_value(session_nonce(prefix, counter).subrange(4, 12)) == counter,
{
    let n = session_nonce(prefix, counter);
    lemma_be_roundtrip(counter);
    assert(n.subrange(0, 4) =~= prefix);
    assert(n.subrange(4, 12) =~= be_bytes(counter));
}

} // verus!
