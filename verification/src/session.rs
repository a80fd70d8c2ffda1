//! Key rotation and counters of a stream session.
use crate::metrics::SessionMetrics;
use crate::time::{elapsed, Instant};
use vstd::prelude::*;

verus! {

/// Seconds after which a session that never rotated its keys is due.
pub const KEY_ROTATION_INTERVAL_SECS: u64 = 60;

/// Seconds between the creation of a session and its latest rotation after
/// which it is due again.
pub const ROTATION_FUTURE_LIMIT_SECS: u64 = 120;

/// Counters of a stream session that was created at `now`, after a handshake
/// of the given length.
pub fn stream_metrics(handshake_duration_ms: u64, now: Instant) -> (r: SessionMetrics)
    ensures
        r == (SessionMetrics {
            bytes_sent: 0,
            bytes_received: 0,
            packets_sent: 0,
            packets_received: 0,
            handshake_duration_ms: Some(handshake_duration_ms),
            created_at: Some(now),
        }),
{
    SessionMetrics {
        bytes_sent: 0,
        bytes_received: 0,
        packets_sent: 0,
        packets_received: 0,
        handshake_duration_ms: Some(handshake_duration_ms),
        created_at: Some(now),
    }
}

/// When the keys of a session were rotated.
pub struct RotationClock {
    created_at: Instant,
    rotations: Vec<Instant>,
}

/// What a rotation clock holds.
pub struct RotationView {
    pub created_at: Instant,
    pub rotations: Seq<Instant>,
}

impl View for RotationClock {
    type V = RotationView;

    closed spec fn view(&self) -> RotationView {
        RotationView { created_at: self.created_at, rotations: self.rotations@ }
    }
}

impl RotationView {
    /// Whether the keys are due at `now`. Once a rotation was recorded, what
    /// counts is how long after the creation the latest one came, as seen from
    /// `now`.
    pub open spec fn due(self, now: Instant) -> bool {
        if self.rotations.len() == 0 {
            elapsed(now, self.created_at) > KEY_ROTATION_INTERVAL_SECS * 1_000_000_000
        } else {
            elapsed(now, self.created_at) - elapsed(now, self.rotations.last())
                > ROTATION_FUTURE_LIMIT_SECS * 1_000_000_000
        }
    }
}

impl RotationClock {
    /// A session that was created at `now`.
    pub fn new(now: Instant) -> (r: Self)
        ensures
            r@ == (RotationView { created_at: now, rotations: Seq::empty() }),
    {
        let r = RotationClock { created_at: now, rotations: Vec::new() };
        assert(r@.rotations =~= Seq::empty());
        r
    }

    /// A rotation happened.
    pub fn record_key_rotation(&mut self, now: Instant)
        ensures
            final(self)@ == (RotationView {
                rotations: old(self)@.rotations.push(now),
                ..old(self)@
            }),
    {
        self.rotations.push(now);
    }

    /// Whether the keys are due. The latest rotation must not be older than
    /// the session.
    pub fn needs_key_rotation(&self, now: Instant) -> (r: bool)
        requires
            self@.rotations.len() > 0 ==> elapsed(now, self@.rotations.last()) <= elapsed(
                now,
                self@.created_at,
            ),
        ensures
            r == self@.due(now),
    {
        let age: u128 = now.duration_since(self.created_at).as_nanos();
        if self.rotations.len() == 0 {
            age > 60_000_000_000
        } else {
            let last: u128 = now.duration_since(
                self.rotations[self.rotations.len() - 1],
            ).as_nanos();
            age - last > 120_000_000_000
        }
    }
}

/// The keys of a session that never rotated them are due once more than 60
/// seconds have passed since its creation, and not before. After a rotation what
/// counts is whether the latest one came more than 120 seconds after the
/// creation.
pub proof fn rotation_is_due_after_its_interval(s: RotationView, now: Instant)
    requires
        s.created_at.nanos() <= now.nanos(),
    ensures
        s.rotations.len() == 0 ==> (s.due(now) <==> now.nanos() > s.created_at.nanos()
            + 60_000_000_000),
        s.rotations.len() > 0 && s.created_at.nanos() <= s.rotations.last().nanos() <= now.nanos()
            ==> (s.due(now) <==> s.rotations.last().nanos() > s.created_at.nanos()
            + 120_000_000_000),
{
}

} // verus!
