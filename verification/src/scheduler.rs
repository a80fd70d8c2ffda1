//! Cover-traffic scheduling.
//!
//! The schedule is purely periodic: it tracks one deadline and, once that
//! deadline has passed, allows at most one emission and starts over from
//! "now". A long stall gives a single catch-up packet, never a burst.
use crate::codec::PACKET_SIZE;
use crate::time::{not_before, Duration, Instant, MAX_DURATION_NANOS};
use vstd::prelude::*;

verus! {

/// Default cover rate: 2 Mbit/s.
pub const DEFAULT_COVER_RATE_BPS: u64 = 2_000_000;

/// Cover policy of a transport. It is never negotiated.
#[derive(Debug, Clone, Copy, PartialEq, Eq, Structural)]
pub struct CoverPolicy {
    /// Emit cover packets at all.
    pub enabled: bool,
    /// Time between two emissions of one session.
    pub interval: Duration,
}

/// Nanoseconds between packets at a given bit rate: the bits of one packet
/// divided by the rate, a rate of 0 read as 1, and never 0.
pub open spec fn interval_nanos(rate_bps: u64) -> int {
    let rate: int = if rate_bps == 0 {
        1
    } else {
        rate_bps as int
    };
    let exact = PACKET_SIZE * 8 * 1_000_000_000 / rate;
    if exact == 0 {
        1
    } else {
        exact
    }
}

/// A higher rate never gives a longer interval, and no interval is zero.
pub proof fn interval_is_antitone(lo: u64, hi: u64)
    requires
        lo <= hi,
    ensures
        interval_nanos(lo) >= interval_nanos(hi) >= 1,
{
    let a: int = if lo == 0 {
        1
    } else {
        lo as int
    };
    let b: int = if hi == 0 {
        1
    } else {
        hi as int
    };
    let n: int = PACKET_SIZE * 8 * 1_000_000_000;
    assert(n / a >= n / b >= 0) by (nonlinear_arith)
        requires
            1 <= a <= b,
            n >= 0,
    ;
}

/// The emission interval of a bit rate.
pub fn interval_from_rate_bps(rate_bps: u64) -> (r: Duration)
    ensures
        r.nanos() == interval_nanos(rate_bps),
{
    let bits_per_packet: u64 = PACKET_SIZE as u64 * 8;
    let rate: u64 = if rate_bps == 0 {
        1
    } else {
        rate_bps
    };
    let exact: u64 = bits_per_packet * 1_000_000_000 / rate;
    proof {
        interval_is_antitone(rate_bps, rate_bps);
    }
    let nanos: u64 = if exact == 0 {
        1
    } else {
        exact
    };
    Duration::from_nanos(nanos)
}

impl Default for CoverPolicy {
    /// Enabled, at the default rate.
    fn default() -> (r: Self)
        ensures
            r.enabled,
            r.interval.nanos() == interval_nanos(DEFAULT_COVER_RATE_BPS),
    {
        CoverPolicy { enabled: true, interval: interval_from_rate_bps(DEFAULT_COVER_RATE_BPS) }
    }
}

/// The cover schedule of one direction of one session.
#[derive(Debug, Clone)]
pub struct CoverScheduler {
    policy: CoverPolicy,
    next: Option<Instant>,
}

/// What a schedule holds.
pub struct ScheduleView {
    pub policy: CoverPolicy,
    /// Place of the armed deadline on the timeline.
    pub next: Option<nat>,
}

impl View for CoverScheduler {
    type V = ScheduleView;

    closed spec fn view(&self) -> ScheduleView {
        ScheduleView {
            policy: self.policy,
            next: match self.next {
                Some(t) => Some(t.nanos()),
                None => None,
            },
        }
    }
}

impl ScheduleView {
    /// An emission is due at `now`.
    pub open spec fn due(self, now: Instant) -> bool {
        self.policy.enabled && (self.next matches Some(d) && now.nanos() >= d)
    }

    /// Scheduling begins at `now`, unless it already runs or is disabled.
    pub open spec fn started(self, now: Instant) -> Self {
        if self.next is None && self.policy.enabled {
            ScheduleView { next: Some(now.nanos() + self.policy.interval.nanos()), ..self }
        } else {
            self
        }
    }

    /// The schedule after it was woken at `now`.
    pub open spec fn woken(self, now: Instant) -> Self {
        if !self.policy.enabled {
            ScheduleView { next: None, ..self }
        } else if self.due(now) {
            ScheduleView { next: Some(now.nanos() + self.policy.interval.nanos()), ..self }
        } else {
            self
        }
    }

    /// One interval after `now` is still on the timeline.
    pub open spec fn has_room(self, now: Instant) -> bool {
        now.nanos() + self.policy.interval.nanos() <= MAX_DURATION_NANOS
    }

    /// If starting arms a deadline, there is room for it.
    pub open spec fn can_start(self, now: Instant) -> bool {
        self.next is None && self.policy.enabled ==> self.has_room(now)
    }

    pub open spec fn stopped(self) -> Self {
        ScheduleView { next: None, ..self }
    }
}

/// However late a wake-up comes, it gives one emission: a second wake-up less
/// than one interval later gives none.
pub proof fn no_burst_after_stall(s: ScheduleView, now: Instant, again: Instant)
    requires
        s.due(now),
        now.nanos() <= again.nanos() < now.nanos() + s.policy.interval.nanos(),
    ensures
        !s.woken(now).due(again),
{
}

/// A disabled schedule never emits, whatever happens to it.
pub proof fn disabled_never_emits(s: ScheduleView, a: Instant, b: Instant)
    requires
        !s.policy.enabled,
    ensures
        !s.due(a),
        !s.started(a).due(b),
        !s.woken(a).due(b),
        s.started(a) == s,
{
}

/// Starting twice is the same as starting once, the first deadline lies one
/// interval ahead, and a stopped schedule never emits.
pub proof fn start_is_idempotent(s: ScheduleView, a: Instant, b: Instant)
    ensures
        s.started(a).started(b) == s.started(a),
        s.next is None && s.policy.enabled ==> s.started(a).next == Some(
            a.nanos() + s.policy.interval.nanos(),
        ),
        !s.stopped().due(a),
{
}

impl CoverScheduler {
    /// An unscheduled scheduler.
    pub fn new(policy: CoverPolicy) -> (r: Self)
        ensures
            r@ == (ScheduleView { policy, next: None }),
    {
        CoverScheduler { policy, next: None }
    }

    pub fn policy(&self) -> (r: CoverPolicy)
        ensures
            r == self@.policy,
    {
        self.policy
    }

    /// Begins scheduling; does nothing if a deadline is armed or the policy is
    /// disabled.
    pub fn start(&mut self, now: Instant)
        requires
            old(self)@.can_start(now),
        ensures
            final(self)@ == old(self)@.started(now),
    {
        if self.next.is_none() && self.policy.enabled {
            self.next = Some(now.plus(self.policy.interval));
        }
    }

    /// Stops scheduling.
    pub fn stop(&mut self)
        ensures
            final(self)@ == old(self)@.stopped(),
    {
        self.next = None;
    }

    /// The armed deadline.
    pub fn next_deadline(&self) -> (r: Option<Instant>)
        ensures
            match (r, self@.next) {
                (Some(t), Some(n)) => t.nanos() == n,
                (None, None) => true,
                _ => false,
            },
    {
        self.next
    }

    /// Called when the deadline arrives: whether one emission is due now. If
    /// it is, the next deadline is one interval from `now`.
    pub fn on_deadline(&mut self, now: Instant) -> (r: bool)
        requires
            old(self)@.due(now) ==> old(self)@.has_room(now),
        ensures
            r == old(self)@.due(now),
            final(self)@ == old(self)@.woken(now),
    {
        if !self.policy.enabled {
            self.next = None;
            return false;
        }
        match self.next {
            None => false,
            Some(due) => {
                if not_before(now, due) {
                    self.next = Some(now.plus(self.policy.interval));
                    true
                } else {
                    false
                }
            },
        }
    }
}

/// The interval paces the rate: at one packet per interval no more than the rate
/// is used, and an interval one nanosecond longer would use less than the rate.
/// A rate of 0 is read as 1, and the interval is never 0.
pub proof fn interval_paces_the_rate(rate_bps: u64)
    ensures
        interval_nanos(0) == interval_nanos(1),
        1 <= rate_bps <= 10_240_000_000_000 ==> interval_nanos(rate_bps) * rate_bps
            <= 10_240_000_000_000 < (interval_nanos(rate_bps) + 1) * rate_bps,
        rate_bps > 10_240_000_000_000 ==> interval_nanos(rate_bps) == 1,
{
    let n: int = 10_240_000_000_000;
    let r: int = rate_bps as int;
    assert(PACKET_SIZE * 8 * 1_000_000_000 == n);
    if 1 <= r {
        let q = n / r;
        assert(q * r <= n < (q + 1) * r) by (nonlinear_arith)
            requires
                r >= 1,
                n >= 0,
                q == n / r,
        ;
        if r <= n {
            assert(q >= 1) by (nonlinear_arith)
                requires
                    1 <= r <= n,
                    q == n / r,
            ;
        } else {
            assert(q == 0) by (nonlinear_arith)
                requires
                    r > n >= 0,
                    q == n / r,
            ;
        }
    }
}

/// An emission is due from the deadline on and not before; it moves the deadline
/// to one interval from now. A wake-up before the deadline changes nothing, and
/// no operation changes the policy.
pub proof fn deadline_decides(s: ScheduleView, deadline: nat, now: Instant)
    requires
        s.policy.enabled,
        s.next == Some(deadline),
    ensures
        now.nanos() >= deadline ==> s.due(now) && s.woken(now).next == Some(
            now.nanos() + s.policy.interval.nanos(),
        ),
        now.nanos() < deadline ==> !s.due(now) && s.woken(now) == s,
        s.woken(now).policy == s.policy,
        s.started(now) == s,
        s.stopped().next is None,
        s.stopped().policy == s.policy,
        s.stopped().started(now).next == Some(now.nanos() + s.policy.interval.nanos()),
{
}

/// Starting is possible exactly as long as the first deadline lies on the
/// timeline.
pub proof fn room_is_one_interval(s: ScheduleView, now: Instant)
    ensures
        s.has_room(now) <==> now.nanos() + s.policy.interval.nanos() <= MAX_DURATION_NANOS,
        s.next is Some || !s.policy.enabled ==> s.can_start(now),
        s.next is None && s.policy.enabled ==> (s.can_start(now) <==> s.has_room(now)),
{
}

} // verus!
