//! Time values: spans with nanosecond resolution, and points on an abstract
//! monotonic timeline.
//!
//! The library never reads a clock. Callers hand in the current point.
use vstd::prelude::*;

verus! {

/// The longest span: `u64::MAX` seconds and 999 999 999 nanoseconds.
pub const MAX_DURATION_NANOS: u128 = 18_446_744_073_709_551_615_999_999_999;

/// A span of time.
#[derive(Debug, Clone, Copy, PartialEq, Eq, PartialOrd, Ord, Structural)]
pub struct Duration {
    nanos: u128,
}

/// A point in time, as the span since the origin of its timeline.
#[derive(Debug, Clone, Copy, PartialEq, Eq, PartialOrd, Ord, Structural)]
pub struct Instant {
    since_origin: Duration,
}

/// Nanoseconds from `earlier` to `now`; 0 if `now` is not later.
pub open spec fn elapsed(now: Instant, earlier: Instant) -> nat {
    if now.nanos() >= earlier.nanos() {
        (now.nanos() - earlier.nanos()) as nat
    } else {
        0
    }
}

impl Duration {
    /// Length in nanoseconds.
    pub closed spec fn nanos(self) -> nat {
        self.nanos as nat
    }

    #[verifier::type_invariant]
    closed spec fn in_range(self) -> bool {
        self.nanos <= MAX_DURATION_NANOS
    }

    pub fn from_nanos(nanos: u64) -> (r: Self)
        ensures
            r.nanos() == nanos,
    {
        Duration { nanos: nanos as u128 }
    }

    pub fn from_millis(millis: u64) -> (r: Self)
        ensures
            r.nanos() == millis * 1_000_000,
    {
        Duration { nanos: millis as u128 * 1_000_000 }
    }

    pub fn from_secs(secs: u64) -> (r: Self)
        ensures
            r.nanos() == secs * 1_000_000_000,
    {
        Duration { nanos: secs as u128 * 1_000_000_000 }
    }

    /// A span of whole seconds and a fraction of a second.
    pub fn from_parts(secs: u64, subsec_nanos: u32) -> (r: Self)
        requires
            subsec_nanos < 1_000_000_000,
        ensures
            r.nanos() == secs * 1_000_000_000 + subsec_nanos,
    {
        Duration { nanos: secs as u128 * 1_000_000_000 + subsec_nanos as u128 }
    }

    /// The empty span.
    pub fn zero() -> (r: Self)
        ensures
            r.nanos() == 0,
    {
        Duration { nanos: 0 }
    }

    pub fn as_nanos(&self) -> (r: u128)
        ensures
            r == self.nanos(),
            r <= MAX_DURATION_NANOS,
    {
        proof {
            use_type_invariant(self);
        }
        self.nanos
    }

    pub fn as_millis(&self) -> (r: u128)
        ensures
            r == self.nanos() / 1_000_000,
    {
        self.nanos / 1_000_000
    }

    /// Whole seconds.
    pub fn as_secs(&self) -> (r: u64)
        ensures
            r == self.nanos() / 1_000_000_000,
    {
        proof {
            use_type_invariant(self);
        }
        (self.nanos / 1_000_000_000) as u64
    }

    /// Nanoseconds beyond the whole seconds.
    pub fn subsec_nanos(&self) -> (r: u32)
        ensures
            r == self.nanos() % 1_000_000_000,
    {
        (self.nanos % 1_000_000_000) as u32
    }

    pub fn is_zero(&self) -> (r: bool)
        ensures
            r == (self.nanos() == 0),
    {
        self.nanos == 0
    }

    /// This span repeated, at most the longest span.
    pub fn saturating_mul(self, times: u32) -> (r: Self)
        ensures
            r.nanos() == if self.nanos() * times <= MAX_DURATION_NANOS {
                self.nanos() * times
            } else {
                MAX_DURATION_NANOS as int
            },
    {
        proof {
            use_type_invariant(&self);
        }
        let t: u128 = times as u128;
        assert(self.nanos * t <= MAX_DURATION_NANOS * 0xffff_ffff) by (nonlinear_arith)
            requires
                self.nanos <= MAX_DURATION_NANOS,
                t <= 0xffff_ffff,
        ;
        let product: u128 = self.nanos * t;
        if product <= MAX_DURATION_NANOS {
            Duration { nanos: product }
        } else {
            Duration { nanos: MAX_DURATION_NANOS }
        }
    }
}

impl Instant {
    /// Nanoseconds since the origin.
    pub closed spec fn nanos(self) -> nat {
        self.since_origin.nanos()
    }

    /// The point `offset` after the origin.
    pub fn from_origin(offset: Duration) -> (r: Self)
        ensures
            r.nanos() == offset.nanos(),
    {
        Instant { since_origin: offset }
    }

    /// The span since the origin.
    pub fn since_origin(&self) -> (r: Duration)
        ensures
            r.nanos() == self.nanos(),
    {
        self.since_origin
    }

    /// The span from `earlier` to this point, empty if this point is not
    /// later.
    pub fn duration_since(&self, earlier: Instant) -> (r: Duration)
        ensures
            r.nanos() == elapsed(*self, earlier),
    {
        let a: u128 = self.since_origin.as_nanos();
        let b: u128 = earlier.since_origin.as_nanos();
        if a >= b {
            Duration { nanos: a - b }
        } else {
            Duration { nanos: 0 }
        }
    }

    /// The point `span` later, if the timeline reaches that far.
    pub fn checked_add(&self, span: Duration) -> (r: Option<Instant>)
        ensures
            match r {
                Some(t) => t.nanos() == self.nanos() + span.nanos(),
                None => self.nanos() + span.nanos() > MAX_DURATION_NANOS,
            },
    {
        let a: u128 = self.since_origin.as_nanos();
        let b: u128 = span.as_nanos();
        if a + b <= MAX_DURATION_NANOS {
            Some(Instant { since_origin: Duration { nanos: a + b } })
        } else {
            None
        }
    }

    /// The point `span` later.
    pub fn plus(&self, span: Duration) -> (r: Instant)
        requires
            self.nanos() + span.nanos() <= MAX_DURATION_NANOS,
        ensures
            r.nanos() == self.nanos() + span.nanos(),
    {
        self.checked_add(span).unwrap()
    }
}

/// `a` is at least as long as `b`.
pub fn at_least(a: Duration, b: Duration) -> (r: bool)
    ensures
        r == (a.nanos() >= b.nanos()),
{
    a.nanos >= b.nanos
}

/// `a` is not earlier than `b`.
pub fn not_before(a: Instant, b: Instant) -> (r: bool)
    ensures
        r == (a.nanos() >= b.nanos()),
{
    a.since_origin.nanos >= b.since_origin.nanos
}

/// What has elapsed since an earlier point leads from there to now; nothing has
/// elapsed since a later one.
pub proof fn elapsed_leads_to_now(now: Instant, earlier: Instant)
    ensures
        earlier.nanos() <= now.nanos() ==> earlier.nanos() + elapsed(now, earlier) == now.nanos(),
        now.nanos() <= earlier.nanos() ==> elapsed(now, earlier) == 0,
        MAX_DURATION_NANOS == u64::MAX * 1_000_000_000 + 999_999_999,
{
}

} // verus!
