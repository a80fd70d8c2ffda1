//! Retransmission delays: jittered, exponentially growing, capped.
use crate::crypto::random_u64_or_zero;
use crate::time::{Duration, MAX_DURATION_NANOS};
use vstd::arithmetic::power2::{lemma2_to64, pow2};
use vstd::prelude::*;

verus! {

/// A delay of `base` nanoseconds, scaled to 80..119 percent by a random draw,
/// at most `u64::MAX` nanoseconds.
pub open spec fn jittered_nanos(base: nat, draw: u64) -> nat {
    let scaled = base * (80 + draw % 40) as nat / 100;
    if scaled <= u64::MAX {
        scaled
    } else {
        u64::MAX as nat
    }
}

/// How far the delay of an attempt has grown: doubled with each attempt, at
/// most 32 times the base.
pub open spec fn growth(attempt: u32) -> u32 {
    if attempt == 0 {
        1
    } else if attempt == 1 {
        2
    } else if attempt == 2 {
        4
    } else if attempt == 3 {
        8
    } else if attempt == 4 {
        16
    } else {
        32
    }
}

/// The delay before retransmission number `attempt`.
pub open spec fn backoff_nanos(base: nat, attempt: u32, draw: u64) -> nat {
    let grown = base * growth(attempt) as nat;
    jittered_nanos(
        if grown <= MAX_DURATION_NANOS {
            grown
        } else {
            MAX_DURATION_NANOS as nat
        },
        draw,
    )
}

/// Jitter moves a delay by at most a fifth, whatever is drawn.
pub proof fn jitter_is_bounded(base: nat, draw: u64)
    ensures
        jittered_nanos(base, draw) * 100 <= base * 120,
        base * 120 <= u64::MAX * 100 ==> base * 80 < (jittered_nanos(base, draw) + 1) * 100,
{
    let f = (80 + draw % 40) as nat;
    assert(80 <= f <= 119);
    assert(base * 80 <= base * f <= base * 119) by (nonlinear_arith)
        requires
            80 <= f <= 119,
    ;
}

/// The backoff never exceeds 32 times the base and a fifth, and later attempts
/// have no smaller undisturbed delay than earlier ones.
pub proof fn backoff_grows_and_is_capped(base: nat, a: u32, b: u32, draw: u64)
    requires
        a <= b,
    ensures
        growth(a) <= growth(b) <= 32,
        backoff_nanos(base, a, draw) * 100 <= base * 32 * 120,
{
    let grown = base * growth(a) as nat;
    assert(grown <= base * 32) by (nonlinear_arith)
        requires
            grown == base * growth(a) as nat,
            growth(a) <= 32,
    ;
    jitter_is_bounded(
        if grown <= MAX_DURATION_NANOS {
            grown
        } else {
            MAX_DURATION_NANOS as nat
        },
        draw,
    );
}

/// The delay for a given draw.
pub fn jittered_with(base: Duration, draw: u64) -> (r: Duration)
    ensures
        r.nanos() == jittered_nanos(base.nanos(), draw),
{
    let nanos: u128 = base.as_nanos();
    let factor: u128 = 80 + (draw % 40) as u128;
    assert(nanos * factor <= MAX_DURATION_NANOS * 119) by (nonlinear_arith)
        requires
            nanos <= MAX_DURATION_NANOS,
            factor <= 119,
    ;
    let scaled: u128 = nanos * factor / 100;
    if scaled <= u64::MAX as u128 {
        Duration::from_nanos(scaled as u64)
    } else {
        Duration::from_nanos(u64::MAX)
    }
}

/// A jittered delay with a draw of the system's random source.
pub fn jittered(base: Duration) -> (r: Duration)
    ensures
        exists|draw: u64| r.nanos() == #[trigger] jittered_nanos(base.nanos(), draw),
{
    jittered_with(base, random_u64_or_zero())
}

/// The backoff for a given draw.
pub fn backoff_delay_with(base: Duration, attempt: u32, draw: u64) -> (r: Duration)
    ensures
        r.nanos() == backoff_nanos(base.nanos(), attempt, draw),
{
    let times: u32 = match attempt {
        0 => 1,
        1 => 2,
        2 => 4,
        3 => 8,
        4 => 16,
        _ => 32,
    };
    jittered_with(base.saturating_mul(times), draw)
}

/// The backoff with a draw of the system's random source.
pub fn backoff_delay(base: Duration, attempt: u32) -> (r: Duration)
    ensures
        exists|draw: u64| r.nanos() == #[trigger] backoff_nanos(base.nanos(), attempt, draw),
{
    backoff_delay_with(base, attempt, random_u64_or_zero())
}

/// The delay doubles with each of the first five attempts, and then stays at 32
/// times the base.
pub proof fn delay_doubles_up_to_the_cap(attempt: u32)
    ensures
        growth(0) == 1,
        attempt < 5 ==> growth((attempt + 1) as u32) == 2 * growth(attempt),
        attempt >= 5 ==> growth(attempt) == growth(5),
        attempt <= 5 ==> growth(attempt) == pow2(attempt as nat),
{
    lemma2_to64();
}

/// A draw scales a delay to exactly 80 to 119 percent, rounded down to whole
/// nanoseconds, and at most `u64::MAX` of them.
pub proof fn jitter_scales_by_the_draw(base: nat, draw: u64)
    ensures
        ({
            let percent = 80 + draw % 40;
            let d = jittered_nanos(base, draw);
            if base * percent < (u64::MAX + 1) * 100 {
                d * 100 <= base * percent < (d + 1) * 100
            } else {
                d == u64::MAX
            }
        }),
{
}

/// The delay of an attempt is the base, doubled with each attempt up to the
/// fifth, scaled by the draw, rounded down, and at most `u64::MAX` nanoseconds.
pub proof fn backoff_is_the_scaled_power(base: nat, attempt: u32, draw: u64)
    ensures
        ({
            let doublings: nat = if attempt < 5 {
                attempt as nat
            } else {
                5
            };
            let exact = base * pow2(doublings) * (80 + draw % 40);
            let d = backoff_nanos(base, attempt, draw);
            if exact < (u64::MAX + 1) * 100 {
                d * 100 <= exact < (d + 1) * 100
            } else {
                d == u64::MAX
            }
        }),
{
    lemma2_to64();
    let doublings: nat = if attempt < 5 {
        attempt as nat
    } else {
        5
    };
    delay_doubles_up_to_the_cap(attempt);
    delay_doubles_up_to_the_cap(5);
    let grown = base * growth(attempt) as nat;
    assert(grown == base * pow2(doublings));
    let percent = 80 + draw % 40;
    let cut: nat = if grown <= MAX_DURATION_NANOS {
        grown
    } else {
        MAX_DURATION_NANOS as nat
    };
    jitter_scales_by_the_draw(cut, draw);
    if grown > MAX_DURATION_NANOS {
        assert(grown * percent >= (u64::MAX + 1) * 100) by (nonlinear_arith)
            requires
                grown > MAX_DURATION_NANOS,
                percent >= 80,
        ;
        assert(MAX_DURATION_NANOS * percent >= (u64::MAX + 1) * 100) by (nonlinear_arith)
            requires
                percent >= 80,
        ;
    }
}

} // verus!
