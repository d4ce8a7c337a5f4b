//! Re-enrollment pacing of the PoAW-X role worker.
use vstd::prelude::*;
use crate::wire::sat_mul_u64;

verus! {

/// `2^k` for `k <= 16`.
pub open spec fn pow2_16(k: u32) -> nat
    decreases k,
{
    if k == 0 {
        1
    } else {
        2 * pow2_16((k - 1) as u32)
    }
}

/// The wait after `errors` consecutive enrollment failures: the poll interval
/// with no failure; else the poll interval doubled per failure after the
/// first (at most 16 doublings, saturating), kept between the poll interval
/// and the larger of the cap and the poll interval.
pub open spec fn backoff(poll: u64, errors: u32, cap: u64) -> u64 {
    if errors == 0 {
        poll
    } else {
        let shift = if errors - 1 < 16 { (errors - 1) as u32 } else { 16u32 };
        let scaled = if poll * pow2_16(shift) > u64::MAX { u64::MAX } else { (poll * pow2_16(
            shift,
        )) as u64 };
        let hi = if cap > poll { cap } else { poll };
        if scaled < poll {
            poll
        } else if scaled > hi {
            hi
        } else {
            scaled
        }
    }
}

proof fn lemma_pow2_16(k: u32)
    requires
        k <= 16,
    ensures
        1 <= pow2_16(k) <= 65536,
{
    lemma_pow2_le(0, k);
    lemma_pow2_le(k, 16);
    assert(pow2_16(16) == 65536) by {
        reveal_with_fuel(pow2_16, 17);
    }
}

pub fn backoff_secs(poll_secs: u64, consecutive_errors: u32, cap_secs: u64) -> (s: u64)
    ensures
        s == backoff(poll_secs, consecutive_errors, cap_secs),
{
    if consecutive_errors == 0 {
        return poll_secs;
    }
    let shift: u32 = if consecutive_errors - 1 < 16 {
        consecutive_errors - 1
    } else {
        16
    };
    let mut factor: u64 = 1;
    let mut k: u32 = 0;
    while k < shift
        invariant
            k <= shift <= 16,
            factor == pow2_16(k),
        decreases shift - k,
    {
        proof {
            lemma_pow2_16(k);
        }
        factor = factor * 2;
        k = k + 1;
    }
    let scaled = sat_mul_u64(poll_secs, factor);
    let hi = if cap_secs > poll_secs {
        cap_secs
    } else {
        poll_secs
    };
    if scaled < poll_secs {
        poll_secs
    } else if scaled > hi {
        hi
    } else {
        scaled
    }
}

/// The wait never drops below the poll interval (a healthy worker is never
/// stalled past it) and never exceeds the larger of the cap and the poll
/// interval.
pub proof fn lemma_backoff_bounds(poll: u64, errors: u32, cap: u64)
    ensures
        poll <= backoff(poll, errors, cap),
        backoff(poll, errors, cap) <= if cap > poll { cap } else { poll },
{
}

/// More failures never shorten the wait.
pub proof fn lemma_backoff_monotone(poll: u64, e1: u32, e2: u32, cap: u64)
    requires
        e1 <= e2,
    ensures
        backoff(poll, e1, cap) <= backoff(poll, e2, cap),
{
    if e1 > 0 {
        let s1 = if e1 - 1 < 16 { (e1 - 1) as u32 } else { 16u32 };
        let s2 = if e2 - 1 < 16 { (e2 - 1) as u32 } else { 16u32 };
        lemma_pow2_le(s1, s2);
        assert(poll * pow2_16(s1) <= poll * pow2_16(s2)) by (nonlinear_arith)
            requires
                pow2_16(s1) <= pow2_16(s2),
        ;
    }
}

proof fn lemma_pow2_le(a: u32, b: u32)
    requires
        a <= b,
    ensures
        pow2_16(a) <= pow2_16(b),
    decreases b,
{
    if a < b {
        lemma_pow2_le(a, (b - 1) as u32);
    }
}

} // verus!
