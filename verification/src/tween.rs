//! Linear ramps between two brightness values.
//!
//! A ramp of `steps` samples walks from a start value (exclusive) to an end
//! value (inclusive). The `k`-th sample, for `k` in `1..=steps`, is the linear
//! interpolation `start * (1 - k/steps) + end * (k/steps)` taken with the
//! fraction cleared: `(start * (steps - k) + end * k) / steps`, with the
//! division rounding down. Rounding down biases every intermediate sample
//! slightly low, which suits the hardware's integer-only register; the final
//! sample divides evenly and equals the end value exactly.

use vstd::arithmetic::div_mod::{lemma_div_by_multiple, lemma_div_is_ordered};
use vstd::arithmetic::mul::{
    lemma_mul_by_zero_is_zero, lemma_mul_inequality, lemma_mul_is_distributive_add,
    lemma_mul_is_distributive_sub, lemma_mul_upper_bound,
};
use vstd::prelude::*;

use crate::brightness::Brightness;

verus! {

/// The `k`-th sample of the ramp from `s` to `e` in `n` steps, for
/// `k` in `1..=n`: the linear interpolation at fraction `k/n`, rounded down.
pub open spec fn spec_tween_at(s: int, e: int, n: int, k: int) -> int
    recommends
        1 <= n,
        1 <= k <= n,
{
    (s * (n - k) + e * k) / n
}

/// The numerator of a ramp sample lies between `lo * n` and `hi * n` whenever
/// both endpoints lie between `lo` and `hi`.
proof fn lemma_tween_numerator_bounds(s: int, e: int, n: int, k: int, lo: int, hi: int)
    requires
        0 <= lo,
        lo <= s <= hi,
        lo <= e <= hi,
        1 <= n,
        0 <= k <= n,
    ensures
        lo * n <= s * (n - k) + e * k <= hi * n,
{
    lemma_mul_inequality(lo, s, n - k);
    lemma_mul_inequality(s, hi, n - k);
    lemma_mul_inequality(lo, e, k);
    lemma_mul_inequality(e, hi, k);
    lemma_mul_is_distributive_add(lo, n - k, k);
    lemma_mul_is_distributive_add(hi, n - k, k);
}

/// Every sample of a ramp lies between its two endpoints, whichever of the
/// two is the larger.
pub proof fn lemma_tween_within_endpoints(s: int, e: int, n: int, k: int)
    requires
        0 <= s,
        0 <= e,
        1 <= n,
        0 <= k <= n,
    ensures
        s <= e ==> s <= spec_tween_at(s, e, n, k) <= e,
        e <= s ==> e <= spec_tween_at(s, e, n, k) <= s,
{
    if s <= e {
        lemma_tween_numerator_bounds(s, e, n, k, s, e);
        lemma_div_is_ordered(s * n, s * (n - k) + e * k, n);
        lemma_div_is_ordered(s * (n - k) + e * k, e * n, n);
        lemma_div_by_multiple(s, n);
        lemma_div_by_multiple(e, n);
    } else {
        lemma_tween_numerator_bounds(s, e, n, k, e, s);
        lemma_div_is_ordered(e * n, s * (n - k) + e * k, n);
        lemma_div_is_ordered(s * (n - k) + e * k, s * n, n);
        lemma_div_by_multiple(s, n);
        lemma_div_by_multiple(e, n);
    }
}

/// A rising ramp is monotonic: when the start does not exceed the end, each
/// sample is at least the one before it.
pub proof fn lemma_tween_monotone(s: int, e: int, n: int, k: int)
    requires
        0 <= s <= e,
        1 <= n,
        1 <= k < n,
    ensures
        spec_tween_at(s, e, n, k) <= spec_tween_at(s, e, n, k + 1),
{
    lemma_mul_is_distributive_sub(s, n - k, 1);
    lemma_mul_is_distributive_add(e, k, 1);
    assert(s * (n - (k + 1)) + e * (k + 1) == s * (n - k) + e * k + (e - s));
    lemma_div_is_ordered(s * (n - k) + e * k, s * (n - (k + 1)) + e * (k + 1), n);
}

/// The final sample of a ramp equals the end value exactly: at fraction
/// `n/n = 1` the division is even and nothing is rounded away.
pub proof fn lemma_tween_at_end(s: int, e: int, n: int)
    requires
        0 <= s,
        0 <= e,
        1 <= n,
    ensures
        spec_tween_at(s, e, n, n) == e,
{
    lemma_mul_by_zero_is_zero(s);
    assert(s * (n - n) + e * n == e * n);
    lemma_div_by_multiple(e, n);
}

impl Brightness {
    /// The ramp of `steps` samples from this brightness (exclusive) to
    /// `other` (inclusive): sample `i` interpolates at fraction
    /// `(i + 1) / steps`, rounding down, and the last sample is `other`
    /// exactly.
    pub fn tween_to(&self, other: Brightness, steps: u64) -> (r: Vec<Brightness>)
        requires
            steps >= 1,
        ensures
            r@.len() == steps,
            forall|i: int|
                0 <= i < steps ==> #[trigger] r@[i].0 == spec_tween_at(
                    self.0 as int,
                    other.0 as int,
                    steps as int,
                    i + 1,
                ),
            r@[steps - 1].0 == other.0,
    {
        let mut out: Vec<Brightness> = Vec::new();
        let mut k: u64 = 0;
        while k < steps
            invariant
                steps >= 1,
                k <= steps,
                out@.len() == k,
                forall|i: int|
                    0 <= i < k ==> #[trigger] out@[i].0 == spec_tween_at(
                        self.0 as int,
                        other.0 as int,
                        steps as int,
                        i + 1,
                    ),
            decreases steps - k,
        {
            let idx = k + 1;
            proof {
                let s = self.0 as int;
                let e = other.0 as int;
                let n = steps as int;
                let top = u64::MAX as int;
                lemma_mul_upper_bound(s, top, n - idx, top);
                lemma_mul_upper_bound(e, top, idx as int, top);
                lemma_tween_numerator_bounds(s, e, n, idx as int, 0, top);
                lemma_mul_upper_bound(top, top, n, top);
                lemma_div_is_ordered(s * (n - idx) + e * idx, top * n, n);
                lemma_div_by_multiple(top, n);
            }
            let num: u128 = (self.0 as u128) * ((steps - idx) as u128) + (other.0 as u128) * (
            idx as u128);
            let q: u128 = num / (steps as u128);
            out.push(Brightness(q as u64));
            k = idx;
        }
        proof {
            lemma_tween_at_end(self.0 as int, other.0 as int, steps as int);
        }
        out
    }
}

} // verus!
