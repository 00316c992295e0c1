//! The corrections of one round.
//!
//! The correction of the estimate `x_k` is `w / (1 - w * s)`, where `w` is
//! the Newton ratio `p(x_k) / p'(x_k)` and `s` is the Aberth term: the sum
//! over every other position `j` of `1 / (x_k - x_j)`. Which positions take
//! part in the sum is decided by position, not by value: an estimate that
//! coincides with `x_k` at another position is not skipped.

use vstd::prelude::*;
use crate::poly::{eval, is_value};

verus! {

/// Entry `i` of the trace is the sum after position `i - 1`: position `k`
/// leaves the sum as it is, and every other position `j` contributes
/// through `gather(sum, x_k, x_j)`, which stands for
/// `sum + 1 / (x_k - x_j)`.
pub open spec fn aberth_link<T, F: Fn(T, T, T) -> T>(
    estimates: Seq<T>,
    k: int,
    gather: F,
    trace: Seq<T>,
    i: int,
) -> bool {
    if i - 1 == k {
        trace[i] == trace[i - 1]
    } else {
        gather.ensures((trace[i - 1], estimates[k], estimates[i - 1]), trace[i])
    }
}

/// `trace` records the summation for position `k`: it starts at `zero` and
/// takes the positions in ascending order.
pub open spec fn is_aberth_trace<T, F: Fn(T, T, T) -> T>(
    estimates: Seq<T>,
    k: int,
    zero: T,
    gather: F,
    trace: Seq<T>,
) -> bool {
    &&& trace.len() == estimates.len() + 1
    &&& trace[0] == zero
    &&& forall|i: int| 1 <= i < trace.len() ==> #[trigger] aberth_link(estimates, k, gather, trace, i)
}

/// `sum` is what some summation for position `k` ends in.
pub open spec fn is_sum<T, F: Fn(T, T, T) -> T>(
    estimates: Seq<T>,
    k: int,
    zero: T,
    gather: F,
    sum: T,
) -> bool {
    exists|trace: Seq<T>| #[trigger]
        is_aberth_trace(estimates, k, zero, gather, trace) && sum == trace.last()
}

/// Sums the reciprocal differences between the estimate at position `k` and
/// the estimates at all other positions, in ascending position.
pub fn aberth_sum<T: Copy, F: Fn(T, T, T) -> T>(
    estimates: &Vec<T>,
    k: usize,
    zero: T,
    gather: &F,
) -> (sum: T)
    requires
        k < estimates.len(),
        forall|acc: T, at: T, other: T| #[trigger] gather.requires((acc, at, other)),
    ensures
        is_sum(estimates@, k as int, zero, *gather, sum),
        estimates.len() == 1 ==> sum == zero,
{
    let n = estimates.len();
    let at = estimates[k];
    let mut sum: T = zero;
    let ghost mut trace: Seq<T> = seq![zero];
    let mut j: usize = 0;
    while j < n
        invariant
            n == estimates.len(),
            k < n,
            j <= n,
            at == estimates@[k as int],
            trace.len() == j + 1,
            trace[0] == zero,
            sum == trace[j as int],
            n == 1 ==> sum == zero,
            forall|a0: T, a1: T, a2: T| #[trigger] gather.requires((a0, a1, a2)),
            forall|i: int|
                1 <= i < trace.len() ==> #[trigger] aberth_link(estimates@, k as int, *gather, trace, i),
        decreases n - j,
    {
        if j != k {
            sum = gather(sum, at, estimates[j]);
        }
        proof {
            let earlier = trace;
            trace = trace.push(sum);
            assert forall|i: int| 1 <= i < trace.len() implies #[trigger] aberth_link(
                estimates@,
                k as int,
                *gather,
                trace,
                i,
            ) by {
                if i < earlier.len() {
                    assert(aberth_link(estimates@, k as int, *gather, earlier, i));
                }
            }
        }
        j += 1;
    }
    proof {
        assert(is_aberth_trace(estimates@, k as int, zero, *gather, trace) && sum == trace.last());
    }
    sum
}

/// `gather` computes `added`: whatever it returns on `(sum, at, other)` is
/// `added(sum, at, other)`.
pub open spec fn gathers_as<T, F: Fn(T, T, T) -> T>(
    gather: F,
    added: spec_fn(T, T, T) -> T,
) -> bool {
    forall|sum: T, at: T, other: T, r: T| #[trigger]
        gather.ensures((sum, at, other), r) ==> r == added(sum, at, other)
}

/// The Aberth term of position `k` over the first `upto` positions, with
/// `added(sum, x_k, x_j)` for `sum + 1 / (x_k - x_j)`: position `k` itself
/// adds nothing.
pub open spec fn aberth_term<T>(
    estimates: Seq<T>,
    k: int,
    zero: T,
    added: spec_fn(T, T, T) -> T,
    upto: int,
) -> T
    decreases upto,
{
    if upto <= 0 {
        zero
    } else if upto - 1 == k {
        aberth_term(estimates, k, zero, added, upto - 1)
    } else {
        added(aberth_term(estimates, k, zero, added, upto - 1), estimates[k], estimates[upto - 1])
    }
}

/// Entry `i` of a summation trace is the Aberth term over the first `i`
/// positions.
pub proof fn lemma_trace_is_term<T, F: Fn(T, T, T) -> T>(
    estimates: Seq<T>,
    k: int,
    zero: T,
    gather: F,
    added: spec_fn(T, T, T) -> T,
    trace: Seq<T>,
    i: int,
)
    requires
        is_aberth_trace(estimates, k, zero, gather, trace),
        gathers_as(gather, added),
        0 <= i < trace.len(),
    ensures
        trace[i] == aberth_term(estimates, k, zero, added, i),
    decreases i,
{
    if i > 0 {
        lemma_trace_is_term(estimates, k, zero, gather, added, trace, i - 1);
        assert(aberth_link(estimates, k, gather, trace, i));
    }
}

/// Summation is exact: where the gathering computes `added`, what
/// `aberth_sum` returns is the Aberth term over all positions and nothing
/// else.
pub proof fn lemma_sum_exact<T, F: Fn(T, T, T) -> T>(
    estimates: Seq<T>,
    k: int,
    zero: T,
    gather: F,
    added: spec_fn(T, T, T) -> T,
    sum: T,
)
    requires
        is_sum(estimates, k, zero, gather, sum),
        gathers_as(gather, added),
    ensures
        sum == aberth_term(estimates, k, zero, added, estimates.len() as int),
{
    let trace = choose|trace: Seq<T>| #[trigger]
        is_aberth_trace(estimates, k, zero, gather, trace) && sum == trace.last();
    lemma_trace_is_term(estimates, k, zero, gather, added, trace, trace.len() - 1);
}

/// What a sweep over all estimates yields, position by position.
pub struct Sweep<T> {
    /// The derivative's value at each estimate.
    pub slopes: Vec<T>,
    /// Each estimate's correction.
    pub corrections: Vec<T>,
}

/// `slope_value` is the derivative's value at the estimate at position `k`,
/// and `correction` is `correct(p(x_k), p'(x_k), s_k)`, where `correct(n, d,
/// s)` stands for `(n / d) / (1 - (n / d) * s)`, the polynomial's value is
/// taken by Horner's method and `s_k` is the Aberth term of position `k`.
pub open spec fn is_correction<
    T,
    H: Fn(T, T, T) -> T,
    G: Fn(T, T, T) -> T,
    C: Fn(T, T, T) -> T,
>(
    coeffs: Seq<T>,
    slope: Seq<T>,
    estimates: Seq<T>,
    k: int,
    zero: T,
    horner: H,
    gather: G,
    correct: C,
    slope_value: T,
    correction: T,
) -> bool {
    &&& is_value(slope, estimates[k], horner, slope_value)
    &&& exists|value: T, others: T| #[trigger]
        correct.ensures((value, slope_value, others), correction) && is_value(
            coeffs,
            estimates[k],
            horner,
            value,
        ) && is_sum(estimates, k, zero, gather, others)
}

/// Computes every estimate's correction from one snapshot of the
/// estimates: no correction sees another estimate already corrected.
pub fn sweep<T: Copy, H: Fn(T, T, T) -> T, G: Fn(T, T, T) -> T, C: Fn(T, T, T) -> T>(
    coeffs: &Vec<T>,
    slope: &Vec<T>,
    estimates: &Vec<T>,
    zero: T,
    horner: &H,
    gather: &G,
    correct: &C,
) -> (out: Sweep<T>)
    requires
        coeffs.len() >= 1,
        slope.len() >= 1,
        forall|acc: T, at: T, a: T| #[trigger] horner.requires((acc, at, a)),
        forall|acc: T, at: T, other: T| #[trigger] gather.requires((acc, at, other)),
        forall|value: T, by: T, others: T| #[trigger] correct.requires((value, by, others)),
    ensures
        out.slopes.len() == estimates.len(),
        out.corrections.len() == estimates.len(),
        forall|k: int|
            0 <= k < estimates.len() ==> #[trigger] is_correction(
                coeffs@,
                slope@,
                estimates@,
                k,
                zero,
                *horner,
                *gather,
                *correct,
                out.slopes@[k],
                out.corrections@[k],
            ),
{
    let mut slopes: Vec<T> = Vec::new();
    let mut corrections: Vec<T> = Vec::new();
    let mut k: usize = 0;
    while k < estimates.len()
        invariant
            coeffs.len() >= 1,
            slope.len() >= 1,
            k <= estimates.len(),
            slopes.len() == k,
            corrections.len() == k,
            forall|acc: T, at: T, a: T| #[trigger] horner.requires((acc, at, a)),
            forall|acc: T, at: T, other: T| #[trigger] gather.requires((acc, at, other)),
            forall|value: T, by: T, others: T| #[trigger] correct.requires((value, by, others)),
            forall|i: int|
                0 <= i < k ==> #[trigger] is_correction(
                    coeffs@,
                    slope@,
                    estimates@,
                    i,
                    zero,
                    *horner,
                    *gather,
                    *correct,
                    slopes@[i],
                    corrections@[i],
                ),
        decreases estimates.len() - k,
    {
        let x = estimates[k];
        let value = eval(coeffs, x, horner);
        let by = eval(slope, x, horner);
        let others = aberth_sum(estimates, k, zero, gather);
        let correction = correct(value, by, others);
        proof {
            assert(is_value(coeffs@, x, *horner, value));
            assert(is_value(slope@, x, *horner, by));
            assert(is_sum(estimates@, k as int, zero, *gather, others));
            assert(correct.ensures((value, by, others), correction));
            assert(is_correction(
                coeffs@,
                slope@,
                estimates@,
                k as int,
                zero,
                *horner,
                *gather,
                *correct,
                by,
                correction,
            ));
        }
        slopes.push(by);
        corrections.push(correction);
        k += 1;
    }
    Sweep { slopes, corrections }
}

} // verus!
