//! Polynomials as coefficient sequences in ascending power: index `i` holds
//! the coefficient of `x^i`, and the degree is the length less one.
//!
//! Differentiation and evaluation are written over any scalar type; the
//! caller hands in the arithmetic, and the contracts say which calls of it
//! produce the result.

use vstd::prelude::*;
use crate::error::SolveError;
use crate::scalar::Complex;

verus! {

/// Every coefficient is zero.
pub open spec fn all_zero(coeffs: Seq<Complex>) -> bool {
    forall|i: int| 0 <= i < coeffs.len() ==> (#[trigger] coeffs[i]).zero()
}

/// `at` is the lowest index that holds a non-zero coefficient.
pub open spec fn is_first_nonzero(coeffs: Seq<Complex>, at: int) -> bool {
    &&& 0 <= at < coeffs.len()
    &&& !coeffs[at].zero()
    &&& forall|i: int| 0 <= i < at ==> (#[trigger] coeffs[i]).zero()
}

/// What the initial-guess placement reads off a polynomial.
#[derive(Clone, Copy, Debug, PartialEq, Eq, Structural)]
pub struct Shape {
    /// The number of roots, and the index of the leading coefficient.
    pub degree: usize,
    /// The index of the lowest non-zero coefficient, against which the
    /// leading coefficient is measured for the starting radius.
    pub pivot: usize,
}

/// Finds the lowest index that holds a non-zero coefficient.
pub fn first_nonzero(coeffs: &Vec<Complex>) -> (found: Option<usize>)
    ensures
        match found {
            Some(at) => is_first_nonzero(coeffs@, at as int),
            None => all_zero(coeffs@),
        },
{
    let mut i: usize = 0;
    while i < coeffs.len()
        invariant
            i <= coeffs.len(),
            forall|j: int| 0 <= j < i ==> (#[trigger] coeffs@[j]).zero(),
        decreases coeffs.len() - i,
    {
        if !coeffs[i].is_zero() {
            return Some(i);
        }
        i += 1;
    }
    None
}

/// Decides whether a polynomial can be solved, and reads off its shape.
///
/// A polynomial of degree zero (fewer than two coefficients) has no roots to
/// look for, and one whose coefficients are all zero gives no radius.
pub fn inspect(coeffs: &Vec<Complex>) -> (out: Result<Shape, SolveError>)
    ensures
        out is Err <==> coeffs.len() < 2 || all_zero(coeffs@),
        out is Err ==> out == Err::<Shape, SolveError>(SolveError::DegenerateInput),
        out is Ok ==> out->Ok_0.degree == coeffs.len() - 1 && is_first_nonzero(
            coeffs@,
            out->Ok_0.pivot as int,
        ),
{
    if coeffs.len() < 2 {
        return Err(SolveError::DegenerateInput);
    }
    match first_nonzero(coeffs) {
        Some(pivot) => {
            Ok(Shape { degree: coeffs.len() - 1, pivot })
        },
        None => Err(SolveError::DegenerateInput),
    }
}

/// The lowest non-zero coefficient is unique: two shapes of one polynomial
/// agree on the pivot.
pub proof fn lemma_first_nonzero_unique(coeffs: Seq<Complex>, a: int, b: int)
    requires
        is_first_nonzero(coeffs, a),
        is_first_nonzero(coeffs, b),
    ensures
        a == b,
{
    if a < b {
        assert(coeffs[a].zero());
    } else if b < a {
        assert(coeffs[b].zero());
    }
}

/// The length of the derivative of a polynomial of `len` coefficients.
pub open spec fn derivative_len(len: nat) -> nat {
    if len == 0 {
        0
    } else {
        (len - 1) as nat
    }
}

/// `out` is the derivative of `coeffs`: it is one shorter (and empty for the
/// empty sequence), and its coefficient `i` is what `scale` gives for
/// `i + 1` and `coeffs[i + 1]`.
pub open spec fn is_derivative<T, F: Fn(usize, &T) -> T>(
    coeffs: Seq<T>,
    scale: F,
    out: Seq<T>,
) -> bool {
    &&& out.len() == derivative_len(coeffs.len())
    &&& forall|i: int|
        0 <= i < out.len() ==> scale.ensures(((i + 1) as usize, &coeffs[i + 1]), #[trigger] out[i])
}

/// Differentiates a polynomial: coefficient `i` of the result is
/// `scale(i + 1, coeffs[i + 1])`, where `scale(n, a)` stands for `n * a` in
/// the caller's arithmetic. A constant, or an empty sequence, gives the
/// empty sequence.
pub fn derivative<T, F: Fn(usize, &T) -> T>(coeffs: &Vec<T>, scale: &F) -> (out: Vec<T>)
    requires
        forall|n: usize, a: &T| #[trigger] scale.requires((n, a)),
    ensures
        is_derivative(coeffs@, *scale, out@),
{
    let mut out: Vec<T> = Vec::new();
    if coeffs.len() == 0 {
        return out;
    }
    let mut n: usize = 1;
    while n < coeffs.len()
        invariant
            1 <= n <= coeffs.len(),
            out.len() == n - 1,
            forall|k: usize, a: &T| #[trigger] scale.requires((k, a)),
            forall|i: int|
                0 <= i < out.len() ==> scale.ensures(
                    ((i + 1) as usize, &coeffs@[i + 1]),
                    #[trigger] out@[i],
                ),
        decreases coeffs.len() - n,
    {
        let term = scale(n, &coeffs[n]);
        out.push(term);
        n += 1;
    }
    out
}

/// `scale` computes `times`: whatever it returns on `(n, a)` is
/// `times(n, a)`.
pub open spec fn scales_as<T, F: Fn(usize, &T) -> T>(
    scale: F,
    times: spec_fn(usize, T) -> T,
) -> bool {
    forall|n: usize, a: &T, r: T| #[trigger] scale.ensures((n, a), r) ==> r == times(n, *a)
}

/// The derivative written out: `[1 * c1, 2 * c2, ..., n * cn]`, with `times`
/// for the product of a power and a coefficient.
pub open spec fn derivative_of<T>(coeffs: Seq<T>, times: spec_fn(usize, T) -> T) -> Seq<T> {
    Seq::new(derivative_len(coeffs.len()), |i: int| times((i + 1) as usize, coeffs[i + 1]))
}

/// Differentiation is exact: where the scaling computes a product `times`,
/// what `derivative` returns is `[1 * c1, 2 * c2, ..., n * cn]` and nothing
/// else.
pub proof fn lemma_derivative_exact<T, F: Fn(usize, &T) -> T>(
    coeffs: Seq<T>,
    scale: F,
    times: spec_fn(usize, T) -> T,
    out: Seq<T>,
)
    requires
        is_derivative(coeffs, scale, out),
        scales_as(scale, times),
    ensures
        out == derivative_of(coeffs, times),
{
    assert forall|i: int| 0 <= i < out.len() implies out[i] == derivative_of(coeffs, times)[i] by {
        assert(scale.ensures(((i + 1) as usize, &coeffs[i + 1]), out[i]));
    }
    assert(out =~= derivative_of(coeffs, times));
}

/// Entry `i` of the trace is `step(acc, x, a)`, which stands for
/// `acc * x + a`, with `acc` the entry before and `a` the coefficient `i`
/// places below the leading one.
pub open spec fn horner_link<T, F: Fn(T, T, T) -> T>(
    coeffs: Seq<T>,
    x: T,
    step: F,
    trace: Seq<T>,
    i: int,
) -> bool {
    step.ensures((trace[i - 1], x, coeffs[coeffs.len() - 1 - i]), trace[i])
}

/// `trace` records a Horner evaluation of `coeffs` at `x`: it starts at the
/// leading coefficient, and each further entry comes from the one before by
/// one step down the coefficients.
pub open spec fn is_horner_trace<T, F: Fn(T, T, T) -> T>(
    coeffs: Seq<T>,
    x: T,
    step: F,
    trace: Seq<T>,
) -> bool {
    &&& trace.len() == coeffs.len()
    &&& coeffs.len() >= 1
    &&& trace[0] == coeffs[coeffs.len() - 1]
    &&& forall|i: int| 1 <= i < trace.len() ==> #[trigger] horner_link(coeffs, x, step, trace, i)
}

/// `value` is what some Horner evaluation of `coeffs` at `x` ends in.
pub open spec fn is_value<T, F: Fn(T, T, T) -> T>(coeffs: Seq<T>, x: T, step: F, value: T) -> bool {
    exists|trace: Seq<T>| #[trigger] is_horner_trace(coeffs, x, step, trace) && value == trace.last()
}

/// Evaluates a polynomial at `x` by Horner's method, from the leading
/// coefficient down. A constant polynomial evaluates to its coefficient,
/// whatever `x` is, without any arithmetic.
pub fn eval<T: Copy, F: Fn(T, T, T) -> T>(coeffs: &Vec<T>, x: T, step: &F) -> (value: T)
    requires
        coeffs.len() >= 1,
        forall|acc: T, at: T, a: T| #[trigger] step.requires((acc, at, a)),
    ensures
        is_value(coeffs@, x, *step, value),
        coeffs.len() == 1 ==> value == coeffs@[0],
{
    let len = coeffs.len();
    let mut acc: T = coeffs[len - 1];
    let ghost mut trace: Seq<T> = seq![acc];
    let mut done: usize = 1;
    while done < len
        invariant
            len == coeffs.len(),
            1 <= done <= len,
            trace.len() == done,
            trace[0] == coeffs@[len - 1],
            acc == trace[done - 1],
            forall|a0: T, a1: T, a2: T| #[trigger] step.requires((a0, a1, a2)),
            forall|i: int| 1 <= i < trace.len() ==> #[trigger] horner_link(coeffs@, x, *step, trace, i),
        decreases len - done,
    {
        let next = step(acc, x, coeffs[len - 1 - done]);
        proof {
            let earlier = trace;
            trace = trace.push(next);
            assert forall|i: int| 1 <= i < trace.len() implies #[trigger] horner_link(
                coeffs@,
                x,
                *step,
                trace,
                i,
            ) by {
                if i < earlier.len() {
                    assert(horner_link(coeffs@, x, *step, earlier, i));
                }
            }
        }
        acc = next;
        done += 1;
    }
    proof {
        assert(is_horner_trace(coeffs@, x, *step, trace) && acc == trace.last());
    }
    acc
}

/// `step` computes `fused`: whatever it returns on `(acc, x, a)` is
/// `fused(acc, x, a)`.
pub open spec fn steps_as<T, F: Fn(T, T, T) -> T>(step: F, fused: spec_fn(T, T, T) -> T) -> bool {
    forall|acc: T, x: T, a: T, r: T| #[trigger]
        step.ensures((acc, x, a), r) ==> r == fused(acc, x, a)
}

/// The value of a polynomial at `x` in Horner's form,
/// `c0 + x * (c1 + x * (c2 + ...))`, with `fused(acc, x, a)` for
/// `acc * x + a`. A single coefficient is its own value.
pub open spec fn horner<T>(coeffs: Seq<T>, x: T, fused: spec_fn(T, T, T) -> T) -> T
    decreases coeffs.len(),
{
    if coeffs.len() <= 1 {
        coeffs[0]
    } else {
        fused(horner(coeffs.subrange(1, coeffs.len() as int), x, fused), x, coeffs[0])
    }
}

/// Entry `i` of a Horner trace is the value of the polynomial made of the
/// `i + 1` highest coefficients.
pub proof fn lemma_trace_is_horner<T, F: Fn(T, T, T) -> T>(
    coeffs: Seq<T>,
    x: T,
    step: F,
    fused: spec_fn(T, T, T) -> T,
    trace: Seq<T>,
    i: int,
)
    requires
        is_horner_trace(coeffs, x, step, trace),
        steps_as(step, fused),
        0 <= i < trace.len(),
    ensures
        trace[i] == horner(coeffs.subrange(coeffs.len() - 1 - i, coeffs.len() as int), x, fused),
    decreases i,
{
    let len = coeffs.len() as int;
    let top = coeffs.subrange(len - 1 - i, len);
    if i > 0 {
        lemma_trace_is_horner(coeffs, x, step, fused, trace, i - 1);
        assert(horner_link(coeffs, x, step, trace, i));
        assert(top.subrange(1, top.len() as int) =~= coeffs.subrange(len - i, len));
    }
}

/// Evaluation is exact: where the step computes `fused`, what `eval`
/// returns is the polynomial's value in Horner's form and nothing else.
pub proof fn lemma_eval_exact<T, F: Fn(T, T, T) -> T>(
    coeffs: Seq<T>,
    x: T,
    step: F,
    fused: spec_fn(T, T, T) -> T,
    value: T,
)
    requires
        is_value(coeffs, x, step, value),
        steps_as(step, fused),
    ensures
        value == horner(coeffs, x, fused),
{
    let trace = choose|trace: Seq<T>| #[trigger]
        is_horner_trace(coeffs, x, step, trace) && value == trace.last();
    lemma_trace_is_horner(coeffs, x, step, fused, trace, trace.len() - 1);
    assert(coeffs.subrange(0, coeffs.len() as int) =~= coeffs);
}

/// A constant polynomial has its coefficient for value at every point,
/// whatever the arithmetic.
pub proof fn lemma_constant_value<T, F: Fn(T, T, T) -> T>(c: T, x: T, step: F, value: T)
    requires
        is_value(seq![c], x, step, value),
    ensures
        value == c,
{
}

/// `out` combines `left` and `right` entry by entry through `combine`.
pub open spec fn is_zip<T, F: Fn(T, T) -> T>(
    left: Seq<T>,
    right: Seq<T>,
    combine: F,
    out: Seq<T>,
) -> bool {
    &&& out.len() == left.len()
    &&& forall|i: int| 0 <= i < out.len() ==> combine.ensures((left[i], right[i]), #[trigger] out[i])
}

/// Combines two sequences of equal length entry by entry: entry `i` of the
/// result is `combine(left[i], right[i])`. With subtraction for `combine`
/// this commits a round: each estimate less its correction.
pub fn zip_with<T: Copy, F: Fn(T, T) -> T>(left: &Vec<T>, right: &Vec<T>, combine: &F) -> (out:
    Vec<T>)
    requires
        left.len() == right.len(),
        forall|a: T, b: T| #[trigger] combine.requires((a, b)),
    ensures
        is_zip(left@, right@, *combine, out@),
{
    let mut out: Vec<T> = Vec::new();
    let mut i: usize = 0;
    while i < left.len()
        invariant
            left.len() == right.len(),
            i <= left.len(),
            out.len() == i,
            forall|a: T, b: T| #[trigger] combine.requires((a, b)),
            forall|k: int|
                0 <= k < out.len() ==> combine.ensures((left@[k], right@[k]), #[trigger] out@[k]),
        decreases left.len() - i,
    {
        let entry = combine(left[i], right[i]);
        out.push(entry);
        i += 1;
    }
    out
}

/// `out` is `items` taken through `convert` entry by entry.
pub open spec fn is_map<T, U, F: Fn(T) -> U>(items: Seq<T>, convert: F, out: Seq<U>) -> bool {
    &&& out.len() == items.len()
    &&& forall|i: int| 0 <= i < out.len() ==> convert.ensures((items[i],), #[trigger] out[i])
}

/// Takes a sequence through `convert` entry by entry: this is how numbers
/// are handed over as bit patterns.
pub fn map_with<T: Copy, U, F: Fn(T) -> U>(items: &Vec<T>, convert: &F) -> (out: Vec<U>)
    requires
        forall|a: T| #[trigger] convert.requires((a,)),
    ensures
        is_map(items@, *convert, out@),
{
    let mut out: Vec<U> = Vec::new();
    let mut i: usize = 0;
    while i < items.len()
        invariant
            i <= items.len(),
            out.len() == i,
            forall|a: T| #[trigger] convert.requires((a,)),
            forall|k: int| 0 <= k < out.len() ==> convert.ensures((items@[k],), #[trigger] out@[k]),
        decreases items.len() - i,
    {
        let entry = convert(items[i]);
        out.push(entry);
        i += 1;
    }
    out
}

} // verus!
