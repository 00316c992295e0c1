//! The method as a whole, over an arithmetic of the caller's.

use vstd::prelude::*;
use vstd::pervasive::arbitrary;
use crate::correction::{is_correction, sweep};
use crate::engine::{
    failed_early, is_solve, keeps_count, lemma_history_weaken, opening, solve_with, yields,
    Failure, History, Yield,
};
use crate::error::SolveError;
use crate::poly::{
    all_zero, derivative, is_derivative, is_map, is_zip, map_with, zip_with, Shape,
};
use crate::scalar::Complex;
use crate::solver::Round;

verus! {

/// The operations the method needs of its numbers.
pub struct Arithmetic<T, S, P, H, G, C, M, E, N> {
    /// The number zero, from which the Aberth term is summed.
    pub zero: T,
    /// `scale(n, a)` is `n * a`.
    pub scale: S,
    /// `point(shape, n)` is the `n`-th first estimate for a polynomial of
    /// this shape.
    pub point: P,
    /// `horner(acc, x, a)` is `acc * x + a`.
    pub horner: H,
    /// `gather(sum, at, other)` is `sum + 1 / (at - other)`.
    pub gather: G,
    /// `correct(value, by, others)` is `w / (1 - w * others)` for the Newton
    /// ratio `w = value / by`.
    pub correct: C,
    /// `minus(x, c)` is `x - c`.
    pub minus: M,
    /// `encode(z)` is `z` as bit patterns.
    pub encode: E,
    /// `magnitude(z)` is the modulus of `z` as an encoded real.
    pub magnitude: N,
}

impl<
    T: Copy,
    S: Fn(usize, &T) -> T,
    P: Fn(Shape, usize) -> T,
    H: Fn(T, T, T) -> T,
    G: Fn(T, T, T) -> T,
    C: Fn(T, T, T) -> T,
    M: Fn(T, T) -> T,
    E: Fn(T) -> Complex,
    N: Fn(T) -> u64,
> Arithmetic<T, S, P, H, G, C, M, E, N> {
    /// Every operation accepts every input.
    pub open spec fn total(self) -> bool {
        &&& forall|n: usize, a: &T| #[trigger] self.scale.requires((n, a))
        &&& forall|shape: Shape, n: usize| #[trigger] self.point.requires((shape, n))
        &&& forall|acc: T, x: T, a: T| #[trigger] self.horner.requires((acc, x, a))
        &&& forall|sum: T, at: T, other: T| #[trigger] self.gather.requires((sum, at, other))
        &&& forall|value: T, by: T, others: T| #[trigger] self.correct.requires((value, by, others))
        &&& forall|x: T, c: T| #[trigger] self.minus.requires((x, c))
        &&& forall|z: T| #[trigger] self.encode.requires((z,))
        &&& forall|z: T| #[trigger] self.magnitude.requires((z,))
    }

    /// `report` is the round on `estimates` whose derivative values are
    /// `slopes` and whose corrections are `corrections`: every correction
    /// is computed from `estimates` as they stand, the estimates handed
    /// back are each estimate less its correction, and the round reports
    /// the estimates, the derivative values and the correction magnitudes
    /// as bit patterns.
    pub open spec fn round_from(
        self,
        coeffs: Seq<T>,
        slope: Seq<T>,
        estimates: Seq<T>,
        slopes: Seq<T>,
        corrections: Seq<T>,
        report: (Round, Vec<T>),
    ) -> bool {
        &&& slopes.len() == estimates.len()
        &&& corrections.len() == estimates.len()
        &&& forall|k: int|
            0 <= k < estimates.len() ==> #[trigger] is_correction(
                coeffs,
                slope,
                estimates,
                k,
                self.zero,
                self.horner,
                self.gather,
                self.correct,
                slopes[k],
                corrections[k],
            )
        &&& is_zip(estimates, corrections, self.minus, report.1@)
        &&& is_map(estimates, self.encode, report.0.estimates@)
        &&& is_map(slopes, self.encode, report.0.derivatives@)
        &&& is_map(corrections, self.magnitude, report.0.corrections@)
    }

    /// `report` is a round of the method on `snapshot`.
    pub open spec fn is_round(
        self,
        coeffs: Seq<T>,
        slope: Seq<T>,
        snapshot: Vec<T>,
        report: (Round, Vec<T>),
    ) -> bool {
        exists|slopes: Seq<T>, corrections: Seq<T>| #[trigger]
            self.round_from(coeffs, slope, snapshot@, slopes, corrections, report)
    }

    /// What a round of the method may yield for this polynomial and its
    /// derivative.
    pub open spec fn rounds(self, coeffs: Seq<T>, slope: Seq<T>) -> Yield<T> {
        |snapshot: Vec<T>, report: (Round, Vec<T>)| self.is_round(coeffs, slope, snapshot, report)
    }

    /// `out` is the result of the solve that encoded the coefficients as
    /// `encoded`, differentiated the polynomial to `slope`, and, unless it
    /// failed before, read off `shape`, placed `start` and took the course
    /// `history` in rounds of the method.
    pub open spec fn solved(
        self,
        coeffs: Seq<T>,
        tolerance: u64,
        max_iterations: usize,
        encoded: Seq<Complex>,
        slope: Seq<T>,
        shape: Shape,
        start: Vec<T>,
        history: History<T>,
        out: Result<Vec<T>, Failure<T>>,
    ) -> bool {
        &&& is_map(coeffs, self.encode, encoded)
        &&& is_derivative(coeffs, self.scale, slope)
        &&& if encoded.len() < 2 || all_zero(encoded) {
            failed_early(out, SolveError::DegenerateInput)
        } else if max_iterations == 0 {
            failed_early(out, SolveError::NotConverged)
        } else {
            is_solve(
                encoded,
                tolerance,
                max_iterations,
                self.point,
                self.rounds(coeffs, slope),
                shape,
                start,
                history,
                out,
            )
        }
    }

    /// Computes one round: every estimate's correction from the snapshot,
    /// the estimates with all corrections applied, and the report on which
    /// the round is judged.
    pub fn round(&self, coeffs: &Vec<T>, slope: &Vec<T>, estimates: &Vec<T>) -> (report: (
        Round,
        Vec<T>,
    ))
        requires
            self.total(),
            coeffs.len() >= 1,
            slope.len() >= 1,
        ensures
            self.is_round(coeffs@, slope@, *estimates, report),
    {
        let found = sweep(
            coeffs,
            slope,
            estimates,
            self.zero,
            &self.horner,
            &self.gather,
            &self.correct,
        );
        let next = zip_with(estimates, &found.corrections, &self.minus);
        let round = Round {
            estimates: map_with(estimates, &self.encode),
            derivatives: map_with(&found.slopes, &self.encode),
            corrections: map_with(&found.corrections, &self.magnitude),
        };
        let report = (round, next);
        proof {
            assert(self.round_from(
                coeffs@,
                slope@,
                estimates@,
                found.slopes@,
                found.corrections@,
                report,
            ));
        }
        report
    }

    /// Finds all roots of a polynomial at once.
    ///
    /// `coeffs` are the coefficients in ascending power, `tolerance` is the
    /// encoded largest correction magnitude that counts as converged, and
    /// `max_iterations` is the round limit.
    ///
    /// Fails with `DegenerateInput` if the polynomial has fewer than two
    /// coefficients or only zero coefficients; failing that, with
    /// `NotConverged` if no round is allowed. Otherwise the first estimates
    /// are placed and refined in rounds of the method, until a round is
    /// blocked by a division by zero (`NumericalFailure`), or all of a
    /// round's corrections are within tolerance (the roots are returned),
    /// or the round limit is reached (`NotConverged`). There is one root
    /// per degree, and a failure that came after the placement holds one
    /// estimate per degree.
    pub fn solve(&self, coeffs: &Vec<T>, tolerance: u64, max_iterations: usize) -> (out: Result<
        Vec<T>,
        Failure<T>,
    >)
        requires
            self.total(),
        ensures
            match out {
                Ok(roots) => coeffs.len() >= 2 && roots.len() == coeffs.len() - 1,
                Err(failure) => failure.rounds <= max_iterations && (failure.estimates.len() == 0
                    || failure.estimates.len() == coeffs.len() - 1),
            },
            exists|
                encoded: Seq<Complex>,
                slope: Seq<T>,
                shape: Shape,
                start: Vec<T>,
                history: History<T>,
            | #[trigger]
                self.solved(
                    coeffs@,
                    tolerance,
                    max_iterations,
                    encoded,
                    slope,
                    shape,
                    start,
                    history,
                    out,
                ),
    {
        let encoded = map_with(coeffs, &self.encode);
        let slope = derivative(coeffs, &self.scale);
        let ghost idle_history = History::<T> {
            states: Seq::empty(),
            points: Seq::empty(),
            reports: Seq::empty(),
        };
        let ghost idle_shape = Shape { degree: 0, pivot: 0 };
        // Without a derivative there is no round to compute.
        if coeffs.len() < 2 {
            let out = Err(
                Failure { error: SolveError::DegenerateInput, rounds: 0, estimates: Vec::new() },
            );
            proof {
                assert(self.solved(
                    coeffs@,
                    tolerance,
                    max_iterations,
                    encoded@,
                    slope@,
                    idle_shape,
                    arbitrary(),
                    idle_history,
                    out,
                ));
            }
            return out;
        }
        let refine = |snapshot: &Vec<T>| -> (report: (Round, Vec<T>))
            ensures
                self.is_round(coeffs@, slope@, *snapshot, report),
            { self.round(coeffs, &slope, snapshot) };
        let out = solve_with(&encoded, tolerance, max_iterations, &self.point, refine);
        proof {
            assert(keeps_count(yields(refine))) by {
                assert forall|snapshot: Vec<T>, report: (Round, Vec<T>)| #[trigger]
                    yields(refine)(snapshot, report) implies report.1.len() == snapshot.len() by {
                    assert(self.is_round(coeffs@, slope@, snapshot, report));
                }
            }
            if all_zero(encoded@) || max_iterations == 0 {
                assert(self.solved(
                    coeffs@,
                    tolerance,
                    max_iterations,
                    encoded@,
                    slope@,
                    idle_shape,
                    arbitrary(),
                    idle_history,
                    out,
                ));
            } else {
                let (shape, start, history) = choose|
                    shape: Shape,
                    start: Vec<T>,
                    history: History<T>,
                | #[trigger]
                    is_solve(
                        encoded@,
                        tolerance,
                        max_iterations,
                        self.point,
                        yields(refine),
                        shape,
                        start,
                        history,
                        out,
                    );
                lemma_history_weaken(
                    opening(shape.degree, tolerance, max_iterations),
                    start,
                    yields(refine),
                    self.rounds(coeffs@, slope@),
                    history,
                );
                assert(self.solved(
                    coeffs@,
                    tolerance,
                    max_iterations,
                    encoded@,
                    slope@,
                    shape,
                    start,
                    history,
                    out,
                ));
            }
        }
        out
    }
}

} // verus!
