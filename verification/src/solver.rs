//! The iteration's state machine.
//!
//! A solve goes round by round. In each round the caller computes, from one
//! snapshot of the estimates, the derivative's value at every estimate and
//! every estimate's correction, and reports them. The solver decides what
//! the round means: abandon, finish, give up, or go on.

use vstd::prelude::*;
use crate::error::SolveError;
use crate::poly::{inspect, all_zero};
use crate::scalar::{le_real, lemma_real_le_transitive, real_le, Complex};

verus! {

/// Some derivative value is zero: the Newton ratio at that estimate would
/// divide by zero.
pub open spec fn stalls(derivatives: Seq<Complex>) -> bool {
    exists|k: int| 0 <= k < derivatives.len() && (#[trigger] derivatives[k]).zero()
}

/// `j` and `k` are two different positions that hold coinciding estimates.
pub open spec fn collide_at(estimates: Seq<Complex>, j: int, k: int) -> bool {
    0 <= j < k < estimates.len() && estimates[j].coincides(estimates[k])
}

/// Two estimates at different positions coincide: the reciprocal of their
/// difference would divide by zero.
pub open spec fn collides(estimates: Seq<Complex>) -> bool {
    exists|j: int, k: int| collide_at(estimates, j, k)
}

/// Every correction magnitude is at most the tolerance.
pub open spec fn settled(corrections: Seq<u64>, tolerance: u64) -> bool {
    forall|k: int| 0 <= k < corrections.len() ==> real_le(#[trigger] corrections[k], tolerance)
}

/// Tells whether some derivative value is zero.
pub fn has_zero(derivatives: &Vec<Complex>) -> (out: bool)
    ensures
        out == stalls(derivatives@),
{
    let mut k: usize = 0;
    while k < derivatives.len()
        invariant
            k <= derivatives.len(),
            forall|i: int| 0 <= i < k ==> !(#[trigger] derivatives@[i]).zero(),
        decreases derivatives.len() - k,
    {
        if derivatives[k].is_zero() {
            return true;
        }
        k += 1;
    }
    false
}

/// Tells whether two estimates at different positions coincide.
pub fn has_collision(estimates: &Vec<Complex>) -> (out: bool)
    ensures
        out == collides(estimates@),
{
    let n = estimates.len();
    let mut k: usize = 0;
    while k < n
        invariant
            n == estimates.len(),
            k <= n,
            forall|a: int, b: int| 0 <= a < b < k ==> !collide_at(estimates@, a, b),
        decreases n - k,
    {
        let mut j: usize = 0;
        while j < k
            invariant
                n == estimates.len(),
                j <= k < n,
                forall|a: int, b: int| 0 <= a < b < k ==> !collide_at(estimates@, a, b),
                forall|a: int| 0 <= a < j ==> !collide_at(estimates@, a, k as int),
            decreases k - j,
        {
            if estimates[j].same_as(&estimates[k]) {
                assert(collide_at(estimates@, j as int, k as int));
                return true;
            }
            j += 1;
        }
        k += 1;
    }
    false
}

/// Tells whether every correction magnitude is at most the tolerance.
pub fn all_within(corrections: &Vec<u64>, tolerance: u64) -> (out: bool)
    ensures
        out == settled(corrections@, tolerance),
{
    let mut k: usize = 0;
    while k < corrections.len()
        invariant
            k <= corrections.len(),
            forall|i: int| 0 <= i < k ==> real_le(#[trigger] corrections@[i], tolerance),
        decreases corrections.len() - k,
    {
        if !le_real(corrections[k], tolerance) {
            return false;
        }
        k += 1;
    }
    true
}

/// What one round found, all of it computed from the same snapshot.
#[derive(Debug)]
pub struct Round {
    /// The estimates the round started from.
    pub estimates: Vec<Complex>,
    /// The derivative's value at each estimate.
    pub derivatives: Vec<Complex>,
    /// The magnitude of each estimate's correction, as an encoded real.
    pub corrections: Vec<u64>,
}

impl Round {
    /// The round's corrections cannot be computed without dividing by zero.
    pub open spec fn blocked(self) -> bool {
        stalls(self.derivatives@) || collides(self.estimates@)
    }

    /// Tells whether the round's corrections cannot be computed without
    /// dividing by zero.
    pub fn is_blocked(&self) -> (out: bool)
        ensures
            out == self.blocked(),
    {
        has_zero(&self.derivatives) || has_collision(&self.estimates)
    }
}

/// Where a solve stands.
#[derive(Clone, Copy, Debug, PartialEq, Eq, Structural)]
pub enum Phase {
    /// More rounds are wanted.
    Iterating,
    /// The last round's corrections were all within tolerance; the
    /// estimates it produced are the roots.
    Converged,
    /// The solve was abandoned.
    Failed(SolveError),
}

/// The state of one solve.
#[derive(Clone, Copy, Debug, PartialEq, Eq, Structural)]
pub struct Solver {
    /// The number of roots sought.
    pub degree: usize,
    /// The largest correction magnitude that counts as converged, as an
    /// encoded real.
    pub tolerance: u64,
    /// The largest number of rounds that may be run.
    pub max_iterations: usize,
    /// The number of rounds whose corrections were applied.
    pub rounds: usize,
    /// Where the solve stands.
    pub phase: Phase,
}

impl Solver {
    /// The round count respects the limit, and while the solve is still
    /// iterating at least one more round is allowed.
    pub open spec fn wf(self) -> bool {
        &&& self.degree >= 1
        &&& self.rounds <= self.max_iterations
        &&& self.phase == Phase::Iterating ==> self.rounds < self.max_iterations
    }

    /// The state a round leads to.
    ///
    /// A finished solve stays as it is. Otherwise a blocked round abandons
    /// the solve with `NumericalFailure` and applies nothing; any other
    /// round is applied and counted, and then the solve has converged if
    /// every correction was within tolerance, has failed with
    /// `NotConverged` if that was the last round allowed, and goes on
    /// otherwise.
    pub open spec fn after(self, round: Round) -> Solver {
        if self.phase != Phase::Iterating {
            self
        } else if round.blocked() {
            Solver { phase: Phase::Failed(SolveError::NumericalFailure), ..self }
        } else if settled(round.corrections@, self.tolerance) {
            Solver { phase: Phase::Converged, rounds: (self.rounds + 1) as usize, ..self }
        } else if self.rounds + 1 >= self.max_iterations {
            Solver {
                phase: Phase::Failed(SolveError::NotConverged),
                rounds: (self.rounds + 1) as usize,
                ..self
            }
        } else {
            Solver { rounds: (self.rounds + 1) as usize, ..self }
        }
    }

    /// Opens a solve for `degree` roots. Fails with `NotConverged` if no
    /// round at all is allowed.
    pub fn open(degree: usize, tolerance: u64, max_iterations: usize) -> (out: Result<
        Solver,
        SolveError,
    >)
        requires
            degree >= 1,
        ensures
            out == (if max_iterations == 0 {
                Err::<Solver, SolveError>(SolveError::NotConverged)
            } else {
                Ok::<Solver, SolveError>(
                    (Solver { degree, tolerance, max_iterations, rounds: 0, phase: Phase::Iterating }),
                )
            }),
            out is Ok ==> out->Ok_0.wf(),
    {
        if max_iterations == 0 {
            Err(SolveError::NotConverged)
        } else {
            Ok(Solver { degree, tolerance, max_iterations, rounds: 0, phase: Phase::Iterating })
        }
    }

    /// Opens a solve of the polynomial `coeffs`.
    ///
    /// Fails with `DegenerateInput` if the polynomial has fewer than two
    /// coefficients or only zero coefficients; failing that, with
    /// `NotConverged` if no round at all is allowed.
    pub fn start(coeffs: &Vec<Complex>, tolerance: u64, max_iterations: usize) -> (out: Result<
        Solver,
        SolveError,
    >)
        ensures
            out == (if coeffs.len() < 2 || all_zero(coeffs@) {
                Err::<Solver, SolveError>(SolveError::DegenerateInput)
            } else if max_iterations == 0 {
                Err::<Solver, SolveError>(SolveError::NotConverged)
            } else {
                Ok::<Solver, SolveError>(
                    (Solver {
                        degree: (coeffs.len() - 1) as usize,
                        tolerance,
                        max_iterations,
                        rounds: 0,
                        phase: Phase::Iterating,
                    }),
                )
            }),
            out is Ok ==> out->Ok_0.wf(),
    {
        match inspect(coeffs) {
            Err(e) => Err(e),
            Ok(shape) => Solver::open(shape.degree, tolerance, max_iterations),
        }
    }

    /// Takes in one round and says where the solve stands after it.
    pub fn step(&mut self, round: &Round) -> (phase: Phase)
        requires
            old(self).wf(),
        ensures
            *final(self) == old(self).after(*round),
            phase == final(self).phase,
            final(self).wf(),
    {
        match self.phase {
            Phase::Iterating => {},
            _ => {
                return self.phase;
            },
        }
        if round.is_blocked() {
            self.phase = Phase::Failed(SolveError::NumericalFailure);
            return self.phase;
        }
        self.rounds = self.rounds + 1;
        if all_within(&round.corrections, self.tolerance) {
            self.phase = Phase::Converged;
        } else if self.rounds >= self.max_iterations {
            self.phase = Phase::Failed(SolveError::NotConverged);
        }
        self.phase
    }

    /// Tells whether the solve wants another round.
    pub fn is_iterating(&self) -> (out: bool)
        ensures
            out == (self.phase == Phase::Iterating),
    {
        match self.phase {
            Phase::Iterating => true,
            _ => false,
        }
    }
}

/// Corrections that are within a tolerance are within every larger one.
pub proof fn lemma_settled_monotone(corrections: Seq<u64>, tight: u64, loose: u64)
    requires
        settled(corrections, tight),
        real_le(tight, loose),
    ensures
        settled(corrections, loose),
{
    assert forall|k: int| 0 <= k < corrections.len() implies real_le(
        #[trigger] corrections[k],
        loose,
    ) by {
        lemma_real_le_transitive(corrections[k], tight, loose);
    }
}

/// A finished solve is not moved by further rounds.
pub proof fn lemma_finished_stays(solver: Solver, round: Round)
    requires
        solver.phase != Phase::Iterating,
    ensures
        solver.after(round) == solver,
{
}

/// A round never moves a solve past its round limit, and never changes the
/// degree, the tolerance or the limit.
pub proof fn lemma_round_keeps_bounds(solver: Solver, round: Round)
    requires
        solver.wf(),
    ensures
        solver.after(round).wf(),
        solver.after(round).degree == solver.degree,
        solver.after(round).tolerance == solver.tolerance,
        solver.after(round).max_iterations == solver.max_iterations,
        solver.rounds <= solver.after(round).rounds <= solver.rounds + 1,
{
}

/// A round in which two estimates at different positions coincide abandons
/// an iterating solve with a numerical failure, whatever else it reports.
pub proof fn lemma_coincidence_fails(solver: Solver, round: Round, j: int, k: int)
    requires
        solver.phase == Phase::Iterating,
        0 <= j < round.estimates.len(),
        0 <= k < round.estimates.len(),
        j != k,
        round.estimates@[j].coincides(round.estimates@[k]),
    ensures
        solver.after(round).phase == Phase::Failed(SolveError::NumericalFailure),
{
    if j < k {
        assert(collide_at(round.estimates@, j, k));
    } else {
        assert(round.estimates@[k].coincides(round.estimates@[j]));
        assert(collide_at(round.estimates@, k, j));
    }
}

/// A round in which the derivative vanishes at some estimate abandons an
/// iterating solve with a numerical failure.
pub proof fn lemma_zero_derivative_fails(solver: Solver, round: Round, k: int)
    requires
        solver.phase == Phase::Iterating,
        0 <= k < round.derivatives.len(),
        round.derivatives@[k].zero(),
    ensures
        solver.after(round).phase == Phase::Failed(SolveError::NumericalFailure),
{
}

/// An iterating solve converges on a round exactly when the round is not
/// blocked and every one of its corrections is within tolerance: one
/// correction out of tolerance, at any position, is enough to go on.
pub proof fn lemma_converges_iff_all_settled(solver: Solver, round: Round)
    requires
        solver.phase == Phase::Iterating,
    ensures
        solver.after(round).phase == Phase::Converged <==> !round.blocked() && settled(
            round.corrections@,
            solver.tolerance,
        ),
{
}

} // verus!
