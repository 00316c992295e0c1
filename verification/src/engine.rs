//! The solve and its iteration loop.
//!
//! The loop owns the estimates and the solver's state. What a round
//! computes is the caller's: a function from the snapshot of the estimates
//! to the round's report and the estimates with all corrections applied.
//! Where on the starting circle an estimate is placed is the caller's too.

use vstd::prelude::*;
use crate::error::SolveError;
use crate::poly::{all_zero, inspect, is_first_nonzero, Shape};
use crate::scalar::Complex;
use crate::solver::{settled, Phase, Round, Solver};

verus! {

/// How a run ended.
pub struct Outcome<T> {
    /// The final state: its phase tells how the run ended, and its round
    /// count how many rounds were applied.
    pub solver: Solver,
    /// The estimates after the last applied round.
    pub estimates: Vec<T>,
}

/// The course of a run: the state and the estimates before the first round
/// and after each round, and what each round reported.
pub struct History<T> {
    /// The state before the first round and after each round.
    pub states: Seq<Solver>,
    /// The estimates before the first round and after each round.
    pub points: Seq<Vec<T>>,
    /// What each round yielded: its report and the estimates it handed back.
    pub reports: Seq<(Round, Vec<T>)>,
}

/// What a round may yield: a relation between the snapshot of the
/// estimates and the round's report with the estimates it hands back.
pub type Yield<T> = spec_fn(Vec<T>, (Round, Vec<T>)) -> bool;

/// What `refine` may yield.
pub open spec fn yields<T, R: Fn(&Vec<T>) -> (Round, Vec<T>)>(refine: R) -> Yield<T> {
    |snapshot: Vec<T>, report: (Round, Vec<T>)| refine.ensures((&snapshot,), report)
}

/// Round `i` of the history was run on an iterating solve, reported what a
/// round may yield on the estimates of that moment, moved the state as the
/// solver prescribes, and replaced the estimates unless it was blocked.
pub open spec fn follows<T>(refine: Yield<T>, history: History<T>, i: int) -> bool {
    &&& history.states[i].phase == Phase::Iterating
    &&& refine(history.points[i], history.reports[i])
    &&& history.states[i + 1] == history.states[i].after(history.reports[i].0)
    &&& history.points[i + 1] == if history.reports[i].0.blocked() {
        history.points[i]
    } else {
        history.reports[i].1
    }
}

/// The history starts from `solver` and `start`, and each of its rounds
/// follows from the one before.
pub open spec fn is_history<T>(
    solver: Solver,
    start: Vec<T>,
    refine: Yield<T>,
    history: History<T>,
) -> bool {
    &&& history.states.len() == history.reports.len() + 1
    &&& history.points.len() == history.reports.len() + 1
    &&& history.states[0] == solver
    &&& history.points[0] == start
    &&& forall|i: int| 0 <= i < history.reports.len() ==> #[trigger] follows(refine, history, i)
}

/// Runs rounds until the solve is finished.
///
/// The run ends in a finished state after at most as many rounds as the
/// solver has left. It returns the estimates of the last round that was
/// applied: the roots if the solve converged, the best available estimates
/// if the round limit was reached, and the estimates at which a division by
/// zero arose if the solve was abandoned.
pub fn run<T, R: Fn(&Vec<T>) -> (Round, Vec<T>)>(solver: Solver, start: Vec<T>, refine: R) -> (out:
    Outcome<T>)
    requires
        solver.wf(),
        forall|snapshot: &Vec<T>| #[trigger] refine.requires((snapshot,)),
    ensures
        out.solver.phase != Phase::Iterating,
        out.solver.wf(),
        out.solver.degree == solver.degree,
        out.solver.tolerance == solver.tolerance,
        out.solver.max_iterations == solver.max_iterations,
        exists|history: History<T>| #[trigger]
            is_history(solver, start, yields(refine), history) && out.solver
                == history.states.last() && out.estimates == history.points.last(),
{
    let mut state = solver;
    let mut estimates = start;
    let ghost mut history = History::<T> {
        states: seq![solver],
        points: seq![start],
        reports: Seq::empty(),
    };
    while state.is_iterating()
        invariant
            state.wf(),
            state.degree == solver.degree,
            state.tolerance == solver.tolerance,
            state.max_iterations == solver.max_iterations,
            is_history(solver, start, yields(refine), history),
            state == history.states.last(),
            estimates == history.points.last(),
            forall|snapshot: &Vec<T>| #[trigger] refine.requires((snapshot,)),
        decreases
                (if state.phase == Phase::Iterating {
                    state.max_iterations - state.rounds
                } else {
                    0
                }),
    {
        let ghost before = history;
        let report = refine(&estimates);
        let ghost seen = report;
        let (round, next) = report;
        let phase = state.step(&round);
        match phase {
            Phase::Failed(SolveError::NumericalFailure) => {},
            _ => {
                estimates = next;
            },
        }
        proof {
            history = History::<T> {
                states: before.states.push(state),
                points: before.points.push(estimates),
                reports: before.reports.push(seen),
            };
            let last = before.reports.len() as int;
            assert forall|i: int| 0 <= i < history.reports.len() implies #[trigger] follows(
                yields(refine),
                history,
                i,
            ) by {
                if i < last {
                    assert(follows(yields(refine), before, i));
                }
            }
        }
    }
    Outcome { solver: state, estimates }
}

/// A history that ends converged ended on a round that was not blocked and
/// whose corrections were all within tolerance, and it ends with the
/// estimates that round produced.
pub proof fn lemma_converged_end<T>(
    solver: Solver,
    start: Vec<T>,
    refine: Yield<T>,
    history: History<T>,
)
    requires
        solver.wf(),
        is_history(solver, start, refine, history),
        solver.phase == Phase::Iterating,
        history.states.last().phase == Phase::Converged,
    ensures
        history.reports.len() >= 1,
        !history.reports.last().0.blocked(),
        settled(history.reports.last().0.corrections@, solver.tolerance),
        history.points.last() == history.reports.last().1,
{
    assert(follows(refine, history, history.reports.len() - 1));
    lemma_history_keeps_settings(solver, start, refine, history, history.reports.len() - 1);
}

/// A history that ends in a numerical failure ends with the estimates its
/// last round started from: a blocked round applies nothing.
pub proof fn lemma_abandoned_end<T>(
    solver: Solver,
    start: Vec<T>,
    refine: Yield<T>,
    history: History<T>,
)
    requires
        is_history(solver, start, refine, history),
        solver.phase == Phase::Iterating,
        history.states.last().phase == Phase::Failed(SolveError::NumericalFailure),
    ensures
        history.reports.len() >= 1,
        history.reports.last().0.blocked(),
        history.points.last() == history.points[history.points.len() - 2],
        history.states.last().rounds == history.states[history.states.len() - 2].rounds,
{
    assert(follows(refine, history, history.reports.len() - 1));
}

/// Through a whole history the state stays well formed, the degree, the
/// tolerance and the round limit stay what they were, and after `i` rounds
/// at most `i` were counted.
pub proof fn lemma_history_keeps_settings<T>(
    solver: Solver,
    start: Vec<T>,
    refine: Yield<T>,
    history: History<T>,
    i: int,
)
    requires
        solver.wf(),
        is_history(solver, start, refine, history),
        0 <= i <= history.reports.len(),
    ensures
        history.states[i].wf(),
        history.states[i].degree == solver.degree,
        history.states[i].tolerance == solver.tolerance,
        history.states[i].max_iterations == solver.max_iterations,
        solver.rounds <= history.states[i].rounds <= solver.rounds + i,
    decreases i,
{
    if i > 0 {
        lemma_history_keeps_settings(solver, start, refine, history, i - 1);
        assert(follows(refine, history, i - 1));
    }
}

/// A round hands back as many estimates as it was given.
pub open spec fn keeps_count<T>(refine: Yield<T>) -> bool {
    forall|snapshot: Vec<T>, report: (Round, Vec<T>)| #[trigger]
        refine(snapshot, report) ==> report.1.len() == snapshot.len()
}

/// A history stays a history under any relation that allows at least what
/// its rounds yielded.
pub proof fn lemma_history_weaken<T>(
    solver: Solver,
    start: Vec<T>,
    refine: Yield<T>,
    wider: Yield<T>,
    history: History<T>,
)
    requires
        is_history(solver, start, refine, history),
        forall|snapshot: Vec<T>, report: (Round, Vec<T>)| #[trigger]
            refine(snapshot, report) ==> wider(snapshot, report),
    ensures
        is_history(solver, start, wider, history),
{
    assert forall|i: int| 0 <= i < history.reports.len() implies #[trigger] follows(
        wider,
        history,
        i,
    ) by {
        assert(follows(refine, history, i));
    }
}

/// Where every round hands back as many estimates as it was given, their
/// number is the same through a whole history: one estimate per root, from
/// the first placement to the result.
pub proof fn lemma_history_keeps_count<T>(
    solver: Solver,
    start: Vec<T>,
    refine: Yield<T>,
    history: History<T>,
    i: int,
)
    requires
        is_history(solver, start, refine, history),
        keeps_count(refine),
        0 <= i <= history.reports.len(),
    ensures
        history.points[i].len() == start.len(),
    decreases i,
{
    if i > 0 {
        lemma_history_keeps_count(solver, start, refine, history, i - 1);
        assert(follows(refine, history, i - 1));
    }
}

/// `start` holds one first estimate per root, the `n`-th being what `point`
/// gives for the shape and `n`.
pub open spec fn is_placement<T, P: Fn(Shape, usize) -> T>(
    shape: Shape,
    point: P,
    start: Seq<T>,
) -> bool {
    &&& start.len() == shape.degree
    &&& forall|n: int|
        0 <= n < start.len() ==> point.ensures((shape, n as usize), #[trigger] start[n])
}

/// Places the first estimates: one per root, in the order of their
/// positions on the starting circle. Where on the circle position `n` of a
/// polynomial of this shape lies is for `point` to say.
pub fn start_points<T, P: Fn(Shape, usize) -> T>(shape: Shape, point: &P) -> (out: Vec<T>)
    requires
        forall|of: Shape, n: usize| #[trigger] point.requires((of, n)),
    ensures
        is_placement(shape, *point, out@),
{
    let mut out: Vec<T> = Vec::new();
    let mut n: usize = 0;
    while n < shape.degree
        invariant
            n <= shape.degree,
            out.len() == n,
            forall|of: Shape, at: usize| #[trigger] point.requires((of, at)),
            forall|i: int| 0 <= i < out.len() ==> point.ensures((shape, i as usize), #[trigger] out@[i]),
        decreases shape.degree - n,
    {
        let placed = point(shape, n);
        out.push(placed);
        n += 1;
    }
    out
}

/// A failed solve: the reason, the number of rounds that were applied, and
/// the estimates the solve had reached, which are empty if it never began.
pub struct Failure<T> {
    /// Why the solve failed.
    pub error: SolveError,
    /// How many rounds were applied.
    pub rounds: usize,
    /// The estimates after the last applied round.
    pub estimates: Vec<T>,
}

/// What a finished run amounts to for the caller: the roots, or the
/// failure with the round count and the estimates reached.
pub open spec fn verdict<T>(state: Solver, estimates: Vec<T>) -> Result<Vec<T>, Failure<T>> {
    match state.phase {
        Phase::Converged => Ok(estimates),
        Phase::Failed(error) => Err(Failure { error, rounds: state.rounds, estimates }),
        Phase::Iterating => Err(
            Failure { error: SolveError::NotConverged, rounds: state.rounds, estimates },
        ),
    }
}

/// `out` is a failure for this reason before any estimate was placed.
pub open spec fn failed_early<T>(out: Result<Vec<T>, Failure<T>>, error: SolveError) -> bool {
    &&& out is Err
    &&& out->Err_0.error == error
    &&& out->Err_0.rounds == 0
    &&& out->Err_0.estimates.len() == 0
}

/// The state in which a solve of a polynomial of this degree begins.
pub open spec fn opening(degree: usize, tolerance: u64, max_iterations: usize) -> Solver {
    Solver { degree, tolerance, max_iterations, rounds: 0, phase: Phase::Iterating }
}

/// `out` is the result of a solve that read `shape` off the polynomial,
/// placed `start` for it, and took the course `history`.
pub open spec fn is_solve<T, P: Fn(Shape, usize) -> T>(
    coeffs: Seq<Complex>,
    tolerance: u64,
    max_iterations: usize,
    point: P,
    refine: Yield<T>,
    shape: Shape,
    start: Vec<T>,
    history: History<T>,
    out: Result<Vec<T>, Failure<T>>,
) -> bool {
    &&& shape.degree == coeffs.len() - 1
    &&& is_first_nonzero(coeffs, shape.pivot as int)
    &&& is_placement(shape, point, start@)
    &&& is_history(opening(shape.degree, tolerance, max_iterations), start, refine, history)
    &&& history.states.last().phase != Phase::Iterating
    &&& out == verdict(history.states.last(), history.points.last())
}

/// Solves a polynomial with rounds of the caller's making.
///
/// `coeffs` are the encoded coefficients in ascending power, `tolerance`
/// is the encoded largest correction magnitude that counts as converged,
/// and `max_iterations` is the round limit. `point` gives each first
/// estimate for the polynomial's shape, and `refine` computes a round.
///
/// Fails with `DegenerateInput`, before anything is placed, if the
/// polynomial has fewer than two coefficients or only zero coefficients;
/// failing that, with `NotConverged` if no round is allowed. Otherwise the
/// solve runs its course and returns the roots if it converged, and else
/// the failure that ended it. Where every round hands back as many
/// estimates as it was given, there is one root, or one estimate reached,
/// per degree.
pub fn solve_with<T, P: Fn(Shape, usize) -> T, R: Fn(&Vec<T>) -> (Round, Vec<T>)>(
    coeffs: &Vec<Complex>,
    tolerance: u64,
    max_iterations: usize,
    point: &P,
    refine: R,
) -> (out: Result<Vec<T>, Failure<T>>)
    requires
        forall|shape: Shape, n: usize| #[trigger] point.requires((shape, n)),
        forall|snapshot: &Vec<T>| #[trigger] refine.requires((snapshot,)),
    ensures
        coeffs.len() < 2 || all_zero(coeffs@) ==> failed_early(out, SolveError::DegenerateInput),
        !(coeffs.len() < 2 || all_zero(coeffs@)) && max_iterations == 0 ==> failed_early(
            out,
            SolveError::NotConverged,
        ),
        out is Err ==> out->Err_0.rounds <= max_iterations,
        keeps_count(yields(refine)) && !(coeffs.len() < 2 || all_zero(coeffs@)) && max_iterations
            > 0
            ==> match out {
            Ok(roots) => roots.len() == coeffs.len() - 1,
            Err(failure) => failure.estimates.len() == coeffs.len() - 1,
        },
        !(coeffs.len() < 2 || all_zero(coeffs@)) && max_iterations > 0 ==> exists|
            shape: Shape,
            start: Vec<T>,
            history: History<T>,
        | #[trigger]
            is_solve(
                coeffs@,
                tolerance,
                max_iterations,
                *point,
                yields(refine),
                shape,
                start,
                history,
                out,
            ),
{
    let shape = match inspect(coeffs) {
        Ok(shape) => shape,
        Err(error) => {
            return Err(Failure { error, rounds: 0, estimates: Vec::new() });
        },
    };
    let solver = match Solver::open(shape.degree, tolerance, max_iterations) {
        Ok(solver) => solver,
        Err(error) => {
            return Err(Failure { error, rounds: 0, estimates: Vec::new() });
        },
    };
    let start = start_points(shape, point);
    let ghost placed = start;
    let outcome = run(solver, start, refine);
    let ghost ended = outcome.solver;
    let ghost reached = outcome.estimates;
    let out = match outcome.solver.phase {
        Phase::Converged => Ok(outcome.estimates),
        Phase::Failed(error) => Err(
            Failure { error, rounds: outcome.solver.rounds, estimates: outcome.estimates },
        ),
        Phase::Iterating => Err(
            Failure {
                error: SolveError::NotConverged,
                rounds: outcome.solver.rounds,
                estimates: outcome.estimates,
            },
        ),
    };
    proof {
        let history = choose|history: History<T>| #[trigger]
            is_history(solver, placed, yields(refine), history) && ended == history.states.last()
                && reached == history.points.last();
        assert(solver == opening(shape.degree, tolerance, max_iterations));
        if keeps_count(yields(refine)) {
            lemma_history_keeps_count(
                solver,
                placed,
                yields(refine),
                history,
                history.reports.len() as int,
            );
        }
        assert(is_solve(
            coeffs@,
            tolerance,
            max_iterations,
            *point,
            yields(refine),
            shape,
            placed,
            history,
            out,
        ));
    }
    out
}

} // verus!
