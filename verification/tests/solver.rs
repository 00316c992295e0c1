use aberth::error::SolveError;
use aberth::scalar::Complex;
use aberth::solver::{all_within, has_collision, has_zero, Phase, Round, Solver};

fn point(re: f64, im: f64) -> Complex {
    Complex::new(re.to_bits(), im.to_bits())
}

fn magnitudes(values: &[f64]) -> Vec<u64> {
    values.iter().map(|v| v.to_bits()).collect()
}

fn quadratic() -> Vec<Complex> {
    vec![point(2.0, 0.0), point(-3.0, 0.0), point(1.0, 0.0)]
}

fn round(corrections: &[f64]) -> Round {
    Round {
        estimates: vec![point(0.5, 0.0), point(2.5, 0.5)],
        derivatives: vec![point(-2.0, 0.0), point(2.0, 1.0)],
        corrections: magnitudes(corrections),
    }
}

#[test]
fn start_rejects_degenerate_input() {
    let zeros = vec![point(0.0, 0.0), point(0.0, 0.0), point(0.0, 0.0)];
    assert_eq!(Solver::start(&zeros, 1.0e-4f64.to_bits(), 100), Err(SolveError::DegenerateInput));
    assert_eq!(
        Solver::start(&vec![point(1.0, 0.0)], 1.0e-4f64.to_bits(), 100),
        Err(SolveError::DegenerateInput)
    );
    assert_eq!(Solver::start(&vec![], 1.0e-4f64.to_bits(), 100), Err(SolveError::DegenerateInput));
    assert_eq!(Solver::start(&zeros, 1.0e-4f64.to_bits(), 0), Err(SolveError::DegenerateInput));
}

#[test]
fn start_without_any_round_allowed_is_not_converged() {
    assert_eq!(Solver::start(&quadratic(), 1.0e-4f64.to_bits(), 0), Err(SolveError::NotConverged));
}

#[test]
fn start_opens_an_iterating_solve() {
    let solver = Solver::start(&quadratic(), 1.0e-4f64.to_bits(), 7).unwrap();
    assert_eq!(
        solver,
        Solver {
            degree: 2,
            tolerance: 1.0e-4f64.to_bits(),
            max_iterations: 7,
            rounds: 0,
            phase: Phase::Iterating,
        }
    );
    assert!(solver.is_iterating());
}

#[test]
fn step_converges_when_every_correction_is_within_tolerance() {
    let mut solver = Solver::start(&quadratic(), 1.0e-4f64.to_bits(), 7).unwrap();
    assert_eq!(solver.step(&round(&[1.0e-4, 0.0])), Phase::Converged);
    assert_eq!(solver.phase, Phase::Converged);
    assert_eq!(solver.rounds, 1);
    assert!(!solver.is_iterating());
}

#[test]
fn step_goes_on_while_any_correction_is_out_of_tolerance() {
    let mut solver = Solver::start(&quadratic(), 1.0e-4f64.to_bits(), 7).unwrap();
    assert_eq!(solver.step(&round(&[0.5, 0.0])), Phase::Iterating);
    assert_eq!(solver.rounds, 1);
    assert_eq!(solver.step(&round(&[0.0, 1.1e-4])), Phase::Iterating);
    assert_eq!(solver.rounds, 2);
    assert_eq!(solver.step(&round(&[f64::NAN, 0.0])), Phase::Iterating);
    assert_eq!(solver.rounds, 3);
    assert_eq!(solver.step(&round(&[1.0e-5, 1.0e-6])), Phase::Converged);
    assert_eq!(solver.rounds, 4);
}

#[test]
fn step_gives_up_at_the_round_limit() {
    let mut solver = Solver::start(&quadratic(), 1.0e-4f64.to_bits(), 3).unwrap();
    assert_eq!(solver.step(&round(&[0.5, 0.5])), Phase::Iterating);
    assert_eq!(solver.step(&round(&[0.5, 0.5])), Phase::Iterating);
    assert_eq!(solver.step(&round(&[0.5, 0.5])), Phase::Failed(SolveError::NotConverged));
    assert_eq!(solver.rounds, 3);
}

#[test]
fn step_converges_in_the_last_round_allowed() {
    let mut solver = Solver::start(&quadratic(), 1.0e-4f64.to_bits(), 1).unwrap();
    assert_eq!(solver.step(&round(&[0.0, 0.0])), Phase::Converged);
    assert_eq!(solver.rounds, 1);
}

#[test]
fn step_fails_on_a_zero_derivative() {
    let mut solver = Solver::start(&quadratic(), 1.0e-4f64.to_bits(), 7).unwrap();
    let mut report = round(&[0.0, 0.0]);
    report.derivatives[1] = point(-0.0, 0.0);
    assert_eq!(solver.step(&report), Phase::Failed(SolveError::NumericalFailure));
    assert_eq!(solver.rounds, 0);
}

#[test]
fn step_fails_on_coinciding_estimates() {
    let mut solver = Solver::start(&quadratic(), 1.0e-4f64.to_bits(), 7).unwrap();
    let mut report = round(&[0.0, 0.0]);
    report.estimates = vec![point(1.5, 0.0), point(1.5, -0.0)];
    assert_eq!(solver.step(&report), Phase::Failed(SolveError::NumericalFailure));
    assert_eq!(solver.rounds, 0);
    assert_eq!(solver.phase, Phase::Failed(SolveError::NumericalFailure));
}

#[test]
fn finished_solve_ignores_further_rounds() {
    let mut solver = Solver::start(&quadratic(), 1.0e-4f64.to_bits(), 7).unwrap();
    assert_eq!(solver.step(&round(&[0.0, 0.0])), Phase::Converged);
    let frozen = solver;
    let mut bad = round(&[9.0, 9.0]);
    bad.derivatives[0] = point(0.0, 0.0);
    assert_eq!(solver.step(&bad), Phase::Converged);
    assert_eq!(solver, frozen);
    assert_eq!(solver.step(&round(&[9.0, 9.0])), Phase::Converged);
    assert_eq!(solver, frozen);
}

#[test]
fn round_checks_on_plain_values() {
    assert!(!has_zero(&vec![]));
    assert!(!has_zero(&vec![point(1.0, 0.0), point(0.0, 1.0)]));
    assert!(has_zero(&vec![point(1.0, 0.0), point(0.0, -0.0)]));
    assert!(!has_collision(&vec![]));
    assert!(!has_collision(&vec![point(1.0, 0.0)]));
    assert!(!has_collision(&vec![point(1.0, 0.0), point(1.0, 1.0), point(0.0, 0.0)]));
    assert!(has_collision(&vec![point(1.0, 0.0), point(2.0, 1.0), point(1.0, 0.0)]));
    assert!(!has_collision(&vec![point(f64::NAN, 0.0), point(f64::NAN, 0.0)]));
    assert!(all_within(&magnitudes(&[]), 1.0e-4f64.to_bits()));
    assert!(all_within(&magnitudes(&[1.0e-4, 1.0e-7]), 1.0e-4f64.to_bits()));
    assert!(!all_within(&magnitudes(&[1.0e-7, 2.0e-4]), 1.0e-4f64.to_bits()));
    assert!(!round(&[0.0, 0.0]).is_blocked());
}

#[test]
fn errors_describe_themselves() {
    assert_eq!(SolveError::DegenerateInput.message(), "degenerate input");
    assert_eq!(SolveError::NumericalFailure.message(), "numerical failure");
    assert_eq!(SolveError::NotConverged.message(), "not converged");
}

#[test]
fn looser_tolerance_settles_what_a_tighter_one_does() {
    let corrections = magnitudes(&[3.0e-7, 0.0, 9.0e-7]);
    assert!(all_within(&corrections, 1.0e-6f64.to_bits()));
    assert!(all_within(&corrections, 1.0e-4f64.to_bits()));
    assert!(all_within(&corrections, f64::INFINITY.to_bits()));
    assert!(!all_within(&corrections, 5.0e-7f64.to_bits()));
    assert!(!all_within(&corrections, f64::NAN.to_bits()));
}

#[test]
fn open_begins_at_round_zero() {
    let solver = Solver::open(4, 1.0e-6f64.to_bits(), 9).unwrap();
    assert_eq!(solver.degree, 4);
    assert_eq!(solver.tolerance, 1.0e-6f64.to_bits());
    assert_eq!(solver.max_iterations, 9);
    assert_eq!(solver.rounds, 0);
    assert_eq!(solver.phase, Phase::Iterating);
    assert_eq!(Solver::open(4, 1.0e-6f64.to_bits(), 0), Err(SolveError::NotConverged));
}
