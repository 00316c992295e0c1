//! The ways a solve can fail.

use vstd::prelude::*;

verus! {

/// Why a solve ended without a converged set of roots.
#[derive(Clone, Copy, Debug, PartialEq, Eq, Structural)]
pub enum SolveError {
    /// The polynomial has fewer than two coefficients, or all of them are zero.
    DegenerateInput,
    /// A division by zero arose: the derivative vanished at an estimate, or
    /// two estimates coincided.
    NumericalFailure,
    /// The round limit was reached before every correction was within
    /// tolerance.
    NotConverged,
}

impl SolveError {
    /// A short description of the failure.
    pub fn message(&self) -> (text: &'static str)
        ensures
            text@ == match *self {
                SolveError::DegenerateInput => "degenerate input"@,
                SolveError::NumericalFailure => "numerical failure"@,
                SolveError::NotConverged => "not converged"@,
            },
    {
        match self {
            SolveError::DegenerateInput => "degenerate input",
            SolveError::NumericalFailure => "numerical failure",
            SolveError::NotConverged => "not converged",
        }
    }
}

} // verus!
