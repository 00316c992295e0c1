//! Decision logic of an Aberth–Ehrlich polynomial root finder.
//!
//! The finder refines all root estimates of a polynomial at once: each
//! estimate is corrected by a Newton step that is adjusted by the distances
//! to all other estimates, and all corrections of a round are computed from
//! the same snapshot.
//!
//! This library holds everything of the method but the arithmetic. Numbers
//! reach it in two forms: as values of a scalar type of the caller's, which
//! it moves through the caller's own arithmetic, and as bit patterns, from
//! which it decides what is zero, what coincides and what is within
//! tolerance.
//!
//! - [`scalar`]: numbers as bit patterns, and the questions asked of them.
//! - [`poly`]: the shape of a polynomial, differentiation, evaluation.
//! - [`correction`]: the Aberth term and the corrections of one round.
//! - [`solver`]: the state machine that judges each round.
//! - [`engine`]: the iteration loop, over rounds of the caller's making.
//! - [`method`]: the rounds of the method and the solve as a whole.
//! - [`error`]: the ways a solve can fail.

pub mod correction;
pub mod engine;
pub mod error;
pub mod method;
pub mod poly;
pub mod scalar;
pub mod solver;
