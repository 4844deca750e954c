//! Helpers around text matching, the clock, identifiers and expression
//! evaluation.

pub mod clock;
pub mod evaluator;
pub mod ids;
pub mod text;
