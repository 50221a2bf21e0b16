//! Difficulty and performance scoring support for a rhythm-game map:
//! the hit-result distribution solver that reconstructs a full, self-consistent
//! set of hit-result counts from partial information, and the bookkeeping for
//! gradually advancing a difficulty calculation through a map's objects.
//!
//! Floating-point strain and performance formulas are deliberately kept out of
//! this crate's verified core; the integer logic here is what decides which
//! hit-result distribution a play is scored with.

mod gradual;
mod score_state;
mod solver;

pub use gradual::GradualProgress;
pub use score_state::OsuScoreState;
pub use solver::HitResultPriority;
pub use solver::ScoreStateBuilder;
