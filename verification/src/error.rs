//! Domain error types for the simulation core.
//!
//! Every variant names the offending value by position or count, so a
//! message built from it can say exactly what was rejected.

use vstd::prelude::*;

verus! {

/// Why a payoff matrix cannot be played as a game.
#[derive(Debug, Clone, Copy, PartialEq, Eq, Structural)]
pub enum GameError {
    /// Fewer strategies than a game needs.
    TooFewStrategies { found: usize, minimum: usize },
    /// More strategies than a `StrategyId` can name.
    TooManyStrategies { found: usize, maximum: usize },
    /// Row `row` has `found` entries where the matrix needs `expected`.
    NotSquare { row: usize, found: usize, expected: usize },
    /// The entry at `row`, `col` is not a finite number.
    NonFiniteEntry { row: usize, col: usize },
}

/// Why a population cannot be built or run.
#[derive(Debug, Clone, Copy, PartialEq, Eq, Structural)]
pub enum SimError {
    /// Fewer agents than imitation needs: someone other than yourself to
    /// copy.
    PopulationTooSmall { found: usize, minimum: usize },
    /// A generation with no matches scores everyone zero and carries no
    /// information.
    NoMatches,
    /// `found` values were given for a game of `expected` strategies.
    ShareCountMismatch { found: usize, expected: usize },
    /// The whole agents handed to the strategies add up to `found`, not to
    /// the population of `expected`.
    CountsDoNotFillPopulation { found: usize, expected: usize },
}

} // verus!
