//! A two-player zero-sum adversarial search engine with a reference game.
//!
//! The engine offers depth-limited negamax and alpha-beta searchers, a
//! transposition table keyed by state fingerprints, iterative-deepening
//! drivers and move selectors, all generic over a small game interface.
//! Every searcher carries a fail-soft contract against the spec-level
//! negamax or minimax value of the position. The board game Impasse and
//! Tic-Tac-Toe instantiate the interface.

use vstd::prelude::*;

pub mod base;
pub mod clock;
pub mod game_value;
pub mod games;
pub mod iterative_deepening;
pub mod move_finders;
pub mod traits;
pub mod transposition_table;

verus! {

/// Lowest value a search may report: one above `i64::MIN`, so that negating
/// a search value or a window bound never overflows.
pub open spec fn min_score() -> int {
    i64::MIN + 1
}

/// Executable counterpart of `min_score`.
pub fn lowest_score() -> (r: i64)
    ensures
        r == min_score(),
{
    i64::MIN + 1
}

} // verus!
