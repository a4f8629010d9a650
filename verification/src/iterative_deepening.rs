use vstd::prelude::*;

use crate::base::nega_with_table;
use crate::clock::{clock_now, elapsed_millis};
use crate::game_value::{int_max, int_min, lemma_full_window_exact, lemma_nega_val_bounded, nega_val};
use crate::min_score;
use crate::traits::{ChildStates, ScoreOfState, SearchMove, StateHash, TerminalState};
use crate::transposition_table::{tt_inv_nega, TranspositionTable};

verus! {

/// Deepest ply a time-bounded driver will ever try: far beyond any tree a
/// search could finish within a time budget, it only bounds the loops.
pub const MAX_ID_DEPTH: i64 = 1000000;

/// The score an iterative-deepening driver reports for a sequence of
/// per-depth results: the largest for MAX, the smallest for MIN, starting
/// from the usual sentinels.
pub open spec fn fold_minmax(scores: Seq<i64>, color: bool) -> int
    decreases scores.len(),
{
    if scores.len() == 0 {
        if color {
            min_score()
        } else {
            i64::MAX as int
        }
    } else {
        let rest = fold_minmax(scores.drop_last(), color);
        if color {
            int_max(rest, scores.last() as int)
        } else {
            int_min(rest, scores.last() as int)
        }
    }
}

/// Depth-bounded iterative deepening over a caller-supplied searcher: the
/// searcher runs at every depth from one up to, excluding, `max_depth`, and
/// the reported result folds the per-depth results by the side to move.
pub fn iterative_deepening<
    M: SearchMove,
    T: ScoreOfState + TerminalState + ChildStates<M> + Copy,
    F: Fn(T, i64, bool) -> i64,
>(state: &T, max_depth: i64, color: bool, search_function: F) -> (r: i64)
    requires
        forall|d: i64| 1 <= d < max_depth ==> call_requires(search_function, (*state, d, color)),
    ensures
        exists|scores: Seq<i64>|
            {
                &&& scores.len() == if max_depth >= 1 {
                    (max_depth - 1) as int
                } else {
                    0
                }
                &&& (forall|i: int|
                    0 <= i < scores.len() ==> call_ensures(
                        search_function,
                        (*state, (i + 1) as i64, color),
                        #[trigger] scores[i],
                    ))
                &&& r == fold_minmax(scores, color)
            },
{
    let mut max_seen: i64 = i64::MIN + 1;
    let mut min_seen: i64 = i64::MAX;
    let ghost mut scores: Seq<i64> = Seq::empty();
    let mut depth: i64 = 1;
    while depth < max_depth
        invariant
            1 <= depth,
            max_depth >= 1 ==> depth <= max_depth,
            max_depth < 1 ==> depth == 1,
            scores.len() == depth - 1,
            forall|i: int|
                0 <= i < scores.len() ==> call_ensures(
                    search_function,
                    (*state, (i + 1) as i64, color),
                    #[trigger] scores[i],
                ),
            max_seen == fold_minmax(scores, true),
            min_seen == fold_minmax(scores, false),
            forall|d: i64| 1 <= d < max_depth ==> call_requires(search_function, (*state, d, color)),
        decreases max_depth - depth,
    {
        let score = search_function(*state, depth, color);
        proof {
            let prev = scores;
            scores = scores.push(score);
            assert(scores.drop_last() =~= prev);
            assert(scores.last() == score);
        }
        if score > max_seen {
            max_seen = score;
        }
        if score < min_seen {
            min_seen = score;
        }
        depth += 1;
    }
    if color {
        max_seen
    } else {
        min_seen
    }
}

/// Time-bounded iterative deepening over a caller-supplied searcher: depths
/// run from one while the elapsed time stays below `max_time` milliseconds;
/// a deadline is only checked between iterations, never during one. A zero
/// budget runs no iteration at all.
pub fn iterative_deepening_t<
    M: SearchMove,
    T: ScoreOfState + TerminalState + ChildStates<M> + Copy,
    F: Fn(T, i64, bool) -> i64,
>(state: &T, max_time: u64, color: bool, search_function: F) -> (r: i64)
    requires
        forall|d: i64| 1 <= d ==> call_requires(search_function, (*state, d, color)),
    ensures
        exists|scores: Seq<i64>|
            {
                &&& (forall|i: int|
                    0 <= i < scores.len() ==> call_ensures(
                        search_function,
                        (*state, (i + 1) as i64, color),
                        #[trigger] scores[i],
                    ))
                &&& r == fold_minmax(scores, color)
            },
        max_time == 0 ==> r == if color {
            min_score()
        } else {
            i64::MAX as int
        },
{
    let mut max_seen: i64 = i64::MIN + 1;
    let mut min_seen: i64 = i64::MAX;
    let ghost mut scores: Seq<i64> = Seq::empty();
    let mut depth: i64 = 1;
    let start = clock_now();
    while depth <= MAX_ID_DEPTH && elapsed_millis(&start) < max_time
        invariant
            1 <= depth <= MAX_ID_DEPTH + 1,
            scores.len() == depth - 1,
            forall|i: int|
                0 <= i < scores.len() ==> call_ensures(
                    search_function,
                    (*state, (i + 1) as i64, color),
                    #[trigger] scores[i],
                ),
            max_seen == fold_minmax(scores, true),
            min_seen == fold_minmax(scores, false),
            max_time == 0 ==> scores.len() == 0,
            forall|d: i64| 1 <= d ==> call_requires(search_function, (*state, d, color)),
        decreases MAX_ID_DEPTH + 1 - depth,
    {
        let score = search_function(*state, depth, color);
        proof {
            let prev = scores;
            scores = scores.push(score);
            assert(scores.drop_last() =~= prev);
            assert(scores.last() == score);
        }
        if score > max_seen {
            max_seen = score;
        }
        if score < min_seen {
            min_seen = score;
        }
        depth += 1;
    }
    if color {
        max_seen
    } else {
        min_seen
    }
}

/// Depth-bounded iterative deepening driving `nega_with_table` with the full
/// window, so every per-depth result is the exact negamax value of the root.
pub fn iterative_deepening_tt<
    M: SearchMove,
    T: ScoreOfState + TerminalState + ChildStates<M> + StateHash + Copy,
>(state: &T, max_depth: i64, color: bool, table: &mut TranspositionTable<T, M>) -> (r: i64)
    requires
        state.wf(),
        tt_inv_nega(old(table)@),
    ensures
        tt_inv_nega(final(table)@),
        exists|scores: Seq<i64>|
            {
                &&& scores.len() == if max_depth >= 1 {
                    (max_depth - 1) as int
                } else {
                    0
                }
                &&& (forall|i: int|
                    0 <= i < scores.len() ==> #[trigger] scores[i] == nega_val(
                        *state,
                        (i + 1) as nat,
                        color,
                    ))
                &&& r == fold_minmax(scores, color)
            },
{
    let mut max_seen: i64 = i64::MIN + 1;
    let mut min_seen: i64 = i64::MAX;
    let ghost mut scores: Seq<i64> = Seq::empty();
    let mut depth: i64 = 1;
    while depth < max_depth
        invariant
            state.wf(),
            1 <= depth,
            max_depth >= 1 ==> depth <= max_depth,
            max_depth < 1 ==> depth == 1,
            scores.len() == depth - 1,
            forall|i: int|
                0 <= i < scores.len() ==> #[trigger] scores[i] == nega_val(
                    *state,
                    (i + 1) as nat,
                    color,
                ),
            max_seen == fold_minmax(scores, true),
            min_seen == fold_minmax(scores, false),
            tt_inv_nega(table@),
        decreases max_depth - depth,
    {
        let score = nega_with_table(state, depth, color, table, i64::MIN + 1, i64::MAX);
        proof {
            lemma_nega_val_bounded(*state, depth as nat, color);
            lemma_full_window_exact(score, nega_val(*state, depth as nat, color));
            let prev = scores;
            scores = scores.push(score);
            assert(scores.drop_last() =~= prev);
            assert(scores.last() == score);
        }
        if score > max_seen {
            max_seen = score;
        }
        if score < min_seen {
            min_seen = score;
        }
        depth += 1;
    }
    if color {
        max_seen
    } else {
        min_seen
    }
}

/// Time-bounded iterative deepening driving `nega_with_table` with the full
/// window: the result folds the exact negamax values of the root for the
/// depths that fit into the time budget. A zero budget runs no iteration.
pub fn iterative_deepening_t_tt<
    M: SearchMove,
    T: ScoreOfState + TerminalState + ChildStates<M> + StateHash + Copy,
>(state: &T, color: bool, max_time: u64, table: &mut TranspositionTable<T, M>) -> (r: i64)
    requires
        state.wf(),
        tt_inv_nega(old(table)@),
    ensures
        tt_inv_nega(final(table)@),
        exists|scores: Seq<i64>|
            {
                &&& (forall|i: int|
                    0 <= i < scores.len() ==> #[trigger] scores[i] == nega_val(
                        *state,
                        (i + 1) as nat,
                        color,
                    ))
                &&& r == fold_minmax(scores, color)
            },
        max_time == 0 ==> r == if color {
            min_score()
        } else {
            i64::MAX as int
        },
{
    let mut max_seen: i64 = i64::MIN + 1;
    let mut min_seen: i64 = i64::MAX;
    let ghost mut scores: Seq<i64> = Seq::empty();
    let mut depth: i64 = 1;
    let start = clock_now();
    while depth <= MAX_ID_DEPTH && elapsed_millis(&start) < max_time
        invariant
            state.wf(),
            1 <= depth <= MAX_ID_DEPTH + 1,
            scores.len() == depth - 1,
            forall|i: int|
                0 <= i < scores.len() ==> #[trigger] scores[i] == nega_val(
                    *state,
                    (i + 1) as nat,
                    color,
                ),
            max_seen == fold_minmax(scores, true),
            min_seen == fold_minmax(scores, false),
            max_time == 0 ==> scores.len() == 0,
            tt_inv_nega(table@),
        decreases MAX_ID_DEPTH + 1 - depth,
    {
        let score = nega_with_table(state, depth, color, table, i64::MIN + 1, i64::MAX);
        proof {
            lemma_nega_val_bounded(*state, depth as nat, color);
            lemma_full_window_exact(score, nega_val(*state, depth as nat, color));
            let prev = scores;
            scores = scores.push(score);
            assert(scores.drop_last() =~= prev);
            assert(scores.last() == score);
        }
        if score > max_seen {
            max_seen = score;
        }
        if score < min_seen {
            min_seen = score;
        }
        depth += 1;
    }
    if color {
        max_seen
    } else {
        min_seen
    }
}

} // verus!
