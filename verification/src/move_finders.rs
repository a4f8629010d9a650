use vstd::prelude::*;

use crate::base::nega_with_table;
use crate::clock::{clock_now, elapsed_millis};
use crate::game_value::{lemma_full_window_exact, lemma_nega_val_bounded, nega_val};
use crate::iterative_deepening::{fold_minmax, iterative_deepening_t_tt, MAX_ID_DEPTH};
use crate::min_score;
use crate::traits::{ChildStates, ScoreOfState, SearchMove, StateHash, TerminalState};
use crate::transposition_table::{tt_inv_nega, TranspositionTable};

verus! {

/// The running best score after the first `n` of `scores`, under MAX or MIN
/// semantics: only a strict improvement on the running best counts.
pub open spec fn best_score_prefix(scores: Seq<i64>, color: bool, n: int) -> int
    decreases n,
{
    if n <= 0 {
        if color {
            min_score()
        } else {
            i64::MAX as int
        }
    } else {
        let prev = best_score_prefix(scores, color, n - 1);
        if color && scores[n - 1] > prev || !color && scores[n - 1] < prev {
            scores[n - 1] as int
        } else {
            prev
        }
    }
}

/// The index holding the running best after the first `n` of `scores`,
/// starting from index zero.
pub open spec fn best_index_prefix(scores: Seq<i64>, color: bool, n: int) -> int
    decreases n,
{
    if n <= 1 {
        0
    } else {
        let prev = best_score_prefix(scores, color, n - 1);
        if color && scores[n - 1] > prev || !color && scores[n - 1] < prev {
            n - 1
        } else {
            best_index_prefix(scores, color, n - 1)
        }
    }
}

/// The selected index always points into the scored prefix.
pub proof fn lemma_best_index_range(scores: Seq<i64>, color: bool, n: int)
    requires
        n >= 1,
    ensures
        0 <= best_index_prefix(scores, color, n) < n,
    decreases n,
{
    if n > 1 {
        lemma_best_index_range(scores, color, n - 1);
    }
}

proof fn lemma_best_prefix_push(scores: Seq<i64>, x: i64, color: bool, n: int)
    requires
        0 <= n <= scores.len(),
    ensures
        best_score_prefix(scores.push(x), color, n) == best_score_prefix(scores, color, n),
        best_index_prefix(scores.push(x), color, n) == best_index_prefix(scores, color, n),
    decreases n,
{
    if n > 0 {
        lemma_best_prefix_push(scores, x, color, n - 1);
        assert(scores.push(x)[n - 1] == scores[n - 1]);
    }
}

/// Picks the move whose child evaluates best for `color` under the supplied
/// searcher, called once per child at the flipped side. A single legal move
/// is returned at once, without consulting the searcher.
pub fn find_best_move<
    M: SearchMove,
    T: ScoreOfState + TerminalState + ChildStates<M> + Copy,
    F: Fn(T, i64, bool) -> i64,
>(state: &T, depth: i64, color: bool, search_function: F) -> (r: M)
    requires
        state.wf(),
        state.spec_children(color).len() > 0,
        state.spec_children(color).len() > 1 ==> forall|s: T|
            #[trigger] s.wf() ==> call_requires(search_function, (s, depth, !color)),
    ensures
        state.spec_children(color).len() == 1 ==> r == state.spec_children(color)[0],
        state.spec_children(color).len() > 1 ==> exists|scores: Seq<i64>|
            {
                &&& scores.len() == state.spec_children(color).len()
                &&& (forall|j: int|
                    0 <= j < scores.len() ==> call_ensures(
                        search_function,
                        (state.spec_apply(state.spec_children(color)[j]), depth, !color),
                        #[trigger] scores[j],
                    ))
                &&& r == state.spec_children(color)[best_index_prefix(
                    scores,
                    color,
                    scores.len() as int,
                )]
            },
{
    let moves = state.child_states(color);
    if moves.len() == 1 {
        return moves[0];
    }
    let ghost children = state.spec_children(color);
    let mut best_score: i64 = if color {
        i64::MIN + 1
    } else {
        i64::MAX
    };
    let mut best_move = moves[0];
    let ghost mut scores: Seq<i64> = Seq::empty();
    let mut j: usize = 0;
    while j < moves.len()
        invariant
            state.wf(),
            moves@ == children,
            children == state.spec_children(color),
            children.len() > 1,
            0 <= j <= children.len(),
            scores.len() == j,
            forall|s: T| #[trigger] s.wf() ==> call_requires(search_function, (s, depth, !color)),
            forall|k: int|
                0 <= k < j ==> call_ensures(
                    search_function,
                    (state.spec_apply(children[k]), depth, !color),
                    #[trigger] scores[k],
                ),
            best_score == best_score_prefix(scores, color, j as int),
            best_move == children[best_index_prefix(scores, color, j as int)],
        decreases children.len() - j,
    {
        proof {
            state.lemma_children_valid(color);
            state.lemma_apply_wf(moves@[j as int]);
        }
        let child = state.apply(moves[j]);
        let score = search_function(child, depth, !color);
        proof {
            lemma_best_prefix_push(scores, score, color, j as int);
            scores = scores.push(score);
            assert(scores[j as int] == score);
        }
        if color && score > best_score || !color && score < best_score {
            best_move = moves[j];
            best_score = score;
        }
        j += 1;
    }
    best_move
}

/// Like `find_best_move`, but with a time-budgeted searcher: the budget is
/// split evenly across the children.
pub fn find_best_move_t<
    M: SearchMove,
    T: ScoreOfState + TerminalState + ChildStates<M> + Copy,
    F: Fn(T, u64, bool) -> i64,
>(state: &T, max_time: u64, color: bool, search_function: F) -> (r: M)
    requires
        state.wf(),
        state.spec_children(color).len() > 0,
        state.spec_children(color).len() > 1 ==> forall|s: T|
            #[trigger] s.wf() ==> call_requires(
                search_function,
                (s, max_time / (state.spec_children(color).len() as u64), !color),
            ),
    ensures
        state.spec_children(color).len() == 1 ==> r == state.spec_children(color)[0],
        state.spec_children(color).len() > 1 ==> exists|scores: Seq<i64>|
            {
                &&& scores.len() == state.spec_children(color).len()
                &&& (forall|j: int|
                    0 <= j < scores.len() ==> call_ensures(
                        search_function,
                        (
                            state.spec_apply(state.spec_children(color)[j]),
                            max_time / (state.spec_children(color).len() as u64),
                            !color,
                        ),
                        #[trigger] scores[j],
                    ))
                &&& r == state.spec_children(color)[best_index_prefix(
                    scores,
                    color,
                    scores.len() as int,
                )]
            },
{
    let moves = state.child_states(color);
    if moves.len() == 1 {
        return moves[0];
    }
    let ghost children = state.spec_children(color);
    let mut best_score: i64 = if color {
        i64::MIN + 1
    } else {
        i64::MAX
    };
    let mut best_move = moves[0];
    let total_time = max_time / (moves.len() as u64);
    let ghost mut scores: Seq<i64> = Seq::empty();
    let mut j: usize = 0;
    while j < moves.len()
        invariant
            state.wf(),
            moves@ == children,
            children == state.spec_children(color),
            children.len() > 1,
            0 <= j <= children.len(),
            scores.len() == j,
            total_time == max_time / (children.len() as u64),
            forall|s: T|
                #[trigger] s.wf() ==> call_requires(
                    search_function,
                    (s, max_time / (children.len() as u64), !color),
                ),
            forall|k: int|
                0 <= k < j ==> call_ensures(
                    search_function,
                    (state.spec_apply(children[k]), max_time / (children.len() as u64), !color),
                    #[trigger] scores[k],
                ),
            best_score == best_score_prefix(scores, color, j as int),
            best_move == children[best_index_prefix(scores, color, j as int)],
        decreases children.len() - j,
    {
        proof {
            state.lemma_children_valid(color);
            state.lemma_apply_wf(moves@[j as int]);
        }
        let child = state.apply(moves[j]);
        let score = search_function(child, total_time, !color);
        proof {
            lemma_best_prefix_push(scores, score, color, j as int);
            scores = scores.push(score);
            assert(scores[j as int] == score);
        }
        if color && score > best_score || !color && score < best_score {
            best_move = moves[j];
            best_score = score;
        }
        j += 1;
    }
    best_move
}

/// Picks the move whose child has the best full-window `nega_with_table`
/// value at `depth`, seen from `color`'s side. A single legal move is
/// returned at once, without searching.
pub fn find_best_move_tt<
    M: SearchMove,
    T: ScoreOfState + TerminalState + ChildStates<M> + StateHash + Copy,
>(state: &T, depth: i64, color: bool, table: &mut TranspositionTable<T, M>) -> (r: M)
    requires
        state.wf(),
        depth >= 0,
        state.spec_children(color).len() > 0,
        tt_inv_nega(old(table)@),
    ensures
        tt_inv_nega(final(table)@),
        state.spec_children(color).len() == 1 ==> r == state.spec_children(color)[0],
        state.spec_children(color).len() > 1 ==> exists|scores: Seq<i64>|
            {
                &&& scores.len() == state.spec_children(color).len()
                &&& (forall|j: int|
                    0 <= j < scores.len() ==> #[trigger] scores[j] == -nega_val(
                        state.spec_apply(state.spec_children(color)[j]),
                        depth as nat,
                        !color,
                    ))
                &&& r == state.spec_children(color)[best_index_prefix(
                    scores,
                    color,
                    scores.len() as int,
                )]
            },
{
    let moves = state.child_states(color);
    if moves.len() == 1 {
        return moves[0];
    }
    let ghost children = state.spec_children(color);
    let mut best_score: i64 = if color {
        i64::MIN + 1
    } else {
        i64::MAX
    };
    let mut best_move = moves[0];
    let ghost mut scores: Seq<i64> = Seq::empty();
    let mut j: usize = 0;
    while j < moves.len()
        invariant
            state.wf(),
            depth >= 0,
            moves@ == children,
            children == state.spec_children(color),
            children.len() > 1,
            0 <= j <= children.len(),
            scores.len() == j,
            tt_inv_nega(table@),
            forall|k: int|
                0 <= k < j ==> #[trigger] scores[k] == -nega_val(
                    state.spec_apply(children[k]),
                    depth as nat,
                    !color,
                ),
            best_score == best_score_prefix(scores, color, j as int),
            best_move == children[best_index_prefix(scores, color, j as int)],
        decreases children.len() - j,
    {
        proof {
            state.lemma_children_valid(color);
            state.lemma_apply_wf(moves@[j as int]);
        }
        let child = state.apply(moves[j]);
        let value = nega_with_table(&child, depth, !color, table, i64::MIN + 1, i64::MAX);
        proof {
            lemma_nega_val_bounded(child, depth as nat, !color);
            lemma_full_window_exact(value, nega_val(child, depth as nat, !color));
        }
        let score = -value;
        proof {
            lemma_best_prefix_push(scores, score, color, j as int);
            scores = scores.push(score);
            assert(scores[j as int] == score);
        }
        if color && score > best_score || !color && score < best_score {
            best_move = moves[j];
            best_score = score;
        }
        j += 1;
    }
    best_move
}

/// A value the time-bounded table-backed driver can report for `s` with
/// `color` to move: the fold of the exact full-window values of the depths
/// it completed.
pub open spec fn idtt_outcome<M: SearchMove, T: ScoreOfState + TerminalState + ChildStates<M>>(
    s: T,
    color: bool,
    v: i64,
) -> bool {
    exists|ds: Seq<i64>|
        (forall|i: int| 0 <= i < ds.len() ==> #[trigger] ds[i] == nega_val(s, (i + 1) as nat, color))
            && v == fold_minmax(ds, color)
}

/// Like `find_best_move_t`, with `iterative_deepening_t_tt` as the searcher:
/// each child gets an even share of the time budget.
pub fn find_best_move_t_tt<
    M: SearchMove,
    T: ScoreOfState + TerminalState + ChildStates<M> + StateHash + Copy,
>(state: &T, max_time: u64, color: bool, table: &mut TranspositionTable<T, M>) -> (r: M)
    requires
        state.wf(),
        state.spec_children(color).len() > 0,
        tt_inv_nega(old(table)@),
    ensures
        tt_inv_nega(final(table)@),
        state.spec_children(color).len() == 1 ==> r == state.spec_children(color)[0],
        state.spec_children(color).len() > 1 ==> exists|scores: Seq<i64>|
            {
                &&& scores.len() == state.spec_children(color).len()
                &&& (forall|j: int|
                    0 <= j < scores.len() ==> idtt_outcome(
                        state.spec_apply(state.spec_children(color)[j]),
                        !color,
                        #[trigger] scores[j],
                    ))
                &&& r == state.spec_children(color)[best_index_prefix(
                    scores,
                    color,
                    scores.len() as int,
                )]
            },
{
    let moves = state.child_states(color);
    if moves.len() == 1 {
        return moves[0];
    }
    let ghost children = state.spec_children(color);
    let mut best_score: i64 = if color {
        i64::MIN + 1
    } else {
        i64::MAX
    };
    let mut best_move = moves[0];
    let total_time = max_time / (moves.len() as u64);
    let ghost mut scores: Seq<i64> = Seq::empty();
    let mut j: usize = 0;
    while j < moves.len()
        invariant
            state.wf(),
            moves@ == children,
            children == state.spec_children(color),
            children.len() > 1,
            0 <= j <= children.len(),
            scores.len() == j,
            tt_inv_nega(table@),
            forall|k: int|
                0 <= k < j ==> idtt_outcome(
                    state.spec_apply(children[k]),
                    !color,
                    #[trigger] scores[k],
                ),
            best_score == best_score_prefix(scores, color, j as int),
            best_move == children[best_index_prefix(scores, color, j as int)],
        decreases children.len() - j,
    {
        proof {
            state.lemma_children_valid(color);
            state.lemma_apply_wf(moves@[j as int]);
        }
        let child = state.apply(moves[j]);
        let score = iterative_deepening_t_tt(&child, !color, total_time, table);
        proof {
            lemma_best_prefix_push(scores, score, color, j as int);
            scores = scores.push(score);
            assert(scores[j as int] == score);
        }
        if color && score > best_score || !color && score < best_score {
            best_move = moves[j];
            best_score = score;
        }
        j += 1;
    }
    best_move
}

/// The running best score of the incremental deepening selector after `k`
/// full passes over the children and `l` further children of pass `k + 1`,
/// each child scored by its exact full-window value at the pass's depth.
pub open spec fn idsel_score<M: SearchMove, T: ScoreOfState + TerminalState + ChildStates<M>>(
    state: T,
    color: bool,
    k: nat,
    l: int,
) -> int
    decreases k, l + 1,
{
    let children = state.spec_children(color);
    if l <= 0 {
        if k == 0 {
            if color {
                min_score()
            } else {
                i64::MAX as int
            }
        } else {
            idsel_score(state, color, (k - 1) as nat, children.len() as int)
        }
    } else {
        let prev = idsel_score(state, color, k, l - 1);
        let sc = -nega_val(state.spec_apply(children[l - 1]), (k + 1) as nat, !color);
        if color && sc > prev || !color && sc < prev {
            sc
        } else {
            prev
        }
    }
}

/// The index of the move holding the running best of `idsel_score`.
pub open spec fn idsel_index<M: SearchMove, T: ScoreOfState + TerminalState + ChildStates<M>>(
    state: T,
    color: bool,
    k: nat,
    l: int,
) -> int
    decreases k, l + 1,
{
    let children = state.spec_children(color);
    if l <= 0 {
        if k == 0 {
            0
        } else {
            idsel_index(state, color, (k - 1) as nat, children.len() as int)
        }
    } else {
        let prev = idsel_score(state, color, k, l - 1);
        let sc = -nega_val(state.spec_apply(children[l - 1]), (k + 1) as nat, !color);
        if color && sc > prev || !color && sc < prev {
            l - 1
        } else {
            idsel_index(state, color, k, l - 1)
        }
    }
}

/// Iterative-deepening selector over `nega_with_table`: passes of increasing
/// depth score every child with the full window and keep the incrementally
/// best move, so a timeout part way through a pass still yields the best
/// move found so far. A single legal move is returned at once.
pub fn find_best_move_t_tt_id<
    M: SearchMove,
    T: ScoreOfState + TerminalState + ChildStates<M> + StateHash + Copy,
>(state: &T, max_time: u64, color: bool, table: &mut TranspositionTable<T, M>) -> (r: M)
    requires
        state.wf(),
        state.spec_children(color).len() > 0,
        tt_inv_nega(old(table)@),
    ensures
        tt_inv_nega(final(table)@),
        state.spec_children(color).len() == 1 ==> r == state.spec_children(color)[0],
        state.spec_children(color).len() > 1 ==> exists|k: nat, l: int|
            0 <= l <= state.spec_children(color).len() && r == state.spec_children(color)[
                idsel_index(*state, color, k, l)
            ],
        max_time == 0 ==> r == state.spec_children(color)[0],
{
    let moves = state.child_states(color);
    if moves.len() == 1 {
        return moves[0];
    }
    let ghost children = state.spec_children(color);
    let mut best_score: i64 = if color {
        i64::MIN + 1
    } else {
        i64::MAX
    };
    let mut best_move = moves[0];
    let mut depth: i64 = 1;
    let start = clock_now();
    while depth <= MAX_ID_DEPTH && elapsed_millis(&start) < max_time
        invariant
            state.wf(),
            moves@ == children,
            children == state.spec_children(color),
            children.len() > 1,
            1 <= depth <= MAX_ID_DEPTH + 1,
            tt_inv_nega(table@),
            best_score == idsel_score(*state, color, (depth - 1) as nat, 0),
            best_move == children[idsel_index(*state, color, (depth - 1) as nat, 0)],
            max_time == 0 ==> depth == 1,
        decreases MAX_ID_DEPTH + 1 - depth,
    {
        let mut j: usize = 0;
        while j < moves.len()
            invariant
                state.wf(),
                moves@ == children,
                children == state.spec_children(color),
                children.len() > 1,
                1 <= depth <= MAX_ID_DEPTH,
                max_time > 0,
                0 <= j <= children.len(),
                tt_inv_nega(table@),
                best_score == idsel_score(*state, color, (depth - 1) as nat, j as int),
                best_move == children[idsel_index(*state, color, (depth - 1) as nat, j as int)],
            decreases children.len() - j,
        {
            if elapsed_millis(&start) >= max_time {
                proof {
                    assert(best_move == children[idsel_index(
                        *state,
                        color,
                        (depth - 1) as nat,
                        j as int,
                    )]);
                }
                return best_move;
            }
            proof {
                state.lemma_children_valid(color);
                state.lemma_apply_wf(moves@[j as int]);
            }
            let child = state.apply(moves[j]);
            let value = nega_with_table(&child, depth, !color, table, i64::MIN + 1, i64::MAX);
            proof {
                lemma_nega_val_bounded(child, depth as nat, !color);
                lemma_full_window_exact(value, nega_val(child, depth as nat, !color));
            }
            let score = -value;
            if color && score > best_score || !color && score < best_score {
                best_move = moves[j];
                best_score = score;
            }
            j += 1;
        }
        proof {
            assert(idsel_score(*state, color, depth as nat, 0) == idsel_score(
                *state,
                color,
                (depth - 1) as nat,
                children.len() as int,
            ));
            assert(idsel_index(*state, color, depth as nat, 0) == idsel_index(
                *state,
                color,
                (depth - 1) as nat,
                children.len() as int,
            ));
        }
        depth += 1;
    }
    best_move
}

/// The live agent: the incremental iterative-deepening selector under a
/// millisecond budget.
pub fn computer_agent<
    M: SearchMove,
    T: ScoreOfState + TerminalState + ChildStates<M> + StateHash + Copy,
>(current_move: &T, set_time: u64, color: bool, table: &mut TranspositionTable<T, M>) -> (r: M)
    requires
        current_move.wf(),
        current_move.spec_children(color).len() > 0,
        tt_inv_nega(old(table)@),
    ensures
        tt_inv_nega(final(table)@),
        current_move.spec_children(color).len() == 1 ==> r == current_move.spec_children(color)[0],
        current_move.spec_children(color).len() > 1 ==> exists|k: nat, l: int|
            0 <= l <= current_move.spec_children(color).len() && r == current_move.spec_children(
                color,
            )[idsel_index(*current_move, color, k, l)],
{
    find_best_move_t_tt_id(current_move, set_time, color, table)
}

#[verifier::external_type_specification]
#[verifier::external_body]
pub struct ExStdRng(rand::rngs::StdRng);

/// Relies on rand's `Rng::gen_range` over `0..n`: the result is below `n`.
/// Which value comes back depends on the generator's state, so nothing more
/// is assumed.
#[verifier::external_body]
fn gen_index(rng: &mut rand::rngs::StdRng, n: usize) -> (r: usize)
    requires
        n > 0,
    ensures
        r < n,
{
    rand::Rng::gen_range(rng, 0..n)
}

/// Plays some legal move, drawn from the supplied generator.
pub fn random_agent<M: SearchMove, T: ScoreOfState + TerminalState + ChildStates<M> + Copy>(
    current_move: T,
    color: bool,
    seed: &mut rand::rngs::StdRng,
) -> (r: M)
    requires
        current_move.wf(),
        current_move.spec_children(color).len() > 0,
    ensures
        exists|i: int|
            0 <= i < current_move.spec_children(color).len() && r
                == current_move.spec_children(color)[i],
{
    let children = current_move.child_states(color);
    let i = gen_index(seed, children.len());
    children[i]
}

} // verus!
