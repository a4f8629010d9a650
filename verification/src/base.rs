use vstd::prelude::*;

use crate::game_value::{
    all_valid, fold_max, fold_min, fold_nega, int_max, int_min, lemma_fold_max_elem_le,
    lemma_fold_max_take_succ, lemma_fold_min_elem_ge, lemma_fold_min_take_succ,
    lemma_fold_nega_elem_le, lemma_fold_nega_hoist, lemma_fold_nega_take_succ,
    lemma_hoist_all_valid, lemma_minimax_val_bounded, lemma_nega_val_bounded, minimax_val, nega_val,
};
use crate::game_value::{lemma_fold_max_hoist, lemma_fold_min_hoist};
use crate::min_score;
use crate::traits::{ChildStates, ScoreOfState, SearchMove, StateHash, TerminalState};
use crate::transposition_table::{
    entry_sound_minimax, entry_sound_nega, tt_inv_minimax, tt_inv_nega, tt_probe_decides,
    TableEntry, TranspositionStateType, TranspositionTable,
};

verus! {

/// Plain negamax with alpha-beta pruning, fail-soft: the result is exact
/// inside the window, an upper bound on the true value when it fails low and
/// a lower bound when it fails high.
pub fn nega<M: SearchMove, T: ScoreOfState + TerminalState + ChildStates<M> + Copy>(
    state: &T,
    depth: i64,
    color: bool,
    alpha: i64,
    beta: i64,
) -> (r: i64)
    requires
        state.wf(),
        depth >= 0,
        i64::MIN < alpha < beta,
    ensures
        min_score() <= r <= i64::MAX,
        depth == 0 || state.spec_terminal() ==> r == if color {
            state.spec_score()
        } else {
            -state.spec_score()
        },
        alpha < r < beta ==> r == nega_val(*state, depth as nat, color),
        r <= alpha ==> nega_val(*state, depth as nat, color) <= r,
        r >= beta ==> nega_val(*state, depth as nat, color) >= r,
    decreases depth,
{
    if depth == 0 || state.is_terminal() {
        proof {
            state.lemma_score_bounded();
        }
        let s = state.score_of();
        return if color {
            s
        } else {
            -s
        };
    }
    let moves = state.child_states(color);
    let ghost children = state.spec_children(color);
    let ghost d = depth as nat;
    let mut score: i64 = i64::MIN + 1;
    let mut a = alpha;
    let mut i: usize = 0;
    proof {
        assert(children.take(0) =~= Seq::<M>::empty());
    }
    while i < moves.len()
        invariant
            state.wf(),
            !state.spec_terminal(),
            depth >= 1,
            d == depth as nat,
            moves@ == children,
            children == state.spec_children(color),
            0 <= i <= moves.len(),
            i64::MIN < alpha < beta,
            min_score() <= score <= i64::MAX,
            score < beta,
            a == if score > alpha {
                score
            } else {
                alpha
            },
            score <= int_max(fold_nega(*state, children.take(i as int), d, color), alpha as int),
            score >= int_min(fold_nega(*state, children.take(i as int), d, color), beta as int),
        decreases moves.len() - i,
    {
        let m = moves[i];
        proof {
            state.lemma_children_valid(color);
            state.lemma_apply_wf(m);
        }
        let child = state.apply(m);
        let v_neg = nega(&child, depth - 1, !color, -beta, -a);
        let v = -v_neg;
        proof {
            let tv = nega_val(child, (depth - 1) as nat, !color);
            lemma_nega_val_bounded(child, (depth - 1) as nat, !color);
            lemma_fold_nega_take_succ(*state, children, i as int, d, color);
            assert(a < v < beta ==> v == -tv);
            assert(v >= beta ==> -tv >= v);
            assert(v <= a ==> -tv <= v);
        }
        if v > score {
            score = v;
        }
        if score > a {
            a = score;
        }
        if a >= beta {
            proof {
                lemma_fold_nega_elem_le(*state, children, i as int, d, color);
            }
            return a;
        }
        i += 1;
    }
    proof {
        assert(children.take(moves.len() as int) =~= children);
    }
    score
}

/// Explicit alpha-beta with separate branches for the maximizing and the
/// minimizing side, over the unflipped score. Fail-soft in the same sense as
/// `nega`, against the minimax value.
pub fn alpha_beta<M: SearchMove, T: ScoreOfState + TerminalState + ChildStates<M> + Copy>(
    state: &T,
    depth: i64,
    color: bool,
    alpha: i64,
    beta: i64,
) -> (r: i64)
    requires
        state.wf(),
        depth >= 0,
        i64::MIN < alpha < beta,
    ensures
        min_score() <= r <= i64::MAX,
        depth == 0 || state.spec_terminal() ==> r == state.spec_score(),
        alpha < r < beta ==> r == minimax_val(*state, depth as nat, color),
        r <= alpha ==> minimax_val(*state, depth as nat, color) <= r,
        r >= beta ==> minimax_val(*state, depth as nat, color) >= r,
    decreases depth,
{
    if depth == 0 || state.is_terminal() {
        proof {
            state.lemma_score_bounded();
        }
        return state.score_of();
    }
    let moves = state.child_states(color);
    let ghost children = state.spec_children(color);
    let ghost d = depth as nat;
    let mut i: usize = 0;
    proof {
        assert(children.take(0) =~= Seq::<M>::empty());
    }
    if color {
        let mut score: i64 = i64::MIN + 1;
        let mut a = alpha;
        while i < moves.len()
            invariant
                state.wf(),
                !state.spec_terminal(),
                depth >= 1,
                color,
                d == depth as nat,
                moves@ == children,
                children == state.spec_children(true),
                0 <= i <= moves.len(),
                i64::MIN < alpha < beta,
                min_score() <= score <= i64::MAX,
                score < beta,
                a == if score > alpha {
                    score
                } else {
                    alpha
                },
                score <= int_max(fold_max(*state, children.take(i as int), d), alpha as int),
                score >= int_min(fold_max(*state, children.take(i as int), d), beta as int),
            decreases moves.len() - i,
        {
            let m = moves[i];
            proof {
                state.lemma_children_valid(true);
                state.lemma_apply_wf(m);
            }
            let child = state.apply(m);
            let v = alpha_beta(&child, depth - 1, false, a, beta);
            proof {
                let tv = minimax_val(child, (depth - 1) as nat, false);
                lemma_minimax_val_bounded(child, (depth - 1) as nat, false);
                lemma_fold_max_take_succ(*state, children, i as int, d);
                assert(a < v < beta ==> v == tv);
                assert(v >= beta ==> tv >= v);
                assert(v <= a ==> tv <= v);
            }
            if v > score {
                score = v;
            }
            if score > a {
                a = score;
            }
            if score >= beta {
                proof {
                    lemma_fold_max_elem_le(*state, children, i as int, d);
                }
                return score;
            }
            i += 1;
        }
        proof {
            assert(children.take(moves.len() as int) =~= children);
        }
        score
    } else {
        let mut score: i64 = i64::MAX;
        let mut b = beta;
        while i < moves.len()
            invariant
                state.wf(),
                !state.spec_terminal(),
                depth >= 1,
                !color,
                d == depth as nat,
                moves@ == children,
                children == state.spec_children(false),
                0 <= i <= moves.len(),
                i64::MIN < alpha < beta,
                min_score() <= score <= i64::MAX,
                score > alpha,
                b == if score < beta {
                    score
                } else {
                    beta
                },
                score >= int_min(fold_min(*state, children.take(i as int), d), beta as int),
                score <= int_max(fold_min(*state, children.take(i as int), d), alpha as int),
            decreases moves.len() - i,
        {
            let m = moves[i];
            proof {
                state.lemma_children_valid(false);
                state.lemma_apply_wf(m);
            }
            let child = state.apply(m);
            let v = alpha_beta(&child, depth - 1, true, alpha, b);
            proof {
                let tv = minimax_val(child, (depth - 1) as nat, true);
                lemma_minimax_val_bounded(child, (depth - 1) as nat, true);
                lemma_fold_min_take_succ(*state, children, i as int, d);
                assert(alpha < v < b ==> v == tv);
                assert(v >= b ==> tv >= v);
                assert(v <= alpha ==> tv <= v);
            }
            if v < score {
                score = v;
            }
            if score < b {
                b = score;
            }
            if score <= alpha {
                proof {
                    lemma_fold_min_elem_ge(*state, children, i as int, d);
                }
                return score;
            }
            i += 1;
        }
        proof {
            assert(children.take(moves.len() as int) =~= children);
        }
        score
    }
}

/// Alpha-beta over a numeric side indicator: `1` is the maximizing side, `0`
/// the minimizing side. The branch bodies live in the two part functions.
pub fn alpha_beta_bitwise<M: SearchMove, T: ScoreOfState + TerminalState + ChildStates<M> + Copy>(
    state: &T,
    depth: i64,
    color: usize,
    alpha: i64,
    beta: i64,
) -> (r: i64)
    requires
        state.wf(),
        depth >= 0,
        color < 2,
        i64::MIN < alpha < beta,
    ensures
        min_score() <= r <= i64::MAX,
        depth == 0 || state.spec_terminal() ==> r == state.spec_score(),
        alpha < r < beta ==> r == minimax_val(*state, depth as nat, color == 1),
        r <= alpha ==> minimax_val(*state, depth as nat, color == 1) <= r,
        r >= beta ==> minimax_val(*state, depth as nat, color == 1) >= r,
    decreases depth, 1int,
{
    if depth == 0 || state.is_terminal() {
        proof {
            state.lemma_score_bounded();
        }
        return state.score_of();
    }
    let moves = state.child_states(color == 1);
    let mut value: i64 = 0;
    let mut a = alpha;
    let mut b = beta;
    if color == 1 {
        ab_bitwise_max_part(&mut value, &moves, *state, depth, 0, &mut a, &mut b);
    } else {
        ab_bitwise_min_part(&mut value, &moves, *state, depth, 1, &mut a, &mut b);
    }
    value
}

/// Minimizing half of `alpha_beta_bitwise`; `color` is the side that moves in
/// the child states.
fn ab_bitwise_min_part<M: SearchMove, T: ScoreOfState + TerminalState + ChildStates<M> + Copy>(
    value: &mut i64,
    moves: &Vec<M>,
    state: T,
    depth: i64,
    color: usize,
    alpha: &mut i64,
    beta: &mut i64,
) -> (nothing: ())
    requires
        state.wf(),
        !state.spec_terminal(),
        depth >= 1,
        color == 1,
        moves@ == state.spec_children(false),
        i64::MIN < *old(alpha) < *old(beta),
    ensures
        min_score() <= *final(value) <= i64::MAX,
        *old(alpha) < *final(value) < *old(beta) ==> *final(value) == minimax_val(
            state,
            depth as nat,
            false,
        ),
        *final(value) <= *old(alpha) ==> minimax_val(state, depth as nat, false) <= *final(value),
        *final(value) >= *old(beta) ==> minimax_val(state, depth as nat, false) >= *final(value),
    decreases depth, 0int,
{
    let alpha0 = *alpha;
    let beta0 = *beta;
    let ghost children = state.spec_children(false);
    let ghost d = depth as nat;
    *value = i64::MAX;
    let mut b = beta0;
    let mut i: usize = 0;
    proof {
        assert(children.take(0) =~= Seq::<M>::empty());
    }
    while i < moves.len()
        invariant
            state.wf(),
            !state.spec_terminal(),
            depth >= 1,
            color == 1,
            d == depth as nat,
            moves@ == children,
            children == state.spec_children(false),
            0 <= i <= moves.len(),
            alpha0 == *old(alpha),
            beta0 == *old(beta),
            i64::MIN < alpha0 < beta0,
            min_score() <= *value <= i64::MAX,
            *value > alpha0,
            b == if *value < beta0 {
                *value
            } else {
                beta0
            },
            *value >= int_min(fold_min(state, children.take(i as int), d), beta0 as int),
            *value <= int_max(fold_min(state, children.take(i as int), d), alpha0 as int),
        decreases moves.len() - i,
    {
        let m = moves[i];
        proof {
            state.lemma_children_valid(false);
            state.lemma_apply_wf(m);
        }
        let child = state.apply(m);
        let v = alpha_beta_bitwise(&child, depth - 1, color, alpha0, b);
        proof {
            let tv = minimax_val(child, (depth - 1) as nat, true);
            lemma_minimax_val_bounded(child, (depth - 1) as nat, true);
            lemma_fold_min_take_succ(state, children, i as int, d);
            assert(alpha0 < v < b ==> v == tv);
            assert(v >= b ==> tv >= v);
            assert(v <= alpha0 ==> tv <= v);
        }
        if v < *value {
            *value = v;
        }
        if *value < b {
            b = *value;
        }
        if *value <= alpha0 {
            proof {
                lemma_fold_min_elem_ge(state, children, i as int, d);
            }
            *beta = b;
            return ;
        }
        i += 1;
    }
    proof {
        assert(children.take(moves.len() as int) =~= children);
    }
    *beta = b;
}

/// Maximizing half of `alpha_beta_bitwise`; `color` is the side that moves in
/// the child states.
fn ab_bitwise_max_part<M: SearchMove, T: ScoreOfState + TerminalState + ChildStates<M> + Copy>(
    value: &mut i64,
    moves: &Vec<M>,
    state: T,
    depth: i64,
    color: usize,
    alpha: &mut i64,
    beta: &mut i64,
) -> (nothing: ())
    requires
        state.wf(),
        !state.spec_terminal(),
        depth >= 1,
        color == 0,
        moves@ == state.spec_children(true),
        i64::MIN < *old(alpha) < *old(beta),
    ensures
        min_score() <= *final(value) <= i64::MAX,
        *old(alpha) < *final(value) < *old(beta) ==> *final(value) == minimax_val(
            state,
            depth as nat,
            true,
        ),
        *final(value) <= *old(alpha) ==> minimax_val(state, depth as nat, true) <= *final(value),
        *final(value) >= *old(beta) ==> minimax_val(state, depth as nat, true) >= *final(value),
    decreases depth, 0int,
{
    let alpha0 = *alpha;
    let beta0 = *beta;
    let ghost children = state.spec_children(true);
    let ghost d = depth as nat;
    *value = i64::MIN + 1;
    let mut a = alpha0;
    let mut i: usize = 0;
    proof {
        assert(children.take(0) =~= Seq::<M>::empty());
    }
    while i < moves.len()
        invariant
            state.wf(),
            !state.spec_terminal(),
            depth >= 1,
            color == 0,
            d == depth as nat,
            moves@ == children,
            children == state.spec_children(true),
            0 <= i <= moves.len(),
            alpha0 == *old(alpha),
            beta0 == *old(beta),
            i64::MIN < alpha0 < beta0,
            min_score() <= *value <= i64::MAX,
            *value < beta0,
            a == if *value > alpha0 {
                *value
            } else {
                alpha0
            },
            *value <= int_max(fold_max(state, children.take(i as int), d), alpha0 as int),
            *value >= int_min(fold_max(state, children.take(i as int), d), beta0 as int),
        decreases moves.len() - i,
    {
        let m = moves[i];
        proof {
            state.lemma_children_valid(true);
            state.lemma_apply_wf(m);
        }
        let child = state.apply(m);
        let v = alpha_beta_bitwise(&child, depth - 1, color, a, beta0);
        proof {
            let tv = minimax_val(child, (depth - 1) as nat, false);
            lemma_minimax_val_bounded(child, (depth - 1) as nat, false);
            lemma_fold_max_take_succ(state, children, i as int, d);
            assert(a < v < beta0 ==> v == tv);
            assert(v >= beta0 ==> tv >= v);
            assert(v <= a ==> tv <= v);
        }
        if v > *value {
            *value = v;
        }
        if *value > a {
            a = *value;
        }
        if *value >= beta0 {
            proof {
                lemma_fold_max_elem_le(state, children, i as int, d);
            }
            *alpha = a;
            return ;
        }
        i += 1;
    }
    proof {
        assert(children.take(moves.len() as int) =~= children);
    }
    *alpha = a;
}

/// NegaScout, or principal-variation search: the first child is searched with
/// the full window, later children with a null window, re-searching on a
/// genuine fail-high at depths above two. Fail-soft against the negamax
/// value; at depths up to one every result below `beta` is already exact.
pub fn nega_scout<M: SearchMove, T: ScoreOfState + TerminalState + ChildStates<M> + Copy>(
    state: &T,
    depth: i64,
    color: bool,
    alpha: i64,
    beta: i64,
) -> (r: i64)
    requires
        state.wf(),
        depth >= 0,
        i64::MIN < alpha < beta,
    ensures
        min_score() <= r <= i64::MAX,
        depth == 0 || state.spec_terminal() ==> r == if color {
            state.spec_score()
        } else {
            -state.spec_score()
        },
        alpha < r < beta ==> r == nega_val(*state, depth as nat, color),
        r <= alpha ==> nega_val(*state, depth as nat, color) <= r,
        r >= beta ==> nega_val(*state, depth as nat, color) >= r,
        depth <= 1 && r < beta ==> r == nega_val(*state, depth as nat, color),
    decreases depth,
{
    if depth == 0 || state.is_terminal() {
        proof {
            state.lemma_score_bounded();
        }
        let s = state.score_of();
        return if color {
            s
        } else {
            -s
        };
    }
    let moves = state.child_states(color);
    let ghost children = state.spec_children(color);
    let ghost d = depth as nat;
    let mut score: i64 = i64::MIN + 1;
    let mut a = alpha;
    let mut n = beta;
    let mut i: usize = 0;
    proof {
        assert(children.take(0) =~= Seq::<M>::empty());
    }
    while i < moves.len()
        invariant
            state.wf(),
            !state.spec_terminal(),
            depth >= 1,
            d == depth as nat,
            moves@ == children,
            children == state.spec_children(color),
            0 <= i <= moves.len(),
            i64::MIN < alpha < beta,
            min_score() <= score <= i64::MAX,
            score < beta,
            a == if score > alpha {
                score
            } else {
                alpha
            },
            (i == 0 && n == beta) || n == a + 1,
            score <= int_max(fold_nega(*state, children.take(i as int), d, color), alpha as int),
            score >= int_min(fold_nega(*state, children.take(i as int), d, color), beta as int),
            depth == 1 ==> score == fold_nega(*state, children.take(i as int), d, color),
        decreases moves.len() - i,
    {
        let m = moves[i];
        proof {
            state.lemma_children_valid(color);
            state.lemma_apply_wf(m);
        }
        let child = state.apply(m);
        let probe = nega_scout(&child, depth - 1, !color, -n, -a);
        let v = -probe;
        proof {
            let tv = nega_val(child, (depth - 1) as nat, !color);
            lemma_nega_val_bounded(child, (depth - 1) as nat, !color);
            lemma_fold_nega_take_succ(*state, children, i as int, d, color);
            assert(a < v < n ==> v == -tv);
            assert(v >= n ==> -tv >= v);
            assert(v <= a ==> -tv <= v);
            assert(depth - 1 <= 1 && v > a ==> v == -tv);
        }
        if v > score {
            if n == beta || depth <= 2 || v <= a || v >= beta {
                score = v;
            } else {
                let widened = nega_scout(&child, depth - 1, !color, -beta, -v);
                score = -widened;
                proof {
                    let tv = nega_val(child, (depth - 1) as nat, !color);
                    assert(v < score < beta ==> score == -tv);
                    assert(score >= beta ==> -tv >= score);
                    assert(score <= v ==> -tv <= score);
                }
            }
        }
        if score > a {
            a = score;
        }
        if a >= beta {
            proof {
                lemma_fold_nega_elem_le(*state, children, i as int, d, color);
            }
            return a;
        }
        n = a + 1;
        i += 1;
    }
    proof {
        assert(children.take(moves.len() as int) =~= children);
    }
    score
}

/// Negamax with a transposition table, the workhorse searcher. The table is
/// probed before searching and refreshed afterwards; a probed value is used
/// only when it was stored for exactly this state, side and depth — an entry
/// from a deeper search is left alone, since its value need not equal the
/// value at the queried depth, and passing it through would break the
/// agreement with a table-free search. A deciding probe returns the stored
/// value with the table untouched; a leaf reached past the probe returns the
/// static score, from the side to move's perspective, with the table
/// untouched; and the result is fail-soft against the negamax value just as
/// `nega` is, with the table keeping its soundness invariant across the
/// call.
pub fn nega_with_table<
    M: SearchMove,
    T: ScoreOfState + TerminalState + ChildStates<M> + StateHash + Copy,
>(
    state: &T,
    depth: i64,
    color: bool,
    table: &mut TranspositionTable<T, M>,
    alpha: i64,
    beta: i64,
) -> (r: i64)
    requires
        state.wf(),
        depth >= 0,
        i64::MIN < alpha < beta,
        tt_inv_nega(old(table)@),
    ensures
        tt_inv_nega(final(table)@),
        min_score() <= r <= i64::MAX,
        alpha < r < beta ==> r == nega_val(*state, depth as nat, color),
        r <= alpha ==> nega_val(*state, depth as nat, color) <= r,
        r >= beta ==> nega_val(*state, depth as nat, color) >= r,
        tt_probe_decides(old(table)@, state.spec_hash(color), *state, color, depth, alpha, beta)
            ==> r == old(table)@[state.spec_hash(color)].value && final(table)@ == old(table)@,
        !tt_probe_decides(old(table)@, state.spec_hash(color), *state, color, depth, alpha, beta)
            && (depth == 0 || state.spec_terminal()) ==> r == (if color {
            state.spec_score()
        } else {
            -state.spec_score()
        }) && final(table)@ == old(table)@,
    decreases depth,
{
    let ghost d = depth as nat;
    let ghost tval = nega_val(*state, d, color);
    proof {
        lemma_nega_val_bounded(*state, d, color);
    }
    let original_alpha = alpha;
    let mut a = alpha;
    let mut b = beta;
    let h = state.hash(color);
    let probe = table.get(h, state, color);
    let stored_value = probe.0;
    let stored_depth = probe.1;
    let state_type = probe.2;
    let stored_best_move = probe.3;
    if state_type != TranspositionStateType::Unknown && stored_depth == depth {
        proof {
            assert(entry_sound_nega(table@[h]));
        }
        if state_type == TranspositionStateType::Exact {
            return stored_value;
        }
        if state_type == TranspositionStateType::LowerBound {
            if stored_value > a {
                a = stored_value;
            }
        } else {
            if stored_value < b {
                b = stored_value;
            }
        }
        if a >= b {
            return stored_value;
        }
    }
    let ghost a_start = a;
    if depth == 0 || state.is_terminal() {
        proof {
            state.lemma_score_bounded();
        }
        let s = state.score_of();
        return if color {
            s
        } else {
            -s
        };
    }
    let mut ordered = state.child_states(color);
    let ghost children = state.spec_children(color);
    proof {
        state.lemma_children_valid(color);
        assert(all_valid(*state, children));
    }
    if state_type != TranspositionStateType::Unknown {
        let mut k: usize = ordered.len();
        let mut j: usize = 0;
        while j < ordered.len()
            invariant
                0 <= j <= ordered@.len(),
                k == ordered@.len() || k < ordered@.len(),
                ordered@ == children,
            decreases ordered@.len() - j,
        {
            if k == ordered.len() && ordered[j].eq_move(&stored_best_move) {
                k = j;
            }
            j += 1;
        }
        if k < ordered.len() {
            let hoisted_move = ordered.remove(k);
            ordered.insert(0, hoisted_move);
            proof {
                lemma_fold_nega_hoist(*state, children, k as int, d, color);
                lemma_hoist_all_valid(*state, children, k as int);
            }
        }
    }
    let ghost olist = ordered@;
    proof {
        assert(all_valid(*state, olist));
        assert(fold_nega(*state, olist, d, color) == fold_nega(*state, children, d, color));
    }
    let mut value: i64 = i64::MIN + 1;
    let mut best_move = M::sentinel();
    let mut i: usize = 0;
    proof {
        assert(olist.take(0) =~= Seq::<M>::empty());
    }
    while i < ordered.len()
        invariant_except_break
            state.wf(),
            !state.spec_terminal(),
            depth >= 1,
            d == depth as nat,
            olist == ordered@,
            children == state.spec_children(color),
            all_valid(*state, olist),
            fold_nega(*state, olist, d, color) == fold_nega(*state, children, d, color),
            0 <= i <= ordered@.len(),
            i64::MIN < alpha < beta,
            alpha <= a_start,
            a_start < b <= beta,
            a_start > alpha ==> tval >= a_start,
            b < beta ==> tval <= b,
            tval == nega_val(*state, d, color),
            min_score() <= tval <= i64::MAX,
            min_score() <= value <= i64::MAX,
            value < b,
            a == if value > a_start {
                value
            } else {
                a_start
            },
            value <= int_max(fold_nega(*state, olist.take(i as int), d, color), a_start as int),
            value >= int_min(fold_nega(*state, olist.take(i as int), d, color), b as int),
            i == olist.len() ==> fold_nega(*state, olist.take(i as int), d, color) == fold_nega(
                *state,
                olist,
                d,
                color,
            ),
            tt_inv_nega(table@),
        ensures
            tt_inv_nega(table@),
            min_score() <= value <= i64::MAX,
            value >= b ==> tval >= value,
            value <= a_start ==> tval <= value,
            a_start < value < b ==> value == tval,
        decreases ordered@.len() - i,
    {
        let m = ordered[i];
        proof {
            state.lemma_apply_wf(m);
        }
        let child = state.apply(m);
        let v_neg = nega_with_table(&child, depth - 1, !color, table, -b, -a);
        let v = -v_neg;
        proof {
            let tv = nega_val(child, (depth - 1) as nat, !color);
            lemma_nega_val_bounded(child, (depth - 1) as nat, !color);
            lemma_fold_nega_take_succ(*state, olist, i as int, d, color);
            assert(a < v < b ==> v == -tv);
            assert(v >= b ==> -tv >= v);
            assert(v <= a ==> -tv <= v);
        }
        if value < v {
            best_move = m;
        }
        if v > value {
            value = v;
        }
        if value > a {
            a = value;
        }
        if a >= b {
            proof {
                lemma_fold_nega_elem_le(*state, olist, i as int, d, color);
            }
            break ;
        }
        proof {
            if i + 1 == olist.len() {
                assert(olist.take(i as int + 1) =~= olist);
            }
        }
        i += 1;
    }
    let flag: TranspositionStateType;
    if value <= original_alpha {
        flag = TranspositionStateType::UpperBound;
    } else if value >= b {
        flag = TranspositionStateType::LowerBound;
    } else {
        flag = TranspositionStateType::Exact;
    }
    let entry = TableEntry {
        state: *state,
        color,
        value,
        depth,
        state_type: flag,
        best_move,
    };
    let ghost pre_add = table@;
    proof {
        assert(entry_sound_nega(entry));
    }
    table.add(h, entry);
    proof {
        assert forall|k2: i64| table@.dom().contains(k2) implies entry_sound_nega(
            #[trigger] table@[k2],
        ) by {
            if k2 != h {
                assert(table@[k2] == pre_add[k2]);
            }
        }
    }
    value
}

/// Explicit alpha-beta with a transposition table: the probe and store logic
/// of `nega_with_table` around the two-branch search of `alpha_beta`, with
/// values from MAX's perspective throughout. As there, a probed value is
/// used only when it was stored for exactly this state, side and depth; a
/// deciding probe returns the stored value and a leaf reached past the probe
/// returns the static score, both leaving the table untouched.
pub fn alpha_beta_with_table<
    M: SearchMove,
    T: ScoreOfState + TerminalState + ChildStates<M> + StateHash + Copy,
>(
    state: &T,
    depth: i64,
    color: bool,
    table: &mut TranspositionTable<T, M>,
    alpha: i64,
    beta: i64,
) -> (r: i64)
    requires
        state.wf(),
        depth >= 0,
        i64::MIN < alpha < beta,
        tt_inv_minimax(old(table)@),
    ensures
        tt_inv_minimax(final(table)@),
        min_score() <= r <= i64::MAX,
        alpha < r < beta ==> r == minimax_val(*state, depth as nat, color),
        r <= alpha ==> minimax_val(*state, depth as nat, color) <= r,
        r >= beta ==> minimax_val(*state, depth as nat, color) >= r,
        tt_probe_decides(old(table)@, state.spec_hash(color), *state, color, depth, alpha, beta)
            ==> r == old(table)@[state.spec_hash(color)].value && final(table)@ == old(table)@,
        !tt_probe_decides(old(table)@, state.spec_hash(color), *state, color, depth, alpha, beta)
            && (depth == 0 || state.spec_terminal()) ==> r == state.spec_score() && final(table)@
            == old(table)@,
    decreases depth,
{
    let ghost d = depth as nat;
    let ghost mval = minimax_val(*state, d, color);
    proof {
        lemma_minimax_val_bounded(*state, d, color);
    }
    let original_alpha = alpha;
    let mut a = alpha;
    let mut b = beta;
    let h = state.hash(color);
    let probe = table.get(h, state, color);
    let stored_value = probe.0;
    let stored_depth = probe.1;
    let state_type = probe.2;
    let stored_best_move = probe.3;
    if state_type != TranspositionStateType::Unknown && stored_depth == depth {
        proof {
            assert(entry_sound_minimax(table@[h]));
        }
        if state_type == TranspositionStateType::Exact {
            return stored_value;
        }
        if state_type == TranspositionStateType::LowerBound {
            if stored_value > a {
                a = stored_value;
            }
        } else {
            if stored_value < b {
                b = stored_value;
            }
        }
        if a >= b {
            return stored_value;
        }
    }
    let ghost a_start = a;
    let ghost b_start = b;
    proof {
        assert(a_start > alpha ==> mval >= a_start);
        assert(b_start < beta ==> mval <= b_start);
    }
    if depth == 0 || state.is_terminal() {
        proof {
            state.lemma_score_bounded();
        }
        return state.score_of();
    }
    let mut ordered = state.child_states(color);
    let ghost children = state.spec_children(color);
    proof {
        state.lemma_children_valid(color);
        assert(all_valid(*state, children));
    }
    if state_type != TranspositionStateType::Unknown {
        let mut k: usize = ordered.len();
        let mut j: usize = 0;
        while j < ordered.len()
            invariant
                0 <= j <= ordered@.len(),
                k == ordered@.len() || k < ordered@.len(),
                ordered@ == children,
            decreases ordered@.len() - j,
        {
            if k == ordered.len() && ordered[j].eq_move(&stored_best_move) {
                k = j;
            }
            j += 1;
        }
        if k < ordered.len() {
            let hoisted_move = ordered.remove(k);
            ordered.insert(0, hoisted_move);
            proof {
                if color {
                    lemma_fold_max_hoist(*state, children, k as int, d);
                } else {
                    lemma_fold_min_hoist(*state, children, k as int, d);
                }
                lemma_hoist_all_valid(*state, children, k as int);
            }
        }
    }
    let ghost olist = ordered@;
    proof {
        assert(all_valid(*state, olist));
        if color {
            assert(fold_max(*state, olist, d) == fold_max(*state, children, d));
        } else {
            assert(fold_min(*state, olist, d) == fold_min(*state, children, d));
        }
    }
    let mut value: i64;
    let mut best_move = M::sentinel();
    let mut i: usize = 0;
    if color {
        value = i64::MIN + 1;
        proof {
            assert(olist.take(0) =~= Seq::<M>::empty());
        }
        while i < ordered.len()
            invariant_except_break
                state.wf(),
                !state.spec_terminal(),
                depth >= 1,
                color,
                d == depth as nat,
                olist == ordered@,
                children == state.spec_children(true),
                all_valid(*state, olist),
                fold_max(*state, olist, d) == fold_max(*state, children, d),
                0 <= i <= ordered@.len(),
                i64::MIN < alpha < beta,
                alpha <= a_start,
                a_start < b <= beta,
                b == b_start,
                a_start > alpha ==> mval >= a_start,
                b < beta ==> mval <= b,
                mval == minimax_val(*state, d, true),
                min_score() <= mval <= i64::MAX,
                min_score() <= value <= i64::MAX,
                value < b,
                a == if value > a_start {
                    value
                } else {
                    a_start
                },
                value <= int_max(fold_max(*state, olist.take(i as int), d), a_start as int),
                value >= int_min(fold_max(*state, olist.take(i as int), d), b as int),
                i == olist.len() ==> fold_max(*state, olist.take(i as int), d) == fold_max(
                    *state,
                    olist,
                    d,
                ),
                tt_inv_minimax(table@),
            ensures
                tt_inv_minimax(table@),
                b == b_start,
                min_score() <= value <= i64::MAX,
                value >= b ==> mval >= value,
                value <= a_start ==> mval <= value,
                a_start < value < b ==> value == mval,
            decreases ordered@.len() - i,
        {
            let m = ordered[i];
            proof {
                state.lemma_apply_wf(m);
            }
            let child = state.apply(m);
            let v = alpha_beta_with_table(&child, depth - 1, false, table, a, b);
            proof {
                let tv = minimax_val(child, (depth - 1) as nat, false);
                lemma_minimax_val_bounded(child, (depth - 1) as nat, false);
                lemma_fold_max_take_succ(*state, olist, i as int, d);
                assert(a < v < b ==> v == tv);
                assert(v >= b ==> tv >= v);
                assert(v <= a ==> tv <= v);
            }
            if value < v {
                best_move = m;
            }
            if v > value {
                value = v;
            }
            if value > a {
                a = value;
            }
            if value >= b {
                proof {
                    lemma_fold_max_elem_le(*state, olist, i as int, d);
                }
                break ;
            }
            proof {
                if i + 1 == olist.len() {
                    assert(olist.take(i as int + 1) =~= olist);
                }
            }
            i += 1;
        }
    } else {
        value = i64::MAX;
        proof {
            assert(olist.take(0) =~= Seq::<M>::empty());
        }
        while i < ordered.len()
            invariant_except_break
                state.wf(),
                !state.spec_terminal(),
                depth >= 1,
                !color,
                d == depth as nat,
                olist == ordered@,
                children == state.spec_children(false),
                all_valid(*state, olist),
                fold_min(*state, olist, d) == fold_min(*state, children, d),
                0 <= i <= ordered@.len(),
                i64::MIN < alpha < beta,
                alpha <= a_start,
                a_start < b_start <= beta,
                a == a_start,
                a_start > alpha ==> mval >= a_start,
                b_start < beta ==> mval <= b_start,
                mval == minimax_val(*state, d, false),
                min_score() <= mval <= i64::MAX,
                min_score() <= value <= i64::MAX,
                value > a_start,
                b == if value < b_start {
                    value
                } else {
                    b_start
                },
                value >= int_min(fold_min(*state, olist.take(i as int), d), b_start as int),
                value <= int_max(fold_min(*state, olist.take(i as int), d), a_start as int),
                i == olist.len() ==> fold_min(*state, olist.take(i as int), d) == fold_min(
                    *state,
                    olist,
                    d,
                ),
                tt_inv_minimax(table@),
            ensures
                tt_inv_minimax(table@),
                a == a_start,
                b == if value < b_start {
                    value
                } else {
                    b_start
                },
                min_score() <= value <= i64::MAX,
                value <= a_start ==> mval <= value,
                value >= b_start ==> mval >= value,
                a_start < value < b_start ==> value == mval,
            decreases ordered@.len() - i,
        {
            let m = ordered[i];
            proof {
                state.lemma_apply_wf(m);
            }
            let child = state.apply(m);
            let v = alpha_beta_with_table(&child, depth - 1, true, table, a, b);
            proof {
                let tv = minimax_val(child, (depth - 1) as nat, true);
                lemma_minimax_val_bounded(child, (depth - 1) as nat, true);
                lemma_fold_min_take_succ(*state, olist, i as int, d);
                assert(a < v < b ==> v == tv);
                assert(v >= b ==> tv >= v);
                assert(v <= a ==> tv <= v);
            }
            if value > v {
                best_move = m;
            }
            if v < value {
                value = v;
            }
            if value < b {
                b = value;
            }
            if value <= a {
                proof {
                    lemma_fold_min_elem_ge(*state, olist, i as int, d);
                }
                break ;
            }
            proof {
                if i + 1 == olist.len() {
                    assert(olist.take(i as int + 1) =~= olist);
                }
            }
            i += 1;
        }
    }
    let flag: TranspositionStateType;
    if value <= original_alpha {
        flag = TranspositionStateType::UpperBound;
    } else if value >= b {
        flag = TranspositionStateType::LowerBound;
    } else {
        flag = TranspositionStateType::Exact;
    }
    let entry = TableEntry {
        state: *state,
        color,
        value,
        depth,
        state_type: flag,
        best_move,
    };
    let ghost pre_add = table@;
    proof {
        if color {
            if value <= original_alpha {
                assert(mval <= value);
            } else if value >= b {
                assert(mval >= value);
            } else {
                if value <= a_start {
                    assert(mval <= value);
                    assert(a_start > alpha);
                    assert(mval >= a_start);
                }
                assert(mval == value);
            }
        } else {
            if value <= original_alpha {
                assert(mval <= value);
            } else if value >= b {
                if value <= a_start {
                    assert(mval <= value);
                    assert(a_start > alpha);
                    assert(mval >= a_start);
                    assert(mval == value);
                } else if value >= b_start {
                    assert(mval >= value);
                } else {
                    assert(mval == value);
                }
                assert(mval >= value);
            } else {
                assert(mval == value);
            }
        }
        assert(entry_sound_minimax(entry));
    }
    table.add(h, entry);
    proof {
        assert forall|k2: i64| table@.dom().contains(k2) implies entry_sound_minimax(
            #[trigger] table@[k2],
        ) by {
            if k2 != h {
                assert(table@[k2] == pre_add[k2]);
            }
        }
    }
    value
}

} // verus!
