use vstd::prelude::*;

use crate::min_score;
use crate::traits::{ChildStates, ScoreOfState, SearchMove, TerminalState};

verus! {

pub open spec fn int_max(a: int, b: int) -> int {
    if a > b {
        a
    } else {
        b
    }
}

pub open spec fn int_min(a: int, b: int) -> int {
    if a < b {
        a
    } else {
        b
    }
}

/// All moves in `moves` are valid for `state`.
pub open spec fn all_valid<M: SearchMove, T: ScoreOfState + TerminalState + ChildStates<M>>(
    state: T,
    moves: Seq<M>,
) -> bool {
    forall|i: int| 0 <= i < moves.len() ==> state.valid_move(#[trigger] moves[i])
}

/// Value of a depth-limited negamax search of `state` with `color` to move,
/// from the side to move's perspective: at a leaf the static score, negated
/// for MIN; at an inner node the maximum over the children of the negated
/// value of the child one ply shallower.
pub open spec fn nega_val<M: SearchMove, T: ScoreOfState + TerminalState + ChildStates<M>>(
    state: T,
    depth: nat,
    color: bool,
) -> int
    decreases depth, state.spec_children(color).len() + 1,
{
    if depth == 0 || state.spec_terminal() {
        if color {
            state.spec_score()
        } else {
            -state.spec_score()
        }
    } else {
        fold_nega(state, state.spec_children(color), depth, color)
    }
}

/// Maximum over `moves` of the negated negamax value of the corresponding
/// child of `state`, searched one ply shallower; `min_score()` when `moves`
/// is empty.
pub open spec fn fold_nega<M: SearchMove, T: ScoreOfState + TerminalState + ChildStates<M>>(
    state: T,
    moves: Seq<M>,
    depth: nat,
    color: bool,
) -> int
    decreases depth, moves.len(),
{
    if moves.len() == 0 || depth == 0 {
        min_score()
    } else {
        int_max(
            -nega_val(state.spec_apply(moves[0]), (depth - 1) as nat, !color),
            fold_nega(state, moves.drop_first(), depth, color),
        )
    }
}

/// Value of a depth-limited minimax search of `state` with `color` to move,
/// always from MAX's perspective: at a leaf the static score; at an inner
/// node the maximum (MAX to move) or minimum (MIN to move) over the children.
pub open spec fn minimax_val<M: SearchMove, T: ScoreOfState + TerminalState + ChildStates<M>>(
    state: T,
    depth: nat,
    color: bool,
) -> int
    decreases depth, state.spec_children(color).len() + 1,
{
    if depth == 0 || state.spec_terminal() {
        state.spec_score()
    } else if color {
        fold_max(state, state.spec_children(true), depth)
    } else {
        fold_min(state, state.spec_children(false), depth)
    }
}

/// Maximum over `moves` of the minimax value of the corresponding child of
/// `state` with MIN to move; `min_score()` when `moves` is empty.
pub open spec fn fold_max<M: SearchMove, T: ScoreOfState + TerminalState + ChildStates<M>>(
    state: T,
    moves: Seq<M>,
    depth: nat,
) -> int
    decreases depth, moves.len(),
{
    if moves.len() == 0 || depth == 0 {
        min_score()
    } else {
        int_max(
            minimax_val(state.spec_apply(moves[0]), (depth - 1) as nat, false),
            fold_max(state, moves.drop_first(), depth),
        )
    }
}

/// Minimum over `moves` of the minimax value of the corresponding child of
/// `state` with MAX to move; `i64::MAX` when `moves` is empty.
pub open spec fn fold_min<M: SearchMove, T: ScoreOfState + TerminalState + ChildStates<M>>(
    state: T,
    moves: Seq<M>,
    depth: nat,
) -> int
    decreases depth, moves.len(),
{
    if moves.len() == 0 || depth == 0 {
        i64::MAX as int
    } else {
        int_min(
            minimax_val(state.spec_apply(moves[0]), (depth - 1) as nat, true),
            fold_min(state, moves.drop_first(), depth),
        )
    }
}

proof fn lemma_all_valid_drop_first<
    M: SearchMove,
    T: ScoreOfState + TerminalState + ChildStates<M>,
>(state: T, moves: Seq<M>)
    requires
        moves.len() > 0,
        all_valid(state, moves),
    ensures
        all_valid(state, moves.drop_first()),
{
    assert forall|i: int| 0 <= i < moves.drop_first().len() implies state.valid_move(
        #[trigger] moves.drop_first()[i],
    ) by {
        assert(moves.drop_first()[i] == moves[i + 1]);
    }
}

/// The negamax value of a well-formed state lies in the closed interval from
/// `min_score()` to `i64::MAX`.
pub proof fn lemma_nega_val_bounded<
    M: SearchMove,
    T: ScoreOfState + TerminalState + ChildStates<M>,
>(state: T, depth: nat, color: bool)
    requires
        state.wf(),
    ensures
        min_score() <= nega_val(state, depth, color) <= i64::MAX,
    decreases depth, state.spec_children(color).len() + 1,
{
    if depth == 0 || state.spec_terminal() {
        state.lemma_score_bounded();
    } else {
        state.lemma_children_valid(color);
        lemma_fold_nega_bounded(state, state.spec_children(color), depth, color);
    }
}

pub proof fn lemma_fold_nega_bounded<
    M: SearchMove,
    T: ScoreOfState + TerminalState + ChildStates<M>,
>(state: T, moves: Seq<M>, depth: nat, color: bool)
    requires
        state.wf(),
        all_valid(state, moves),
    ensures
        min_score() <= fold_nega(state, moves, depth, color) <= i64::MAX,
    decreases depth, moves.len(),
{
    if moves.len() == 0 || depth == 0 {
    } else {
        lemma_all_valid_drop_first(state, moves);
        lemma_fold_nega_bounded(state, moves.drop_first(), depth, color);
        state.lemma_apply_wf(moves[0]);
        lemma_nega_val_bounded(state.spec_apply(moves[0]), (depth - 1) as nat, !color);
    }
}

/// The minimax value of a well-formed state lies in the closed interval from
/// `min_score()` to `i64::MAX`.
pub proof fn lemma_minimax_val_bounded<
    M: SearchMove,
    T: ScoreOfState + TerminalState + ChildStates<M>,
>(state: T, depth: nat, color: bool)
    requires
        state.wf(),
    ensures
        min_score() <= minimax_val(state, depth, color) <= i64::MAX,
    decreases depth, state.spec_children(color).len() + 1,
{
    if depth == 0 || state.spec_terminal() {
        state.lemma_score_bounded();
    } else {
        state.lemma_children_valid(color);
        if color {
            lemma_fold_max_bounded(state, state.spec_children(true), depth);
        } else {
            lemma_fold_min_bounded(state, state.spec_children(false), depth);
        }
    }
}

pub proof fn lemma_fold_max_bounded<
    M: SearchMove,
    T: ScoreOfState + TerminalState + ChildStates<M>,
>(state: T, moves: Seq<M>, depth: nat)
    requires
        state.wf(),
        all_valid(state, moves),
    ensures
        min_score() <= fold_max(state, moves, depth) <= i64::MAX,
    decreases depth, moves.len(),
{
    if moves.len() == 0 || depth == 0 {
    } else {
        lemma_all_valid_drop_first(state, moves);
        lemma_fold_max_bounded(state, moves.drop_first(), depth);
        state.lemma_apply_wf(moves[0]);
        lemma_minimax_val_bounded(state.spec_apply(moves[0]), (depth - 1) as nat, false);
    }
}

pub proof fn lemma_fold_min_bounded<
    M: SearchMove,
    T: ScoreOfState + TerminalState + ChildStates<M>,
>(state: T, moves: Seq<M>, depth: nat)
    requires
        state.wf(),
        all_valid(state, moves),
    ensures
        min_score() <= fold_min(state, moves, depth) <= i64::MAX,
    decreases depth, moves.len(),
{
    if moves.len() == 0 || depth == 0 {
    } else {
        lemma_all_valid_drop_first(state, moves);
        lemma_fold_min_bounded(state, moves.drop_first(), depth);
        state.lemma_apply_wf(moves[0]);
        lemma_minimax_val_bounded(state.spec_apply(moves[0]), (depth - 1) as nat, true);
    }
}

pub proof fn lemma_fold_nega_push<M: SearchMove, T: ScoreOfState + TerminalState + ChildStates<M>>(
    state: T,
    moves: Seq<M>,
    m: M,
    depth: nat,
    color: bool,
)
    requires
        depth >= 1,
    ensures
        fold_nega(state, moves.push(m), depth, color) == int_max(
            fold_nega(state, moves, depth, color),
            -nega_val(state.spec_apply(m), (depth - 1) as nat, !color),
        ),
    decreases moves.len(),
{
    let t_m = -nega_val(state.spec_apply(m), (depth - 1) as nat, !color);
    if moves.len() == 0 {
        assert(moves.push(m)[0] == m);
        assert(moves.push(m).drop_first() =~= Seq::<M>::empty());
        assert(fold_nega(state, moves.push(m), depth, color) == int_max(
            t_m,
            fold_nega(state, moves.push(m).drop_first(), depth, color),
        ));
        assert(fold_nega(state, moves.push(m).drop_first(), depth, color) == min_score());
    } else {
        let t_0 = -nega_val(state.spec_apply(moves[0]), (depth - 1) as nat, !color);
        assert(moves.push(m)[0] == moves[0]);
        assert(moves.push(m).drop_first() =~= moves.drop_first().push(m));
        lemma_fold_nega_push(state, moves.drop_first(), m, depth, color);
        assert(fold_nega(state, moves.push(m), depth, color) == int_max(
            t_0,
            fold_nega(state, moves.push(m).drop_first(), depth, color),
        ));
        assert(fold_nega(state, moves, depth, color) == int_max(
            t_0,
            fold_nega(state, moves.drop_first(), depth, color),
        ));
    }
}

pub proof fn lemma_fold_nega_take_succ<
    M: SearchMove,
    T: ScoreOfState + TerminalState + ChildStates<M>,
>(state: T, moves: Seq<M>, i: int, depth: nat, color: bool)
    requires
        depth >= 1,
        0 <= i < moves.len(),
    ensures
        fold_nega(state, moves.take(i + 1), depth, color) == int_max(
            fold_nega(state, moves.take(i), depth, color),
            -nega_val(state.spec_apply(moves[i]), (depth - 1) as nat, !color),
        ),
{
    assert(moves.take(i + 1) =~= moves.take(i).push(moves[i]));
    lemma_fold_nega_push(state, moves.take(i), moves[i], depth, color);
}

pub proof fn lemma_fold_nega_take_le<
    M: SearchMove,
    T: ScoreOfState + TerminalState + ChildStates<M>,
>(state: T, moves: Seq<M>, i: int, depth: nat, color: bool)
    requires
        depth >= 1,
        0 <= i <= moves.len(),
    ensures
        fold_nega(state, moves.take(i), depth, color) <= fold_nega(state, moves, depth, color),
    decreases moves.len() - i,
{
    if i == moves.len() {
        assert(moves.take(i) =~= moves);
    } else {
        lemma_fold_nega_take_succ(state, moves, i, depth, color);
        lemma_fold_nega_take_le(state, moves, i + 1, depth, color);
    }
}

/// Each single child value is dominated by the fold over the whole move list.
pub proof fn lemma_fold_nega_elem_le<
    M: SearchMove,
    T: ScoreOfState + TerminalState + ChildStates<M>,
>(state: T, moves: Seq<M>, j: int, depth: nat, color: bool)
    requires
        depth >= 1,
        0 <= j < moves.len(),
    ensures
        -nega_val(state.spec_apply(moves[j]), (depth - 1) as nat, !color) <= fold_nega(
            state,
            moves,
            depth,
            color,
        ),
{
    lemma_fold_nega_take_succ(state, moves, j, depth, color);
    lemma_fold_nega_take_le(state, moves, j + 1, depth, color);
}

pub proof fn lemma_fold_nega_remove<
    M: SearchMove,
    T: ScoreOfState + TerminalState + ChildStates<M>,
>(state: T, moves: Seq<M>, j: int, depth: nat, color: bool)
    requires
        depth >= 1,
        0 <= j < moves.len(),
    ensures
        fold_nega(state, moves, depth, color) == int_max(
            -nega_val(state.spec_apply(moves[j]), (depth - 1) as nat, !color),
            fold_nega(state, moves.remove(j), depth, color),
        ),
    decreases j,
{
    if j == 0 {
        assert(moves.remove(0) =~= moves.drop_first());
    } else {
        assert(moves.remove(j)[0] == moves[0]);
        assert(moves.remove(j).drop_first() =~= moves.drop_first().remove(j - 1));
        assert(moves.drop_first()[j - 1] == moves[j]);
        lemma_fold_nega_remove(state, moves.drop_first(), j - 1, depth, color);
    }
}

/// Moving the move at index `j` to the front of the list does not change the
/// fold: the node value is independent of the order children are visited in.
pub proof fn lemma_fold_nega_hoist<
    M: SearchMove,
    T: ScoreOfState + TerminalState + ChildStates<M>,
>(state: T, moves: Seq<M>, j: int, depth: nat, color: bool)
    requires
        depth >= 1,
        0 <= j < moves.len(),
    ensures
        fold_nega(state, moves.remove(j).insert(0, moves[j]), depth, color) == fold_nega(
            state,
            moves,
            depth,
            color,
        ),
{
    let hoisted = moves.remove(j).insert(0, moves[j]);
    assert(hoisted[0] == moves[j]);
    assert(hoisted.drop_first() =~= moves.remove(j));
    lemma_fold_nega_remove(state, moves, j, depth, color);
}

pub proof fn lemma_fold_max_push<M: SearchMove, T: ScoreOfState + TerminalState + ChildStates<M>>(
    state: T,
    moves: Seq<M>,
    m: M,
    depth: nat,
)
    requires
        depth >= 1,
    ensures
        fold_max(state, moves.push(m), depth) == int_max(
            fold_max(state, moves, depth),
            minimax_val(state.spec_apply(m), (depth - 1) as nat, false),
        ),
    decreases moves.len(),
{
    let t_m = minimax_val(state.spec_apply(m), (depth - 1) as nat, false);
    if moves.len() == 0 {
        assert(moves.push(m)[0] == m);
        assert(moves.push(m).drop_first() =~= Seq::<M>::empty());
        assert(fold_max(state, moves.push(m), depth) == int_max(
            t_m,
            fold_max(state, moves.push(m).drop_first(), depth),
        ));
        assert(fold_max(state, moves.push(m).drop_first(), depth) == min_score());
    } else {
        let t_0 = minimax_val(state.spec_apply(moves[0]), (depth - 1) as nat, false);
        assert(moves.push(m)[0] == moves[0]);
        assert(moves.push(m).drop_first() =~= moves.drop_first().push(m));
        lemma_fold_max_push(state, moves.drop_first(), m, depth);
        assert(fold_max(state, moves.push(m), depth) == int_max(
            t_0,
            fold_max(state, moves.push(m).drop_first(), depth),
        ));
        assert(fold_max(state, moves, depth) == int_max(
            t_0,
            fold_max(state, moves.drop_first(), depth),
        ));
    }
}

pub proof fn lemma_fold_max_take_succ<
    M: SearchMove,
    T: ScoreOfState + TerminalState + ChildStates<M>,
>(state: T, moves: Seq<M>, i: int, depth: nat)
    requires
        depth >= 1,
        0 <= i < moves.len(),
    ensures
        fold_max(state, moves.take(i + 1), depth) == int_max(
            fold_max(state, moves.take(i), depth),
            minimax_val(state.spec_apply(moves[i]), (depth - 1) as nat, false),
        ),
{
    assert(moves.take(i + 1) =~= moves.take(i).push(moves[i]));
    lemma_fold_max_push(state, moves.take(i), moves[i], depth);
}

pub proof fn lemma_fold_max_take_le<
    M: SearchMove,
    T: ScoreOfState + TerminalState + ChildStates<M>,
>(state: T, moves: Seq<M>, i: int, depth: nat)
    requires
        depth >= 1,
        0 <= i <= moves.len(),
    ensures
        fold_max(state, moves.take(i), depth) <= fold_max(state, moves, depth),
    decreases moves.len() - i,
{
    if i == moves.len() {
        assert(moves.take(i) =~= moves);
    } else {
        lemma_fold_max_take_succ(state, moves, i, depth);
        lemma_fold_max_take_le(state, moves, i + 1, depth);
    }
}

pub proof fn lemma_fold_max_elem_le<
    M: SearchMove,
    T: ScoreOfState + TerminalState + ChildStates<M>,
>(state: T, moves: Seq<M>, j: int, depth: nat)
    requires
        depth >= 1,
        0 <= j < moves.len(),
    ensures
        minimax_val(state.spec_apply(moves[j]), (depth - 1) as nat, false) <= fold_max(
            state,
            moves,
            depth,
        ),
{
    lemma_fold_max_take_succ(state, moves, j, depth);
    lemma_fold_max_take_le(state, moves, j + 1, depth);
}

pub proof fn lemma_fold_max_remove<
    M: SearchMove,
    T: ScoreOfState + TerminalState + ChildStates<M>,
>(state: T, moves: Seq<M>, j: int, depth: nat)
    requires
        depth >= 1,
        0 <= j < moves.len(),
    ensures
        fold_max(state, moves, depth) == int_max(
            minimax_val(state.spec_apply(moves[j]), (depth - 1) as nat, false),
            fold_max(state, moves.remove(j), depth),
        ),
    decreases j,
{
    if j == 0 {
        assert(moves.remove(0) =~= moves.drop_first());
    } else {
        assert(moves.remove(j)[0] == moves[0]);
        assert(moves.remove(j).drop_first() =~= moves.drop_first().remove(j - 1));
        assert(moves.drop_first()[j - 1] == moves[j]);
        lemma_fold_max_remove(state, moves.drop_first(), j - 1, depth);
    }
}

pub proof fn lemma_fold_max_hoist<M: SearchMove, T: ScoreOfState + TerminalState + ChildStates<M>>(
    state: T,
    moves: Seq<M>,
    j: int,
    depth: nat,
)
    requires
        depth >= 1,
        0 <= j < moves.len(),
    ensures
        fold_max(state, moves.remove(j).insert(0, moves[j]), depth) == fold_max(
            state,
            moves,
            depth,
        ),
{
    let hoisted = moves.remove(j).insert(0, moves[j]);
    assert(hoisted[0] == moves[j]);
    assert(hoisted.drop_first() =~= moves.remove(j));
    lemma_fold_max_remove(state, moves, j, depth);
}

pub proof fn lemma_fold_min_push<M: SearchMove, T: ScoreOfState + TerminalState + ChildStates<M>>(
    state: T,
    moves: Seq<M>,
    m: M,
    depth: nat,
)
    requires
        depth >= 1,
    ensures
        fold_min(state, moves.push(m), depth) == int_min(
            fold_min(state, moves, depth),
            minimax_val(state.spec_apply(m), (depth - 1) as nat, true),
        ),
    decreases moves.len(),
{
    let t_m = minimax_val(state.spec_apply(m), (depth - 1) as nat, true);
    if moves.len() == 0 {
        assert(moves.push(m)[0] == m);
        assert(moves.push(m).drop_first() =~= Seq::<M>::empty());
        assert(fold_min(state, moves.push(m), depth) == int_min(
            t_m,
            fold_min(state, moves.push(m).drop_first(), depth),
        ));
        assert(fold_min(state, moves.push(m).drop_first(), depth) == i64::MAX as int);
    } else {
        let t_0 = minimax_val(state.spec_apply(moves[0]), (depth - 1) as nat, true);
        assert(moves.push(m)[0] == moves[0]);
        assert(moves.push(m).drop_first() =~= moves.drop_first().push(m));
        lemma_fold_min_push(state, moves.drop_first(), m, depth);
        assert(fold_min(state, moves.push(m), depth) == int_min(
            t_0,
            fold_min(state, moves.push(m).drop_first(), depth),
        ));
        assert(fold_min(state, moves, depth) == int_min(
            t_0,
            fold_min(state, moves.drop_first(), depth),
        ));
    }
}

pub proof fn lemma_fold_min_take_succ<
    M: SearchMove,
    T: ScoreOfState + TerminalState + ChildStates<M>,
>(state: T, moves: Seq<M>, i: int, depth: nat)
    requires
        depth >= 1,
        0 <= i < moves.len(),
    ensures
        fold_min(state, moves.take(i + 1), depth) == int_min(
            fold_min(state, moves.take(i), depth),
            minimax_val(state.spec_apply(moves[i]), (depth - 1) as nat, true),
        ),
{
    assert(moves.take(i + 1) =~= moves.take(i).push(moves[i]));
    lemma_fold_min_push(state, moves.take(i), moves[i], depth);
}

pub proof fn lemma_fold_min_take_ge<
    M: SearchMove,
    T: ScoreOfState + TerminalState + ChildStates<M>,
>(state: T, moves: Seq<M>, i: int, depth: nat)
    requires
        depth >= 1,
        0 <= i <= moves.len(),
    ensures
        fold_min(state, moves.take(i), depth) >= fold_min(state, moves, depth),
    decreases moves.len() - i,
{
    if i == moves.len() {
        assert(moves.take(i) =~= moves);
    } else {
        lemma_fold_min_take_succ(state, moves, i, depth);
        lemma_fold_min_take_ge(state, moves, i + 1, depth);
    }
}

pub proof fn lemma_fold_min_elem_ge<
    M: SearchMove,
    T: ScoreOfState + TerminalState + ChildStates<M>,
>(state: T, moves: Seq<M>, j: int, depth: nat)
    requires
        depth >= 1,
        0 <= j < moves.len(),
    ensures
        minimax_val(state.spec_apply(moves[j]), (depth - 1) as nat, true) >= fold_min(
            state,
            moves,
            depth,
        ),
{
    lemma_fold_min_take_succ(state, moves, j, depth);
    lemma_fold_min_take_ge(state, moves, j + 1, depth);
}

pub proof fn lemma_fold_min_remove<
    M: SearchMove,
    T: ScoreOfState + TerminalState + ChildStates<M>,
>(state: T, moves: Seq<M>, j: int, depth: nat)
    requires
        depth >= 1,
        0 <= j < moves.len(),
    ensures
        fold_min(state, moves, depth) == int_min(
            minimax_val(state.spec_apply(moves[j]), (depth - 1) as nat, true),
            fold_min(state, moves.remove(j), depth),
        ),
    decreases j,
{
    if j == 0 {
        assert(moves.remove(0) =~= moves.drop_first());
    } else {
        assert(moves.remove(j)[0] == moves[0]);
        assert(moves.remove(j).drop_first() =~= moves.drop_first().remove(j - 1));
        assert(moves.drop_first()[j - 1] == moves[j]);
        lemma_fold_min_remove(state, moves.drop_first(), j - 1, depth);
    }
}

pub proof fn lemma_fold_min_hoist<M: SearchMove, T: ScoreOfState + TerminalState + ChildStates<M>>(
    state: T,
    moves: Seq<M>,
    j: int,
    depth: nat,
)
    requires
        depth >= 1,
        0 <= j < moves.len(),
    ensures
        fold_min(state, moves.remove(j).insert(0, moves[j]), depth) == fold_min(
            state,
            moves,
            depth,
        ),
{
    let hoisted = moves.remove(j).insert(0, moves[j]);
    assert(hoisted[0] == moves[j]);
    assert(hoisted.drop_first() =~= moves.remove(j));
    lemma_fold_min_remove(state, moves, j, depth);
}

/// Hoisting one move to the front keeps every move of the list valid.
pub proof fn lemma_hoist_all_valid<M: SearchMove, T: ScoreOfState + TerminalState + ChildStates<M>>(
    state: T,
    moves: Seq<M>,
    j: int,
)
    requires
        0 <= j < moves.len(),
        all_valid(state, moves),
    ensures
        all_valid(state, moves.remove(j).insert(0, moves[j])),
{
    let hoisted = moves.remove(j).insert(0, moves[j]);
    assert forall|i: int| 0 <= i < hoisted.len() implies state.valid_move(#[trigger] hoisted[i]) by {
        if i == 0 {
            assert(hoisted[0] == moves[j]);
        } else {
            assert(hoisted[i] == moves.remove(j)[i - 1]);
            if i - 1 < j {
                assert(moves.remove(j)[i - 1] == moves[i - 1]);
            } else {
                assert(moves.remove(j)[i - 1] == moves[i]);
            }
        }
    }
}

/// The negamax value equals the minimax value for MAX to move and its
/// negation for MIN to move: the two perspective conventions agree.
pub proof fn lemma_nega_minimax<M: SearchMove, T: ScoreOfState + TerminalState + ChildStates<M>>(
    state: T,
    depth: nat,
    color: bool,
)
    requires
        state.wf(),
    ensures
        nega_val(state, depth, color) == if color {
            minimax_val(state, depth, color)
        } else {
            -minimax_val(state, depth, color)
        },
    decreases depth, state.spec_children(color).len() + 1,
{
    if depth == 0 || state.spec_terminal() {
    } else {
        state.lemma_children_valid(color);
        lemma_fold_nega_minimax(state, state.spec_children(color), depth, color);
    }
}

pub proof fn lemma_fold_nega_minimax<
    M: SearchMove,
    T: ScoreOfState + TerminalState + ChildStates<M>,
>(state: T, moves: Seq<M>, depth: nat, color: bool)
    requires
        state.wf(),
        all_valid(state, moves),
        depth >= 1,
    ensures
        color ==> fold_nega(state, moves, depth, true) == fold_max(state, moves, depth),
        !color ==> fold_nega(state, moves, depth, false) == -fold_min(state, moves, depth),
    decreases depth, moves.len(),
{
    if moves.len() == 0 {
    } else {
        lemma_all_valid_drop_first(state, moves);
        lemma_fold_nega_minimax(state, moves.drop_first(), depth, color);
        state.lemma_apply_wf(moves[0]);
        lemma_nega_minimax(state.spec_apply(moves[0]), (depth - 1) as nat, !color);
    }
}

/// A result that satisfies the three fail-soft cases on the full window from
/// `min_score()` to `i64::MAX` pins the searched value down exactly.
pub proof fn lemma_full_window_exact(r: i64, v: int)
    requires
        min_score() <= v <= i64::MAX,
        min_score() <= r,
        min_score() < r < i64::MAX ==> r == v,
        r <= min_score() ==> v <= r,
        r >= i64::MAX ==> v >= r,
    ensures
        r == v,
{
}

/// Two searchers that both meet the fail-soft contract against the same
/// searched value on the full window agree: a table-backed search and a
/// plain search of the same state, depth and side return the same result,
/// namely that value itself.
pub proof fn lemma_full_window_agreement(r1: i64, r2: i64, v: int)
    requires
        min_score() <= v <= i64::MAX,
        min_score() <= r1,
        min_score() <= r2,
        min_score() < r1 < i64::MAX ==> r1 == v,
        r1 <= min_score() ==> v <= r1,
        r1 >= i64::MAX ==> v >= r1,
        min_score() < r2 < i64::MAX ==> r2 == v,
        r2 <= min_score() ==> v <= r2,
        r2 >= i64::MAX ==> v >= r2,
    ensures
        r1 == r2,
        r1 == v,
{
    lemma_full_window_exact(r1, v);
    lemma_full_window_exact(r2, v);
}

} // verus!
