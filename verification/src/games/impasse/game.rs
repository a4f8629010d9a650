use vstd::prelude::*;

use crate::games::impasse::actions::Move;
use crate::games::impasse::move_type::MoveType;
use crate::games::impasse::position::Position;
use crate::min_score;
use crate::traits::{
    ChildStates, ScoreOfState, StateHash, TerminalState, WellFormedState,
};

verus! {

broadcast use vstd::array::group_array_axioms;

/// The eight-by-eight board: `0` empty, `1` a MAX single, `2` a MAX double,
/// `-1` and `-2` their MIN counterparts.
pub type GameField = [[i64; 8]; 8];

/// The per-cell, per-piece-kind random values the fingerprint is built from.
pub type HashField = [[[u64; 4]; 8]; 8];

/// An Impasse position: the board and a reference to the game's random
/// fingerprint table.
#[derive(Clone, Copy)]
pub struct Impasse<'game> {
    pub game_field: GameField,
    pub hash_field: &'game HashField,
}

impl<'game> PartialEq for Impasse<'game> {
    fn eq(&self, other: &Impasse<'game>) -> (r: bool) {
        let mut i: usize = 0;
        while i < 8
            invariant
                0 <= i <= 8,
                forall|a: int, b: int|
                    0 <= a < i && 0 <= b < 8 ==> #[trigger] self.game_field[a][b]
                        == other.game_field[a][b],
            decreases 8 - i,
        {
            let mut j: usize = 0;
            while j < 8
                invariant
                    0 <= i < 8,
                    0 <= j <= 8,
                    forall|a: int, b: int|
                        0 <= a < i && 0 <= b < 8 ==> #[trigger] self.game_field[a][b]
                            == other.game_field[a][b],
                    forall|b: int|
                        0 <= b < j ==> #[trigger] self.game_field[i as int][b]
                            == other.game_field[i as int][b],
                decreases 8 - j,
            {
                if self.game_field[i][j] != other.game_field[i][j] {
                    return false;
                }
                j += 1;
            }
            i += 1;
        }
        let mut a: usize = 0;
        while a < 8
            invariant
                0 <= a <= 8,
                forall|p: int, q: int, s: int|
                    0 <= p < a && 0 <= q < 8 && 0 <= s < 4 ==> #[trigger] self.hash_field[p][q][s]
                        == other.hash_field[p][q][s],
                forall|p: int, q: int|
                    0 <= p < 8 && 0 <= q < 8 ==> #[trigger] self.game_field[p][q]
                        == other.game_field[p][q],
            decreases 8 - a,
        {
            let mut b: usize = 0;
            while b < 8
                invariant
                    0 <= a < 8,
                    0 <= b <= 8,
                    forall|p: int, q: int, s: int|
                        0 <= p < a && 0 <= q < 8 && 0 <= s < 4 ==> #[trigger] self.hash_field[p][q][
                            s
                        ] == other.hash_field[p][q][s],
                    forall|q: int, s: int|
                        0 <= q < b && 0 <= s < 4 ==> #[trigger] self.hash_field[a as int][q][s]
                            == other.hash_field[a as int][q][s],
                    forall|p: int, q: int|
                        0 <= p < 8 && 0 <= q < 8 ==> #[trigger] self.game_field[p][q]
                            == other.game_field[p][q],
                decreases 8 - b,
            {
                let mut c: usize = 0;
                while c < 4
                    invariant
                        0 <= a < 8,
                        0 <= b < 8,
                        0 <= c <= 4,
                        forall|p: int, q: int, s: int|
                            0 <= p < a && 0 <= q < 8 && 0 <= s < 4 ==> #[trigger] self.hash_field[
                                p
                            ][q][s] == other.hash_field[p][q][s],
                        forall|q: int, s: int|
                            0 <= q < b && 0 <= s < 4 ==> #[trigger] self.hash_field[a as int][q][s]
                                == other.hash_field[a as int][q][s],
                        forall|s: int|
                            0 <= s < c ==> #[trigger] self.hash_field[a as int][b as int][s]
                                == other.hash_field[a as int][b as int][s],
                        forall|p: int, q: int|
                            0 <= p < 8 && 0 <= q < 8 ==> #[trigger] self.game_field[p][q]
                                == other.game_field[p][q],
                    decreases 4 - c,
                {
                    if self.hash_field[a][b][c] != other.hash_field[a][b][c] {
                        return false;
                    }
                    c += 1;
                }
                b += 1;
            }
            a += 1;
        }
        proof {
            assert forall|p: int| 0 <= p < 8 implies #[trigger] self.game_field[p]
                == other.game_field[p] by {
                assert(self.game_field[p] =~= other.game_field[p]);
            }
            assert(self.game_field =~= other.game_field);
            assert forall|p: int, q: int| 0 <= p < 8 && 0 <= q < 8 implies #[trigger] self
                .hash_field[p][q] == other.hash_field[p][q] by {
                assert(self.hash_field[p][q] =~= other.hash_field[p][q]);
            }
            assert forall|p: int| 0 <= p < 8 implies #[trigger] self.hash_field[p]
                == other.hash_field[p] by {
                assert(self.hash_field[p] =~= other.hash_field[p]);
            }
            assert(*self.hash_field =~= *other.hash_field);
        }
        true
    }
}

impl<'game> Eq for Impasse<'game> {

}

impl<'game> vstd::std_specs::cmp::PartialEqSpecImpl for Impasse<'game> {
    open spec fn obeys_eq_spec() -> bool {
        true
    }

    open spec fn eq_spec(&self, other: &Impasse<'game>) -> bool {
        *self == *other
    }
}

impl<'game> WellFormedState for Impasse<'game> {
    open spec fn wf(&self) -> bool {
        forall|r: int, c: int|
            0 <= r < 8 && 0 <= c < 8 ==> -2 <= #[trigger] self.game_field[r][c] <= 2
    }
}

/// The board-evaluation weight of one cell, from MAX's perspective, as a
/// deduction from the base score.
pub open spec fn cell_weight(f: GameField, r: int, c: int) -> int {
    let v = f[r][c];
    if v == 1 {
        -(7 + r)
    } else if v == 2 {
        -(21 - r)
    } else if v == -1 {
        14 - r
    } else if v == -2 {
        14 + r
    } else {
        0
    }
}

/// How many piece units one cell holds for MAX.
pub open spec fn cell_pos_pieces(f: GameField, r: int, c: int) -> int {
    let v = f[r][c];
    if v == 1 {
        1
    } else if v == 2 {
        2
    } else {
        0
    }
}

/// How many piece units one cell holds for MIN.
pub open spec fn cell_neg_pieces(f: GameField, r: int, c: int) -> int {
    let v = f[r][c];
    if v == -1 {
        1
    } else if v == -2 {
        2
    } else {
        0
    }
}

/// Sum of `cell_weight` over the cells before `(row, col)` in row-major
/// order.
pub open spec fn weight_prefix(f: GameField, row: int, col: int) -> int
    decreases row, col,
{
    if row <= 0 && col <= 0 {
        0
    } else if col <= 0 {
        weight_prefix(f, row - 1, 8)
    } else {
        weight_prefix(f, row, col - 1) + cell_weight(f, row, col - 1)
    }
}

/// Sum of `cell_pos_pieces` over the cells before `(row, col)`.
pub open spec fn pos_prefix(f: GameField, row: int, col: int) -> int
    decreases row, col,
{
    if row <= 0 && col <= 0 {
        0
    } else if col <= 0 {
        pos_prefix(f, row - 1, 8)
    } else {
        pos_prefix(f, row, col - 1) + cell_pos_pieces(f, row, col - 1)
    }
}

/// Sum of `cell_neg_pieces` over the cells before `(row, col)`.
pub open spec fn neg_prefix(f: GameField, row: int, col: int) -> int
    decreases row, col,
{
    if row <= 0 && col <= 0 {
        0
    } else if col <= 0 {
        neg_prefix(f, row - 1, 8)
    } else {
        neg_prefix(f, row, col - 1) + cell_neg_pieces(f, row, col - 1)
    }
}

proof fn lemma_prefix_bounds(f: GameField, row: int, col: int)
    requires
        0 <= row <= 8,
        0 <= col <= 8,
    ensures
        -29 * (8 * row + col) <= weight_prefix(f, row, col) <= 29 * (8 * row + col),
        0 <= pos_prefix(f, row, col) <= 2 * (8 * row + col),
        0 <= neg_prefix(f, row, col) <= 2 * (8 * row + col),
    decreases row, col,
{
    if row <= 0 && col <= 0 {
    } else if col <= 0 {
        lemma_prefix_bounds(f, row - 1, 8);
    } else {
        lemma_prefix_bounds(f, row, col - 1);
    }
}

impl<'game> ScoreOfState for Impasse<'game> {
    open spec fn spec_score(&self) -> int {
        if pos_prefix(self.game_field, 8, 0) == 0 {
            i64::MAX as int
        } else if neg_prefix(self.game_field, 8, 0) == 0 {
            min_score()
        } else {
            10000 + weight_prefix(self.game_field, 8, 0) + (neg_prefix(self.game_field, 8, 0)
                - pos_prefix(self.game_field, 8, 0)) * 10
        }
    }

    proof fn lemma_score_bounded(&self) {
        lemma_prefix_bounds(self.game_field, 8, 0);
    }

    fn score_of(&self) -> (r: i64) {
        let mut pos_pieces: i64 = 0;
        let mut neg_pieces: i64 = 0;
        let mut score: i64 = 10000;
        let mut i: usize = 0;
        proof {
            lemma_prefix_bounds(self.game_field, 8, 0);
        }
        while i < 8
            invariant
                self.wf(),
                0 <= i <= 8,
                score == 10000 + weight_prefix(self.game_field, i as int, 0),
                pos_pieces == pos_prefix(self.game_field, i as int, 0),
                neg_pieces == neg_prefix(self.game_field, i as int, 0),
            decreases 8 - i,
        {
            let mut j: usize = 0;
            while j < 8
                invariant
                    self.wf(),
                    0 <= i < 8,
                    0 <= j <= 8,
                    score == 10000 + weight_prefix(self.game_field, i as int, j as int),
                    pos_pieces == pos_prefix(self.game_field, i as int, j as int),
                    neg_pieces == neg_prefix(self.game_field, i as int, j as int),
                decreases 8 - j,
            {
                proof {
                    lemma_prefix_bounds(self.game_field, i as int, j as int);
                }
                let v = self.game_field[i][j];
                if v == 1 {
                    score = score - (7 + i as i64);
                    pos_pieces = pos_pieces + 1;
                } else if v == 2 {
                    score = score - (21 - i as i64);
                    pos_pieces = pos_pieces + 2;
                } else if v == -1 {
                    score = score + (14 - i as i64);
                    neg_pieces = neg_pieces + 1;
                } else if v == -2 {
                    score = score + (14 + i as i64);
                    neg_pieces = neg_pieces + 2;
                }
                j += 1;
            }
            proof {
                assert(weight_prefix(self.game_field, i as int, 8) == weight_prefix(
                    self.game_field,
                    i as int + 1,
                    0,
                ));
                assert(pos_prefix(self.game_field, i as int, 8) == pos_prefix(
                    self.game_field,
                    i as int + 1,
                    0,
                ));
                assert(neg_prefix(self.game_field, i as int, 8) == neg_prefix(
                    self.game_field,
                    i as int + 1,
                    0,
                ));
            }
            i += 1;
        }
        proof {
            lemma_prefix_bounds(self.game_field, 8, 0);
        }
        if pos_pieces == 0 {
            return i64::MAX;
        }
        if neg_pieces == 0 {
            return i64::MIN + 1;
        }
        score + (neg_pieces - pos_pieces) * 10
    }
}

impl<'game> TerminalState for Impasse<'game> {
    open spec fn spec_terminal(&self) -> bool {
        !(exists|r: int, c: int|
            0 <= r < 8 && 0 <= c < 8 && #[trigger] self.game_field[r][c] > 0) || !(exists|
            r: int,
            c: int,
        |
            0 <= r < 8 && 0 <= c < 8 && #[trigger] self.game_field[r][c] < 0)
    }

    fn is_terminal(&self) -> (r: bool) {
        let mut pos_players = false;
        let mut neg_players = false;
        let mut i: usize = 0;
        while i < 8
            invariant
                0 <= i <= 8,
                pos_players == exists|r: int, c: int|
                    0 <= r < i && 0 <= c < 8 && #[trigger] self.game_field[r][c] > 0,
                neg_players == exists|r: int, c: int|
                    0 <= r < i && 0 <= c < 8 && #[trigger] self.game_field[r][c] < 0,
            decreases 8 - i,
        {
            let mut j: usize = 0;
            while j < 8
                invariant
                    0 <= i < 8,
                    0 <= j <= 8,
                    pos_players == exists|r: int, c: int|
                        (0 <= r < i && 0 <= c < 8 || r == i && 0 <= c < j)
                            && #[trigger] self.game_field[r][c] > 0,
                    neg_players == exists|r: int, c: int|
                        (0 <= r < i && 0 <= c < 8 || r == i && 0 <= c < j)
                            && #[trigger] self.game_field[r][c] < 0,
                decreases 8 - j,
            {
                if self.game_field[i][j] > 0 {
                    pos_players = true;
                }
                if self.game_field[i][j] < 0 {
                    neg_players = true;
                }
                j += 1;
            }
            i += 1;
        }
        !pos_players || !neg_players
    }
}

/// The random-table index of a piece kind.
pub open spec fn spec_get_hash(number: i64) -> int {
    if number == -2 {
        0
    } else if number == -1 {
        1
    } else if number == 1 {
        2
    } else {
        3
    }
}

/// The random-table index of a piece kind; only real pieces have one.
pub fn get_hash(number: i64) -> (r: usize)
    requires
        number == -2 || number == -1 || number == 1 || number == 2,
    ensures
        r == spec_get_hash(number),
{
    if number == -2 {
        0
    } else if number == -1 {
        1
    } else if number == 1 {
        2
    } else {
        3
    }
}

/// XOR of the random values of the occupied cells before `(row, col)` in
/// row-major order.
pub open spec fn hash_prefix(s: Impasse, row: int, col: int) -> u64
    decreases row, col,
{
    if row <= 0 && col <= 0 {
        0u64
    } else if col <= 0 {
        hash_prefix(s, row - 1, 8)
    } else {
        let rest = hash_prefix(s, row, col - 1);
        let v = s.game_field[row][col - 1];
        if v != 0 {
            rest ^ s.hash_field[row][col - 1][spec_get_hash(v)]
        } else {
            rest
        }
    }
}

impl<'game> StateHash for Impasse<'game> {
    open spec fn spec_hash(&self, color: bool) -> i64 {
        (hash_prefix(*self, 8, 0) ^ (if color {
            1u64
        } else {
            0u64
        })) as i64
    }

    fn hash(&self, color: bool) -> (r: i64) {
        let mut hash_val: u64 = 0;
        let mut i: usize = 0;
        while i < 8
            invariant
                self.wf(),
                0 <= i <= 8,
                hash_val == hash_prefix(*self, i as int, 0),
            decreases 8 - i,
        {
            let mut j: usize = 0;
            while j < 8
                invariant
                    self.wf(),
                    0 <= i < 8,
                    0 <= j <= 8,
                    hash_val == hash_prefix(*self, i as int, j as int),
                decreases 8 - j,
            {
                if self.game_field[i][j] != 0 {
                    hash_val = hash_val ^ self.hash_field[i][j][get_hash(self.game_field[i][j])];
                }
                j += 1;
            }
            proof {
                assert(hash_prefix(*self, i as int, 8) == hash_prefix(*self, i as int + 1, 0));
            }
            i += 1;
        }
        let bit: u64 = if color {
            1
        } else {
            0
        };
        (hash_val ^ bit) as i64
    }

    fn eq_state(&self, other: &Self) -> (r: bool) {
        *self == *other
    }
}

pub open spec fn default_position() -> Position {
    Position { x: 0, y: 0, old_sign: 3, new_sign: 3 }
}

/// The board with `v` written into cell `(x, y)`.
pub open spec fn set_cell(f: GameField, x: int, y: int, v: i64) -> GameField {
    vstd::array::spec_array_update(f, x, vstd::array::spec_array_update(f[x], y, v))
}

proof fn lemma_set_cell(f: GameField, x: int, y: int, v: i64)
    requires
        0 <= x < 8,
        0 <= y < 8,
    ensures
        forall|a: int, b: int|
            0 <= a < 8 && 0 <= b < 8 && !(a == x && b == y) ==> #[trigger] set_cell(f, x, y, v)[a][b]
                == f[a][b],
        set_cell(f, x, y, v)[x][y] == v,
{
    assert forall|a: int, b: int|
        0 <= a < 8 && 0 <= b < 8 && !(a == x && b == y) implies #[trigger] set_cell(f, x, y, v)[a][
        b
    ] == f[a][b] by {
        if a == x {
            assert(set_cell(f, x, y, v)[a] == vstd::array::spec_array_update(f[x], y, v));
        } else {
            assert(set_cell(f, x, y, v)[a] == f[a]);
        }
    }
}

/// One slot applied forwards: an active slot writes its new sign.
pub open spec fn apply_new(f: GameField, p: Position) -> GameField {
    if p.is_active() {
        set_cell(f, p.x as int, p.y as int, p.new_sign)
    } else {
        f
    }
}

/// One slot applied backwards: an active slot writes its old sign.
pub open spec fn apply_old(f: GameField, p: Position) -> GameField {
    if p.is_active() {
        set_cell(f, p.x as int, p.y as int, p.old_sign)
    } else {
        f
    }
}

/// The board after playing `m`: the slots applied in order.
pub open spec fn impasse_apply(s: Impasse, m: Move) -> Impasse {
    Impasse {
        game_field: apply_new(
            apply_new(apply_new(s.game_field, m.positions[0]), m.positions[1]),
            m.positions[2],
        ),
        hash_field: s.hash_field,
    }
}

/// The board after taking `m` back: the slots restored in order.
pub open spec fn impasse_undo(s: Impasse, m: Move) -> Impasse {
    Impasse {
        game_field: apply_old(
            apply_old(apply_old(s.game_field, m.positions[0]), m.positions[1]),
            m.positions[2],
        ),
        hash_field: s.hash_field,
    }
}

/// An active slot points at a real cell, carries signs a board can hold, and
/// records the sign the cell currently has.
pub open spec fn slot_ok(f: GameField, p: Position) -> bool {
    p.is_active() ==> {
        &&& p.x < 8
        &&& p.y < 8
        &&& -2 <= p.old_sign <= 2
        &&& -2 <= p.new_sign <= 2
        &&& f[p.x as int][p.y as int] == p.old_sign
    }
}

/// No two active slots point at the same cell.
pub open spec fn slots_distinct(m: Move) -> bool {
    let p0 = m.positions[0];
    let p1 = m.positions[1];
    let p2 = m.positions[2];
    &&& (p0.is_active() && p1.is_active() ==> !(p0.x == p1.x && p0.y == p1.y))
    &&& (p0.is_active() && p2.is_active() ==> !(p0.x == p2.x && p0.y == p2.y))
    &&& (p1.is_active() && p2.is_active() ==> !(p1.x == p2.x && p1.y == p2.y))
}

/// A move that is coherent with the board it is applied to: its kind is a
/// real one, its active slots point at board cells and record their current
/// signs, and no two active slots share a cell.
pub open spec fn impasse_valid_move(s: Impasse, m: Move) -> bool {
    &&& m.move_type != MoveType::Invalid
    &&& slot_ok(s.game_field, m.positions[0])
    &&& slot_ok(s.game_field, m.positions[1])
    &&& slot_ok(s.game_field, m.positions[2])
    &&& slots_distinct(m)
}

/// After a valid move, each cell holds the new sign of the slot that wrote
/// it, and every other cell is unchanged.
proof fn lemma_apply_cells(s: Impasse, m: Move)
    requires
        impasse_valid_move(s, m),
    ensures
        forall|k: int|
            0 <= k < 3 && (#[trigger] m.positions[k]).is_active() ==> impasse_apply(
                s,
                m,
            ).game_field[m.positions[k].x as int][m.positions[k].y as int]
                == m.positions[k].new_sign,
        forall|a: int, b: int|
            0 <= a < 8 && 0 <= b < 8 && !(exists|k: int|
                0 <= k < 3 && (#[trigger] m.positions[k]).is_active() && m.positions[k].x == a
                    && m.positions[k].y == b) ==> #[trigger] impasse_apply(s, m).game_field[a][b]
                == s.game_field[a][b],
{
    let p0 = m.positions[0];
    let p1 = m.positions[1];
    let p2 = m.positions[2];
    if p0.is_active() {
        lemma_set_cell(s.game_field, p0.x as int, p0.y as int, p0.new_sign);
    }
    let f1 = apply_new(s.game_field, p0);
    if p1.is_active() {
        lemma_set_cell(f1, p1.x as int, p1.y as int, p1.new_sign);
    }
    let f2 = apply_new(f1, p1);
    if p2.is_active() {
        lemma_set_cell(f2, p2.x as int, p2.y as int, p2.new_sign);
    }
}

/// Undoing a valid move right after applying it restores the board.
proof fn lemma_impasse_apply_undo(s: Impasse, m: Move)
    requires
        impasse_valid_move(s, m),
    ensures
        impasse_undo(impasse_apply(s, m), m) == s,
{
    let p0 = m.positions[0];
    let p1 = m.positions[1];
    let p2 = m.positions[2];
    let f0 = s.game_field;
    let f1 = apply_new(f0, p0);
    let f2 = apply_new(f1, p1);
    let f3 = apply_new(f2, p2);
    let g1 = apply_old(f3, p0);
    let g2 = apply_old(g1, p1);
    let g3 = apply_old(g2, p2);
    if p0.is_active() {
        lemma_set_cell(f0, p0.x as int, p0.y as int, p0.new_sign);
        lemma_set_cell(f3, p0.x as int, p0.y as int, p0.old_sign);
    }
    if p1.is_active() {
        lemma_set_cell(f1, p1.x as int, p1.y as int, p1.new_sign);
        lemma_set_cell(g1, p1.x as int, p1.y as int, p1.old_sign);
    }
    if p2.is_active() {
        lemma_set_cell(f2, p2.x as int, p2.y as int, p2.new_sign);
        lemma_set_cell(g2, p2.x as int, p2.y as int, p2.old_sign);
    }
    assert forall|a: int| 0 <= a < 8 implies #[trigger] g3[a] == f0[a] by {
        assert forall|b: int| 0 <= b < 8 implies #[trigger] g3[a][b] == f0[a][b] by {
            if p2.is_active() && p2.x == a && p2.y == b {
            } else if p1.is_active() && p1.x == a && p1.y == b {
            } else if p0.is_active() && p0.x == a && p0.y == b {
            } else {
            }
        }
        assert(g3[a] =~= f0[a]);
    }
    assert(g3 =~= f0);
}

/// A valid move keeps every cell within the board's sign range.
proof fn lemma_impasse_apply_wf(s: Impasse, m: Move)
    requires
        s.wf(),
        impasse_valid_move(s, m),
    ensures
        impasse_apply(s, m).wf(),
{
    lemma_apply_cells(s, m);
    let nf = impasse_apply(s, m).game_field;
    assert forall|a: int, b: int| 0 <= a < 8 && 0 <= b < 8 implies -2 <= #[trigger] nf[a][b]
        <= 2 by {
        if exists|k: int|
            0 <= k < 3 && (#[trigger] m.positions[k]).is_active() && m.positions[k].x == a
                && m.positions[k].y == b {
        } else {
        }
    }
}

// Board construction.
/// The sign the opening position gives to each cell.
pub open spec fn default_cell(r: int, c: int) -> i64 {
    if r == 0 && c == 1 {
        2i64
    } else if r == 0 && c == 3 {
        -1i64
    } else if r == 0 && c == 5 {
        2i64
    } else if r == 0 && c == 7 {
        -1i64
    } else if r == 1 && c == 0 {
        -1i64
    } else if r == 1 && c == 2 {
        2i64
    } else if r == 1 && c == 4 {
        -1i64
    } else if r == 1 && c == 6 {
        2i64
    } else if r == 6 && c == 1 {
        -2i64
    } else if r == 6 && c == 3 {
        1i64
    } else if r == 6 && c == 5 {
        -2i64
    } else if r == 6 && c == 7 {
        1i64
    } else if r == 7 && c == 0 {
        1i64
    } else if r == 7 && c == 2 {
        -2i64
    } else if r == 7 && c == 4 {
        1i64
    } else if r == 7 && c == 6 {
        -2i64
    } else {
        0i64
    }
}

pub open spec fn is_default_field(f: GameField) -> bool {
    forall|r: int, c: int| 0 <= r < 8 && 0 <= c < 8 ==> #[trigger] f[r][c] == default_cell(r, c)
}

/// Builds the opening position.
pub fn gen_default_field() -> (r: GameField)
    ensures
        is_default_field(r),
{
    let mut game_field: GameField = [
        [0i64, 0, 0, 0, 0, 0, 0, 0],
        [0i64, 0, 0, 0, 0, 0, 0, 0],
        [0i64, 0, 0, 0, 0, 0, 0, 0],
        [0i64, 0, 0, 0, 0, 0, 0, 0],
        [0i64, 0, 0, 0, 0, 0, 0, 0],
        [0i64, 0, 0, 0, 0, 0, 0, 0],
        [0i64, 0, 0, 0, 0, 0, 0, 0],
        [0i64, 0, 0, 0, 0, 0, 0, 0],
    ];
    game_field[0][1] = 2;
    game_field[0][3] = -1;
    game_field[0][5] = 2;
    game_field[0][7] = -1;
    game_field[1][0] = -1;
    game_field[1][2] = 2;
    game_field[1][4] = -1;
    game_field[1][6] = 2;
    game_field[6][1] = -2;
    game_field[6][3] = 1;
    game_field[6][5] = -2;
    game_field[6][7] = 1;
    game_field[7][0] = 1;
    game_field[7][2] = -2;
    game_field[7][4] = 1;
    game_field[7][6] = -2;
    game_field
}

/// The deterministic random table drawn from a seed.
pub uninterp spec fn zobrist_field_of(seed: u64) -> HashField;

/// The display character of a cell sign.
pub fn get_char(number: i64) -> (r: char)
    ensures
        number == -2 ==> r == 'X',
        number == -1 ==> r == 'x',
        number == 1 ==> r == 'o',
        number == 2 ==> r == 'O',
        number != -2 && number != -1 && number != 1 && number != 2 ==> r == '_',
{
    if number == -2 {
        'X'
    } else if number == -1 {
        'x'
    } else if number == 1 {
        'o'
    } else if number == 2 {
        'O'
    } else {
        '_'
    }
}

impl<'game> Impasse<'game> {
    /// The opening position over a given random table.
    pub fn new(hash_field: &'game HashField) -> (r: Self)
        ensures
            is_default_field(r.game_field),
            r.hash_field == hash_field,
            r.wf(),
    {
        let r = Impasse { game_field: gen_default_field(), hash_field };
        r
    }

    /// Draws the game's random fingerprint table from a seed.
    ///
    /// Relies on rand's `StdRng::seed_from_u64` and `Rng::gen`: `StdRng` is
    /// a deterministic generator, so the drawn table is a function of the
    /// seed alone.
    #[verifier::external_body]
    pub fn gen_hash_field(seed: u64) -> (r: HashField)
        ensures
            r == zobrist_field_of(seed),
    {
        let mut rng = <rand::rngs::StdRng as rand::SeedableRng>::seed_from_u64(seed);
        rand::Rng::gen(&mut rng)
    }
}

// The move generator's board predicates.
pub open spec fn spec_can_bear_off(f: GameField, x: int, y: int) -> bool {
    f[x][y] == 2 && x == 7 || f[x][y] == -2 && x == 0
}

pub open spec fn spec_in_final_row(f: GameField, x: int, y: int) -> bool {
    x == 0 && f[x][y] == 1 || x == 7 && f[x][y] == -1
}

pub open spec fn spec_is_free(f: GameField, x: int, y: int) -> bool {
    f[x][y] == 0
}

pub open spec fn spec_piece_is_valid(f: GameField, x: int, y: int, color: bool) -> bool {
    !(f[x][y] == 0 || (color && f[x][y] < 0 || !color && f[x][y] > 0))
}

pub open spec fn spec_is_possible_pawn(f: GameField, x: int, y: int, i: int, j: int) -> bool {
    (x != i || y != j) && f[x][y] == f[i][j]
}

pub open spec fn spec_is_crown(f: GameField, color: bool, i: int) -> bool {
    color && f[0][i] == 1 || !color && f[7][i] == -1
}

pub open spec fn spec_can_transpose(f: GameField, x: int, y: int, nx: int, ny: int) -> bool {
    &&& (if x >= nx {
        x - nx
    } else {
        nx - x
    }) == 1
    &&& (if y >= ny {
        y - ny
    } else {
        ny - y
    }) == 1
    &&& f[x][y] * 2 == f[nx][ny]
}

pub open spec fn spec_can_crown_self(f: GameField, x: int, y: int) -> bool {
    &&& (f[x][y] == 1 || f[x][y] == -1)
    &&& (x == 0 || x == 7)
    &&& exists|i: int, j: int| 0 <= i < 8 && 0 <= j < 8 && spec_is_possible_pawn(f, x, y, i, j)
}

pub open spec fn spec_can_crown_other(f: GameField, color: bool) -> bool {
    exists|i: int| 0 <= i < 8 && spec_is_crown(f, color, i)
}

/// The single pawns that could pair with the piece on `(x, y)` for a crown,
/// scanning from cell `(i, j)` onward in row-major order.
pub open spec fn pawns_from(f: GameField, x: int, y: int, i: int, j: int) -> Seq<(usize, usize)>
    decreases 8 - i, 8 - j,
{
    if i < 0 || j < 0 || i >= 8 {
        Seq::empty()
    } else if j >= 8 {
        pawns_from(f, x, y, i + 1, 0)
    } else {
        let rest = pawns_from(f, x, y, i, j + 1);
        if spec_is_possible_pawn(f, x, y, i, j) {
            seq![(i as usize, j as usize)] + rest
        } else {
            rest
        }
    }
}

/// The columns of the back row holding a single waiting to be crowned,
/// scanning from column `i` onward.
pub open spec fn crowns_from(f: GameField, color: bool, i: int) -> Seq<usize>
    decreases 8 - i,
{
    if i < 0 || i >= 8 {
        Seq::empty()
    } else {
        let rest = crowns_from(f, color, i + 1);
        if spec_is_crown(f, color, i) {
            seq![i as usize] + rest
        } else {
            rest
        }
    }
}

proof fn lemma_pawns_from_props(f: GameField, x: int, y: int, i: int, j: int)
    ensures
        forall|k: int|
            0 <= k < pawns_from(f, x, y, i, j).len() ==> {
                let p = #[trigger] pawns_from(f, x, y, i, j)[k];
                p.0 < 8 && p.1 < 8 && spec_is_possible_pawn(f, x, y, p.0 as int, p.1 as int)
            },
    decreases 8 - i, 8 - j,
{
    if i < 0 || j < 0 || i >= 8 {
    } else if j >= 8 {
        lemma_pawns_from_props(f, x, y, i + 1, 0);
        assert(pawns_from(f, x, y, i, j) == pawns_from(f, x, y, i + 1, 0));
    } else {
        lemma_pawns_from_props(f, x, y, i, j + 1);
        let rest = pawns_from(f, x, y, i, j + 1);
        if !spec_is_possible_pawn(f, x, y, i, j) {
            assert(pawns_from(f, x, y, i, j) == rest);
        }
        if spec_is_possible_pawn(f, x, y, i, j) {
            assert forall|k: int| 0 <= k < pawns_from(f, x, y, i, j).len() implies {
                let p = #[trigger] pawns_from(f, x, y, i, j)[k];
                p.0 < 8 && p.1 < 8 && spec_is_possible_pawn(f, x, y, p.0 as int, p.1 as int)
            } by {
                if k == 0 {
                    assert(pawns_from(f, x, y, i, j)[0] == (i as usize, j as usize));
                } else {
                    assert(pawns_from(f, x, y, i, j)[k] == rest[k - 1]);
                }
            }
        }
    }
}

proof fn lemma_crowns_from_props(f: GameField, color: bool, i: int)
    ensures
        forall|k: int|
            0 <= k < crowns_from(f, color, i).len() ==> {
                let c = #[trigger] crowns_from(f, color, i)[k];
                c < 8 && spec_is_crown(f, color, c as int)
            },
    decreases 8 - i,
{
    if i < 0 || i >= 8 {
    } else {
        lemma_crowns_from_props(f, color, i + 1);
        let rest = crowns_from(f, color, i + 1);
        if !spec_is_crown(f, color, i) {
            assert(crowns_from(f, color, i) == rest);
        }
        if spec_is_crown(f, color, i) {
            assert forall|k: int| 0 <= k < crowns_from(f, color, i).len() implies {
                let c = #[trigger] crowns_from(f, color, i)[k];
                c < 8 && spec_is_crown(f, color, c as int)
            } by {
                if k == 0 {
                    assert(crowns_from(f, color, i)[0] == i as usize);
                } else {
                    assert(crowns_from(f, color, i)[k] == rest[k - 1]);
                }
            }
        }
    }
}

// The move constructors, as values.
pub open spec fn spec_gen_move_impasse(f: GameField, x: int, y: int) -> Move {
    let v = f[x][y];
    let new_sign: i64 = if v == 2 {
        1i64
    } else if v == -2 {
        -1i64
    } else {
        0i64
    };
    Move {
        move_type: MoveType::Impasse,
        positions: [
            Position { x: x as usize, y: y as usize, old_sign: v, new_sign },
            default_position(),
            default_position(),
        ],
    }
}

pub open spec fn spec_gen_move_normal(f: GameField, x: int, y: int, nx: int, ny: int) -> Move {
    Move {
        move_type: MoveType::Normal,
        positions: [
            Position { x: x as usize, y: y as usize, old_sign: f[x][y], new_sign: 0 },
            Position { x: nx as usize, y: ny as usize, old_sign: f[nx][ny], new_sign: f[x][y] },
            default_position(),
        ],
    }
}

pub open spec fn spec_gen_move_transpose(f: GameField, x: int, y: int, nx: int, ny: int) -> Move {
    Move {
        move_type: MoveType::Transpose,
        positions: [
            Position { x: x as usize, y: y as usize, old_sign: f[x][y], new_sign: f[nx][ny] },
            Position { x: nx as usize, y: ny as usize, old_sign: f[nx][ny], new_sign: f[x][y] },
            default_position(),
        ],
    }
}

impl<'game> Impasse<'game> {
    pub fn can_bear_off(&self, x: usize, y: usize) -> (r: bool)
        requires
            x < 8,
            y < 8,
        ensures
            r == spec_can_bear_off(self.game_field, x as int, y as int),
    {
        self.game_field[x][y] == 2 && x == 7 || self.game_field[x][y] == -2 && x == 0
    }

    pub fn in_final_row(&self, x: usize, y: usize) -> (r: bool)
        requires
            x < 8,
            y < 8,
        ensures
            r == spec_in_final_row(self.game_field, x as int, y as int),
    {
        x == 0 && self.game_field[x][y] == 1 || x == 7 && self.game_field[x][y] == -1
    }

    pub fn is_free(&self, x: usize, y: usize) -> (r: bool)
        requires
            x < 8,
            y < 8,
        ensures
            r == spec_is_free(self.game_field, x as int, y as int),
    {
        self.game_field[x][y] == 0
    }

    pub fn piece_is_valid(&self, x: usize, y: usize, color: bool) -> (r: bool)
        requires
            x < 8,
            y < 8,
        ensures
            r == spec_piece_is_valid(self.game_field, x as int, y as int, color),
    {
        !(self.game_field[x][y] == 0 || (color && self.game_field[x][y] < 0 || !color
            && self.game_field[x][y] > 0))
    }

    pub fn is_possible_pawn(&self, x: usize, y: usize, x_other: usize, y_other: usize) -> (r: bool)
        requires
            x < 8,
            y < 8,
            x_other < 8,
            y_other < 8,
        ensures
            r == spec_is_possible_pawn(
                self.game_field,
                x as int,
                y as int,
                x_other as int,
                y_other as int,
            ),
    {
        (x != x_other || y != y_other) && self.game_field[x][y]
            == self.game_field[x_other][y_other]
    }

    pub fn is_crown(&self, color: bool, i: usize) -> (r: bool)
        requires
            i < 8,
        ensures
            r == spec_is_crown(self.game_field, color, i as int),
    {
        color && self.game_field[0][i] == 1 || !color && self.game_field[7][i] == -1
    }

    pub fn can_transpose(&self, x: usize, y: usize, nex: usize, ney: usize) -> (r: bool)
        requires
            self.wf(),
            x < 8,
            y < 8,
            nex < 8,
            ney < 8,
        ensures
            r == spec_can_transpose(self.game_field, x as int, y as int, nex as int, ney as int),
    {
        let dx = if x >= nex {
            x - nex
        } else {
            nex - x
        };
        let dy = if y >= ney {
            y - ney
        } else {
            ney - y
        };
        dx == 1 && dy == 1 && self.game_field[x][y] * 2 == self.game_field[nex][ney]
    }

    pub fn can_crown_self(&self, x: usize, y: usize) -> (r: bool)
        requires
            x < 8,
            y < 8,
        ensures
            r == spec_can_crown_self(self.game_field, x as int, y as int),
    {
        if !(self.game_field[x][y] == 1 || self.game_field[x][y] == -1) || !(x == 0 || x == 7) {
            return false;
        }
        let mut i: usize = 0;
        while i < 8
            invariant
                x < 8,
                y < 8,
                0 <= i <= 8,
                self.game_field[x as int][y as int] == 1 || self.game_field[x as int][y as int]
                    == -1,
                x == 0 || x == 7,
                forall|a: int, b: int|
                    0 <= a < i && 0 <= b < 8 ==> !spec_is_possible_pawn(
                        self.game_field,
                        x as int,
                        y as int,
                        a,
                        b,
                    ),
            decreases 8 - i,
        {
            let mut j: usize = 0;
            while j < 8
                invariant
                    x < 8,
                    y < 8,
                    0 <= i < 8,
                    0 <= j <= 8,
                    self.game_field[x as int][y as int] == 1 || self.game_field[x as int][y as int]
                        == -1,
                    x == 0 || x == 7,
                    forall|a: int, b: int|
                        0 <= a < i && 0 <= b < 8 ==> !spec_is_possible_pawn(
                            self.game_field,
                            x as int,
                            y as int,
                            a,
                            b,
                        ),
                    forall|b: int|
                        0 <= b < j ==> !spec_is_possible_pawn(
                            self.game_field,
                            x as int,
                            y as int,
                            i as int,
                            b,
                        ),
                decreases 8 - j,
            {
                if self.is_possible_pawn(x, y, i, j) {
                    return true;
                }
                j += 1;
            }
            i += 1;
        }
        false
    }

    pub fn can_crown_other(&self, color: bool) -> (r: bool)
        ensures
            r == spec_can_crown_other(self.game_field, color),
    {
        let mut i: usize = 0;
        while i < 8
            invariant
                0 <= i <= 8,
                forall|a: int| 0 <= a < i ==> !spec_is_crown(self.game_field, color, a),
            decreases 8 - i,
        {
            if self.is_crown(color, i) {
                return true;
            }
            i += 1;
        }
        false
    }

    pub fn possible_crown_pawns(&self, x: usize, y: usize) -> (r: Vec<(usize, usize)>)
        requires
            x < 8,
            y < 8,
        ensures
            r@ == pawns_from(self.game_field, x as int, y as int, 0, 0),
    {
        let mut pawns: Vec<(usize, usize)> = Vec::new();
        let mut i: usize = 0;
        proof {
            assert(pawns@ + pawns_from(self.game_field, x as int, y as int, 0, 0) =~= pawns_from(
                self.game_field,
                x as int,
                y as int,
                0,
                0,
            ));
        }
        while i < 8
            invariant
                x < 8,
                y < 8,
                0 <= i <= 8,
                pawns_from(self.game_field, x as int, y as int, 0, 0) == pawns@ + pawns_from(
                    self.game_field,
                    x as int,
                    y as int,
                    i as int,
                    0,
                ),
            decreases 8 - i,
        {
            let mut j: usize = 0;
            while j < 8
                invariant
                    x < 8,
                    y < 8,
                    0 <= i < 8,
                    0 <= j <= 8,
                    pawns_from(self.game_field, x as int, y as int, 0, 0) == pawns@ + pawns_from(
                        self.game_field,
                        x as int,
                        y as int,
                        i as int,
                        j as int,
                    ),
                decreases 8 - j,
            {
                if self.is_possible_pawn(x, y, i, j) {
                    pawns.push((i, j));
                    proof {
                        let front = seq![(i, j)];
                        let rest = pawns_from(
                            self.game_field,
                            x as int,
                            y as int,
                            i as int,
                            j as int + 1,
                        );
                        assert(pawns@ =~= pawns@.drop_last() + front);
                        assert((pawns@.drop_last() + front) + rest =~= pawns@.drop_last() + (front
                        + rest));
                    }
                }
                j += 1;
            }
            proof {
                assert(pawns_from(self.game_field, x as int, y as int, i as int, 8)
                    == pawns_from(self.game_field, x as int, y as int, i as int + 1, 0));
            }
            i += 1;
        }
        proof {
            assert(pawns@ + pawns_from(self.game_field, x as int, y as int, 8, 0) =~= pawns@);
        }
        pawns
    }

    pub fn waiting_crowns(&self, color: bool) -> (r: Vec<usize>)
        ensures
            r@ == crowns_from(self.game_field, color, 0),
    {
        let mut crowns: Vec<usize> = Vec::new();
        let mut i: usize = 0;
        proof {
            assert(crowns@ + crowns_from(self.game_field, color, 0) =~= crowns_from(
                self.game_field,
                color,
                0,
            ));
        }
        while i < 8
            invariant
                0 <= i <= 8,
                crowns_from(self.game_field, color, 0) == crowns@ + crowns_from(
                    self.game_field,
                    color,
                    i as int,
                ),
            decreases 8 - i,
        {
            if self.is_crown(color, i) {
                crowns.push(i);
                proof {
                    let front = seq![i];
                    let rest = crowns_from(self.game_field, color, i as int + 1);
                    assert(crowns@ =~= crowns@.drop_last() + front);
                    assert((crowns@.drop_last() + front) + rest =~= crowns@.drop_last() + (front
                    + rest));
                }
            }
            i += 1;
        }
        proof {
            assert(crowns@ + crowns_from(self.game_field, color, 8) =~= crowns@);
        }
        crowns
    }

    pub fn gen_move_impasse(&self, x: usize, y: usize) -> (r: Move)
        requires
            self.wf(),
            x < 8,
            y < 8,
        ensures
            r == spec_gen_move_impasse(self.game_field, x as int, y as int),
    {
        let v = self.game_field[x][y];
        let new_sign: i64 = if v == 2 {
            1
        } else if v == -2 {
            -1
        } else {
            0
        };
        let defp = Position { x: 0, y: 0, old_sign: 3, new_sign: 3 };
        Move {
            move_type: MoveType::Impasse,
            positions: [Position { x, y, old_sign: v, new_sign }, defp, defp],
        }
    }

    pub fn gen_move_normal(&self, x: usize, y: usize, new_x: usize, new_y: usize) -> (r: Move)
        requires
            x < 8,
            y < 8,
            new_x < 8,
            new_y < 8,
        ensures
            r == spec_gen_move_normal(self.game_field, x as int, y as int, new_x as int, new_y as int),
    {
        let defp = Position { x: 0, y: 0, old_sign: 3, new_sign: 3 };
        Move {
            move_type: MoveType::Normal,
            positions: [
                Position { x, y, old_sign: self.game_field[x][y], new_sign: 0 },
                Position {
                    x: new_x,
                    y: new_y,
                    old_sign: self.game_field[new_x][new_y],
                    new_sign: self.game_field[x][y],
                },
                defp,
            ],
        }
    }

    pub fn gen_move_transpose(&self, x: usize, y: usize, nex: usize, ney: usize) -> (r: Move)
        requires
            x < 8,
            y < 8,
            nex < 8,
            ney < 8,
        ensures
            r == spec_gen_move_transpose(self.game_field, x as int, y as int, nex as int, ney as int),
    {
        let defp = Position { x: 0, y: 0, old_sign: 3, new_sign: 3 };
        Move {
            move_type: MoveType::Transpose,
            positions: [
                Position { x, y, old_sign: self.game_field[x][y], new_sign: self.game_field[nex][ney] },
                Position {
                    x: nex,
                    y: ney,
                    old_sign: self.game_field[nex][ney],
                    new_sign: self.game_field[x][y],
                },
                defp,
            ],
        }
    }
}

// Crown moves: pairing a pawn that reached or waits at the back row with
// another single, inside one move value.
/// One slot of the base move after the crown pairing touched it.
pub open spec fn crown_slot(p: Position, pawn_x: int, pawn_y: int, crown_x: int, crown_y: int) -> Position {
    if p.is_active() && p.x == pawn_x && p.y == pawn_y {
        Position { new_sign: 0, ..p }
    } else if p.is_active() && p.x == crown_x && p.y == crown_y {
        Position { new_sign: (p.new_sign * 2) as i64, ..p }
    } else {
        p
    }
}

/// Whether the base move already touches the pawn cell.
pub open spec fn crown_set_pawn(m: Move, pawn_x: int, pawn_y: int) -> bool {
    ||| (m.positions[0].is_active() && m.positions[0].x == pawn_x && m.positions[0].y == pawn_y)
    ||| (m.positions[1].is_active() && m.positions[1].x == pawn_x && m.positions[1].y == pawn_y)
    ||| (m.positions[2].is_active() && m.positions[2].x == pawn_x && m.positions[2].y == pawn_y)
}

/// Whether the base move already touches the crown cell.
pub open spec fn crown_set_crown(m: Move, crown_x: int, crown_y: int) -> bool {
    ||| (m.positions[0].is_active() && m.positions[0].x == crown_x && m.positions[0].y == crown_y)
    ||| (m.positions[1].is_active() && m.positions[1].x == crown_x && m.positions[1].y == crown_y)
    ||| (m.positions[2].is_active() && m.positions[2].x == crown_x && m.positions[2].y == crown_y)
}

/// The first free slot of the base move.
pub open spec fn crown_free0(m: Move) -> int {
    if m.positions[0] == default_position() {
        0
    } else if m.positions[1] == default_position() {
        1
    } else if m.positions[2] == default_position() {
        2
    } else {
        3
    }
}

/// The crown move built from `base` on the played-out board `af`: the pawn
/// cell empties, the crown cell doubles, through the base move's own slots
/// where it already touches them and through fresh slots where it does not.
pub open spec fn spec_gen_move_crown(
    af: GameField,
    base: Move,
    pawn_x: int,
    pawn_y: int,
    crown_x: int,
    crown_y: int,
) -> Move {
    let q = vstd::array::spec_array_update(
        vstd::array::spec_array_update(
            vstd::array::spec_array_update(
                base.positions,
                0,
                crown_slot(base.positions[0], pawn_x, pawn_y, crown_x, crown_y),
            ),
            1,
            crown_slot(base.positions[1], pawn_x, pawn_y, crown_x, crown_y),
        ),
        2,
        crown_slot(base.positions[2], pawn_x, pawn_y, crown_x, crown_y),
    );
    let free0 = crown_free0(base);
    let set_pawn = crown_set_pawn(base, pawn_x, pawn_y);
    let set_crown = crown_set_crown(base, crown_x, crown_y);
    let with_pawn = if !set_pawn {
        vstd::array::spec_array_update(
            q,
            free0,
            Position {
                x: pawn_x as usize,
                y: pawn_y as usize,
                old_sign: af[pawn_x][pawn_y],
                new_sign: 0,
            },
        )
    } else {
        q
    };
    let free1 = if set_pawn {
        free0
    } else {
        free0 + 1
    };
    let with_crown = if !set_crown {
        vstd::array::spec_array_update(
            with_pawn,
            free1,
            Position {
                x: crown_x as usize,
                y: crown_y as usize,
                old_sign: af[crown_x][crown_y],
                new_sign: (af[crown_x][crown_y] * 2) as i64,
            },
        )
    } else {
        with_pawn
    };
    Move { move_type: base.move_type.spec_combine(MoveType::Crown), positions: with_crown }
}

/// The shape the crown pairing needs of a base move: unused slots hold the
/// sentinel, the last slot is unused, active slots are board-sized, no two
/// active slots share a cell, and one active slot is the landing cell
/// `(tx, ty)` the crown decision is made for.
pub open spec fn crown_base_ok(m: Move, tx: int, ty: int) -> bool {
    &&& (!m.positions[0].is_active() ==> m.positions[0] == default_position())
    &&& (!m.positions[1].is_active() ==> m.positions[1] == default_position())
    &&& m.positions[2] == default_position()
    &&& (m.positions[0].is_active() ==> m.positions[0].x < 8 && m.positions[0].y < 8 && -2
        <= m.positions[0].old_sign <= 2 && -2 <= m.positions[0].new_sign <= 2)
    &&& (m.positions[1].is_active() ==> m.positions[1].x < 8 && m.positions[1].y < 8 && -2
        <= m.positions[1].old_sign <= 2 && -2 <= m.positions[1].new_sign <= 2)
    &&& slots_distinct(m)
    &&& ((m.positions[0].is_active() && m.positions[0].x == tx && m.positions[0].y == ty) || (
    m.positions[1].is_active() && m.positions[1].x == tx && m.positions[1].y == ty))
}

/// All crown moves pairing the landing cell with each candidate pawn.
pub open spec fn crown_self_seq(
    af: GameField,
    m: Move,
    pawns: Seq<(usize, usize)>,
    x: int,
    y: int,
) -> Seq<Move>
    decreases pawns.len(),
{
    if pawns.len() == 0 {
        Seq::empty()
    } else {
        seq![spec_gen_move_crown(af, m, pawns[0].0 as int, pawns[0].1 as int, x, y)]
            + crown_self_seq(af, m, pawns.drop_first(), x, y)
    }
}

/// All crown moves pairing the moved pawn with each waiting back-row single.
pub open spec fn crown_other_seq(
    af: GameField,
    m: Move,
    crowns: Seq<usize>,
    x: int,
    y: int,
    crown_x: int,
) -> Seq<Move>
    decreases crowns.len(),
{
    if crowns.len() == 0 {
        Seq::empty()
    } else {
        seq![spec_gen_move_crown(af, m, x, y, crown_x, crowns[0] as int)]
            + crown_other_seq(af, m, crowns.drop_first(), x, y, crown_x)
    }
}

/// The moves a base move expands to on the played-out board `af`, after the
/// piece landed on `(x, y)`: the move itself, or its crown variants when a
/// single can be crowned.
#[verifier::opaque]
pub open spec fn spec_do_crown(af: GameField, x: int, y: int, m: Move, color: bool) -> Seq<Move> {
    if !(af[x][y] == 1 || af[x][y] == -1) {
        seq![m]
    } else if m.move_type.can_combine(MoveType::Crown) && spec_in_final_row(af, x, y)
        && spec_can_crown_self(af, x, y) {
        crown_self_seq(af, m, pawns_from(af, x, y, 0, 0), x, y)
    } else if m.move_type.can_combine(MoveType::Crown) && !spec_in_final_row(af, x, y)
        && spec_can_crown_other(af, color) {
        crown_other_seq(
            af,
            m,
            crowns_from(af, color, 0),
            x,
            y,
            if color {
                0int
            } else {
                7int
            },
        )
    } else {
        seq![m]
    }
}

/// The base move marked as a bear-off.
pub open spec fn spec_bear_off_move(m: Move) -> Move {
    Move {
        move_type: m.move_type.spec_combine(MoveType::BearOff),
        positions: m.spec_bear_off_positions(),
    }
}

/// The moves a freshly generated base move contributes: marked as a
/// bear-off when the landing doubles out, then crown-expanded.
#[verifier::opaque]
pub open spec fn spec_expand(
    s: Impasse,
    m: Move,
    x: int,
    y: int,
    tx: int,
    ty: int,
    color: bool,
) -> Seq<Move> {
    let nf = impasse_apply(s, m).game_field;
    if spec_can_bear_off(nf, x, y) || spec_can_bear_off(nf, tx, ty) {
        let m2 = spec_bear_off_move(m);
        spec_do_crown(impasse_apply(s, m2).game_field, tx, ty, m2, color)
    } else {
        spec_do_crown(nf, tx, ty, m, color)
    }
}

proof fn lemma_pos3_update(arr: [Position; 3], i: int, v: Position)
    requires
        0 <= i < 3,
    ensures
        vstd::array::spec_array_update(arr, i, v)[i] == v,
        forall|j: int|
            0 <= j < 3 && j != i ==> #[trigger] vstd::array::spec_array_update(arr, i, v)[j]
                == arr[j],
{
}

impl<'game> Impasse<'game> {
    /// Builds one crown move on this played-out board.
    pub fn gen_move_crown(
        &self,
        base: &Move,
        pawn_x: usize,
        pawn_y: usize,
        crown_x: usize,
        crown_y: usize,
    ) -> (r: Move)
        requires
            self.wf(),
            pawn_x < 8,
            pawn_y < 8,
            crown_x < 8,
            crown_y < 8,
            base.positions[2] == default_position(),
            base.positions[0].is_active() ==> -2 <= base.positions[0].new_sign <= 2,
            base.positions[1].is_active() ==> -2 <= base.positions[1].new_sign <= 2,
            base.move_type.can_combine(MoveType::Crown),
            !(pawn_x == crown_x && pawn_y == crown_y),
            crown_set_pawn(*base, pawn_x as int, pawn_y as int) || crown_set_crown(
                *base,
                crown_x as int,
                crown_y as int,
            ),
        ensures
            r == spec_gen_move_crown(
                self.game_field,
                *base,
                pawn_x as int,
                pawn_y as int,
                crown_x as int,
                crown_y as int,
            ),
    {
        let mut positions = base.positions;
        let mut set_pawn = false;
        let mut set_crown = false;
        if positions[0].old_sign != 3 && positions[0].new_sign != 3 {
            if positions[0].x == pawn_x && positions[0].y == pawn_y {
                positions[0].new_sign = 0;
                set_pawn = true;
            } else if positions[0].x == crown_x && positions[0].y == crown_y {
                positions[0].new_sign = positions[0].new_sign * 2;
                set_crown = true;
            }
        }
        if positions[1].old_sign != 3 && positions[1].new_sign != 3 {
            if positions[1].x == pawn_x && positions[1].y == pawn_y {
                positions[1].new_sign = 0;
                set_pawn = true;
            } else if positions[1].x == crown_x && positions[1].y == crown_y {
                positions[1].new_sign = positions[1].new_sign * 2;
                set_crown = true;
            }
        }
        let defp = Position { x: 0, y: 0, old_sign: 3, new_sign: 3 };
        let free0: usize = if base.positions[0] == defp {
            0
        } else if base.positions[1] == defp {
            1
        } else {
            2
        };
        proof {
            assert(crown_free0(*base) == free0 as int);
            let q = vstd::array::spec_array_update(
                vstd::array::spec_array_update(
                    vstd::array::spec_array_update(
                        base.positions,
                        0,
                        crown_slot(
                            base.positions[0],
                            pawn_x as int,
                            pawn_y as int,
                            crown_x as int,
                            crown_y as int,
                        ),
                    ),
                    1,
                    crown_slot(
                        base.positions[1],
                        pawn_x as int,
                        pawn_y as int,
                        crown_x as int,
                        crown_y as int,
                    ),
                ),
                2,
                crown_slot(
                    base.positions[2],
                    pawn_x as int,
                    pawn_y as int,
                    crown_x as int,
                    crown_y as int,
                ),
            );
            assert(positions =~= q);
            assert(set_pawn == crown_set_pawn(*base, pawn_x as int, pawn_y as int));
            assert(set_crown == crown_set_crown(*base, crown_x as int, crown_y as int));
        }
        let mut free = free0;
        if !set_pawn {
            positions[free] = Position {
                x: pawn_x,
                y: pawn_y,
                old_sign: self.game_field[pawn_x][pawn_y],
                new_sign: 0,
            };
            free = free + 1;
        }
        if !set_crown {
            positions[free] = Position {
                x: crown_x,
                y: crown_y,
                old_sign: self.game_field[crown_x][crown_y],
                new_sign: self.game_field[crown_x][crown_y] * 2,
            };
        }
        let r = Move { move_type: base.move_type.combine(MoveType::Crown), positions };
        proof {
            assert(r.positions =~= spec_gen_move_crown(
                self.game_field,
                *base,
                pawn_x as int,
                pawn_y as int,
                crown_x as int,
                crown_y as int,
            ).positions);
        }
        r
    }

    /// Pushes the crown expansion of a move whose piece landed on `(x, y)`
    /// of this played-out board.
    pub fn do_crown(
        &self,
        x: usize,
        y: usize,
        new_move: &Move,
        moves: &mut Vec<Move>,
        color: bool,
    )
        requires
            self.wf(),
            x < 8,
            y < 8,
            crown_base_ok(*new_move, x as int, y as int),
        ensures
            final(moves)@ == old(moves)@ + spec_do_crown(
                self.game_field,
                x as int,
                y as int,
                *new_move,
                color,
            ),
    {
        let ghost m = *new_move;
        proof {
            reveal(spec_do_crown);
        }
        let ghost full = spec_do_crown(self.game_field, x as int, y as int, m, color);
        if !(self.game_field[x][y] == 1 || self.game_field[x][y] == -1) {
            moves.push(*new_move);
            proof {
                assert(final(moves)@ =~= old(moves)@ + full);
            }
            return ;
        }
        let can_comb = new_move.move_type.can_combine_with(MoveType::Crown);
        let in_final = self.in_final_row(x, y);
        if can_comb && in_final && self.can_crown_self(x, y) {
            let pawns = self.possible_crown_pawns(x, y);
            proof {
                lemma_pawns_from_props(self.game_field, x as int, y as int, 0, 0);
            }
            let mut i: usize = 0;
            proof {
                assert(pawns@.skip(0) =~= pawns@);
            }
            while i < pawns.len()
                invariant
                    self.wf(),
                    x < 8,
                    y < 8,
                    crown_base_ok(m, x as int, y as int),
                    m == *new_move,
                    m.move_type.can_combine(MoveType::Crown),
                    0 <= i <= pawns@.len(),
                    pawns@ == pawns_from(self.game_field, x as int, y as int, 0, 0),
                    forall|k: int|
                        0 <= k < pawns@.len() ==> {
                            let p = #[trigger] pawns@[k];
                            p.0 < 8 && p.1 < 8 && spec_is_possible_pawn(
                                self.game_field,
                                x as int,
                                y as int,
                                p.0 as int,
                                p.1 as int,
                            )
                        },
                    moves@ + crown_self_seq(
                        self.game_field,
                        m,
                        pawns@.skip(i as int),
                        x as int,
                        y as int,
                    ) == old(moves)@ + crown_self_seq(
                        self.game_field,
                        m,
                        pawns@,
                        x as int,
                        y as int,
                    ),
                decreases pawns@.len() - i,
            {
                let p = pawns[i];
                let crown_move = self.gen_move_crown(new_move, p.0, p.1, x, y);
                moves.push(crown_move);
                proof {
                    assert(pawns@.skip(i as int)[0] == pawns@[i as int]);
                    assert(pawns@.skip(i as int).drop_first() =~= pawns@.skip(i as int + 1));
                    assert(moves@ =~= moves@.drop_last() + seq![crown_move]);
                    assert((moves@.drop_last() + seq![crown_move]) + crown_self_seq(
                        self.game_field,
                        m,
                        pawns@.skip(i as int + 1),
                        x as int,
                        y as int,
                    ) =~= moves@.drop_last() + (seq![crown_move] + crown_self_seq(
                        self.game_field,
                        m,
                        pawns@.skip(i as int + 1),
                        x as int,
                        y as int,
                    )));
                }
                i += 1;
            }
            proof {
                reveal(spec_do_crown);
                assert(pawns@.skip(pawns@.len() as int) =~= Seq::<(usize, usize)>::empty());
                assert(moves@ + Seq::<Move>::empty() =~= moves@);
            }
        } else if can_comb && !in_final && self.can_crown_other(color) {
            let crown_x: usize = if color {
                0
            } else {
                7
            };
            let crowns = self.waiting_crowns(color);
            proof {
                lemma_crowns_from_props(self.game_field, color, 0);
            }
            let mut i: usize = 0;
            proof {
                assert(crowns@.skip(0) =~= crowns@);
            }
            while i < crowns.len()
                invariant
                    self.wf(),
                    x < 8,
                    y < 8,
                    crown_x == if color {
                        0int
                    } else {
                        7int
                    },
                    crown_base_ok(m, x as int, y as int),
                    m == *new_move,
                    m.move_type.can_combine(MoveType::Crown),
                    !spec_in_final_row(self.game_field, x as int, y as int),
                    self.game_field[x as int][y as int] == 1 || self.game_field[x as int][y as int]
                        == -1,
                    0 <= i <= crowns@.len(),
                    crowns@ == crowns_from(self.game_field, color, 0),
                    forall|k: int|
                        0 <= k < crowns@.len() ==> #[trigger] crowns@[k] < 8 && spec_is_crown(
                            self.game_field,
                            color,
                            crowns@[k] as int,
                        ),
                    moves@ + crown_other_seq(
                        self.game_field,
                        m,
                        crowns@.skip(i as int),
                        x as int,
                        y as int,
                        crown_x as int,
                    ) == old(moves)@ + crown_other_seq(
                        self.game_field,
                        m,
                        crowns@,
                        x as int,
                        y as int,
                        crown_x as int,
                    ),
                decreases crowns@.len() - i,
            {
                let cy = crowns[i];
                let crown_move = self.gen_move_crown(new_move, x, y, crown_x, cy);
                moves.push(crown_move);
                proof {
                    assert(crowns@.skip(i as int)[0] == crowns@[i as int]);
                    assert(crowns@.skip(i as int).drop_first() =~= crowns@.skip(i as int + 1));
                    assert(moves@ =~= moves@.drop_last() + seq![crown_move]);
                    assert((moves@.drop_last() + seq![crown_move]) + crown_other_seq(
                        self.game_field,
                        m,
                        crowns@.skip(i as int + 1),
                        x as int,
                        y as int,
                        crown_x as int,
                    ) =~= moves@.drop_last() + (seq![crown_move] + crown_other_seq(
                        self.game_field,
                        m,
                        crowns@.skip(i as int + 1),
                        x as int,
                        y as int,
                        crown_x as int,
                    )));
                }
                i += 1;
            }
            proof {
                reveal(spec_do_crown);
                assert(crowns@.skip(crowns@.len() as int) =~= Seq::<usize>::empty());
                assert(moves@ + Seq::<Move>::empty() =~= moves@);
            }
        } else {
            moves.push(*new_move);
            proof {
                reveal(spec_do_crown);
                assert(final(moves)@ =~= old(moves)@ + full);
            }
        }
    }

    /// The board after playing `m`.
    pub fn apply_move(&self, m: Move) -> (r: Self)
        requires
            impasse_valid_move(*self, m),
        ensures
            r == impasse_apply(*self, m),
    {
        let mut board = *self;
        let p0 = m.positions[0];
        if p0.old_sign != 3 && p0.new_sign != 3 {
            board.game_field[p0.x][p0.y] = p0.new_sign;
        }
        proof {
            let t = apply_new(self.game_field, m.positions[0]);
            if p0.is_active() {
                lemma_set_cell(self.game_field, p0.x as int, p0.y as int, p0.new_sign);
            }
            assert forall|a: int| 0 <= a < 8 implies #[trigger] board.game_field[a] == t[a] by {
                assert(board.game_field[a] =~= t[a]);
            }
            assert(board.game_field =~= t);
        }
        let ghost f1 = board.game_field;
        let p1 = m.positions[1];
        if p1.old_sign != 3 && p1.new_sign != 3 {
            board.game_field[p1.x][p1.y] = p1.new_sign;
        }
        proof {
            let t = apply_new(f1, m.positions[1]);
            if p1.is_active() {
                lemma_set_cell(f1, p1.x as int, p1.y as int, p1.new_sign);
            }
            assert forall|a: int| 0 <= a < 8 implies #[trigger] board.game_field[a] == t[a] by {
                assert(board.game_field[a] =~= t[a]);
            }
            assert(board.game_field =~= t);
        }
        let ghost f2 = board.game_field;
        let p2 = m.positions[2];
        if p2.old_sign != 3 && p2.new_sign != 3 {
            board.game_field[p2.x][p2.y] = p2.new_sign;
        }
        proof {
            let t = apply_new(f2, m.positions[2]);
            if p2.is_active() {
                lemma_set_cell(f2, p2.x as int, p2.y as int, p2.new_sign);
            }
            assert forall|a: int| 0 <= a < 8 implies #[trigger] board.game_field[a] == t[a] by {
                assert(board.game_field[a] =~= t[a]);
            }
            assert(board.game_field =~= t);
        }
        board
    }

    /// The board after taking `m` back.
    pub fn undo_move(&self, m: Move) -> (r: Self)
        requires
            m.positions[0].is_active() ==> m.positions[0].x < 8 && m.positions[0].y < 8,
            m.positions[1].is_active() ==> m.positions[1].x < 8 && m.positions[1].y < 8,
            m.positions[2].is_active() ==> m.positions[2].x < 8 && m.positions[2].y < 8,
        ensures
            r == impasse_undo(*self, m),
    {
        let mut board = *self;
        let p0 = m.positions[0];
        if p0.old_sign != 3 && p0.new_sign != 3 {
            board.game_field[p0.x][p0.y] = p0.old_sign;
        }
        proof {
            let t = apply_old(self.game_field, m.positions[0]);
            if p0.is_active() {
                lemma_set_cell(self.game_field, p0.x as int, p0.y as int, p0.old_sign);
            }
            assert forall|a: int| 0 <= a < 8 implies #[trigger] board.game_field[a] == t[a] by {
                assert(board.game_field[a] =~= t[a]);
            }
            assert(board.game_field =~= t);
        }
        let ghost f1 = board.game_field;
        let p1 = m.positions[1];
        if p1.old_sign != 3 && p1.new_sign != 3 {
            board.game_field[p1.x][p1.y] = p1.old_sign;
        }
        proof {
            let t = apply_old(f1, m.positions[1]);
            if p1.is_active() {
                lemma_set_cell(f1, p1.x as int, p1.y as int, p1.old_sign);
            }
            assert forall|a: int| 0 <= a < 8 implies #[trigger] board.game_field[a] == t[a] by {
                assert(board.game_field[a] =~= t[a]);
            }
            assert(board.game_field =~= t);
        }
        let ghost f2 = board.game_field;
        let p2 = m.positions[2];
        if p2.old_sign != 3 && p2.new_sign != 3 {
            board.game_field[p2.x][p2.y] = p2.old_sign;
        }
        proof {
            let t = apply_old(f2, m.positions[2]);
            if p2.is_active() {
                lemma_set_cell(f2, p2.x as int, p2.y as int, p2.old_sign);
            }
            assert forall|a: int| 0 <= a < 8 implies #[trigger] board.game_field[a] == t[a] by {
                assert(board.game_field[a] =~= t[a]);
            }
            assert(board.game_field =~= t);
        }
        board
    }
}

/// The diagonal rides of the piece on `(x, y)` in one direction: normal
/// moves to each free cell until the first blocker, and a transpose when the
/// blocker is this side's double over the riding single.
pub open spec fn ray_moves(
    s: Impasse,
    x: int,
    y: int,
    front: bool,
    left: bool,
    counter: int,
    color: bool,
) -> Seq<Move>
    decreases 9 - counter,
{
    if counter < 1 || counter > 8 {
        Seq::empty()
    } else if !((front && x >= counter || !front && x + counter < 8) && (left && y >= counter
        || !left && y + counter < 8)) {
        Seq::empty()
    } else {
        let nx = if front {
            x - counter
        } else {
            x + counter
        };
        let ny = if left {
            y - counter
        } else {
            y + counter
        };
        if spec_can_transpose(s.game_field, x, y, nx, ny) {
            spec_expand(s, spec_gen_move_transpose(s.game_field, x, y, nx, ny), x, y, nx, ny, color)
        } else if spec_is_free(s.game_field, nx, ny) {
            spec_expand(s, spec_gen_move_normal(s.game_field, x, y, nx, ny), x, y, nx, ny, color)
                + ray_moves(s, x, y, front, left, counter + 1, color)
        } else {
            Seq::empty()
        }
    }
}

/// All riding moves of the piece on `(x, y)`: singles ride toward the far
/// row, doubles back toward their own, scanning left then right.
pub open spec fn cell_moves(s: Impasse, color: bool, x: int, y: int) -> Seq<Move> {
    if !spec_piece_is_valid(s.game_field, x, y, color) {
        Seq::empty()
    } else {
        let front = if s.game_field[x][y] == 2 || s.game_field[x][y] == -2 {
            !color
        } else {
            color
        };
        ray_moves(s, x, y, front, true, 1, color) + ray_moves(s, x, y, front, false, 1, color)
    }
}

/// The self-reduction of the piece on `(x, y)`, when the cell holds a piece
/// of the side to move.
pub open spec fn impasse_cell_moves(s: Impasse, color: bool, x: int, y: int) -> Seq<Move> {
    if color && s.game_field[x][y] > 0 || !color && s.game_field[x][y] < 0 {
        spec_expand(s, spec_gen_move_impasse(s.game_field, x, y), x, y, x, y, color)
    } else {
        Seq::empty()
    }
}

/// All riding moves of the cells at and after `(row, col)`.
pub open spec fn normal_from(s: Impasse, color: bool, row: int, col: int) -> Seq<Move>
    decreases 8 - row, 8 - col,
{
    if row < 0 || col < 0 || row >= 8 {
        Seq::empty()
    } else if col >= 8 {
        normal_from(s, color, row + 1, 0)
    } else {
        cell_moves(s, color, row, col) + normal_from(s, color, row, col + 1)
    }
}

/// All self-reductions of the cells at and after `(row, col)`.
pub open spec fn impasse_from(s: Impasse, color: bool, row: int, col: int) -> Seq<Move>
    decreases 8 - row, 8 - col,
{
    if row < 0 || col < 0 || row >= 8 {
        Seq::empty()
    } else if col >= 8 {
        impasse_from(s, color, row + 1, 0)
    } else {
        impasse_cell_moves(s, color, row, col) + impasse_from(s, color, row, col + 1)
    }
}

/// The legal moves of `color`: the riding moves, or — when the side cannot
/// ride anywhere — the self-reductions.
pub open spec fn impasse_children_of(s: Impasse, color: bool) -> Seq<Move> {
    if normal_from(s, color, 0, 0).len() > 0 {
        normal_from(s, color, 0, 0)
    } else {
        impasse_from(s, color, 0, 0)
    }
}

impl<'game> Impasse<'game> {
    /// Pushes the expansion of a freshly built base move whose piece left
    /// `(x, y)` and landed on `(tx, ty)`.
    fn expand_into(
        &self,
        moves: &mut Vec<Move>,
        m: Move,
        x: usize,
        y: usize,
        tx: usize,
        ty: usize,
        color: bool,
    )
        requires
            self.wf(),
            x < 8,
            y < 8,
            tx < 8,
            ty < 8,
            impasse_valid_move(*self, m),
            crown_base_ok(m, tx as int, ty as int),
            m.positions[0].is_active() && m.positions[0].x == x && m.positions[0].y == y,
            m.move_type == MoveType::Normal || m.move_type == MoveType::Transpose || m.move_type
                == MoveType::Impasse,
            m.move_type == MoveType::Impasse ==> m.positions[0].new_sign != 2
                && m.positions[0].new_sign != -2 && !m.positions[1].is_active() && tx == x && ty
                == y,
        ensures
            final(moves)@ == old(moves)@ + spec_expand(
                *self,
                m,
                x as int,
                y as int,
                tx as int,
                ty as int,
                color,
            ),
    {
        let new_field = self.apply_move(m);
        proof {
            reveal(spec_expand);
            lemma_impasse_apply_wf(*self, m);
            lemma_apply_cells(*self, m);
        }
        if new_field.can_bear_off(x, y) || new_field.can_bear_off(tx, ty) {
            proof {
                assert(new_field.game_field[x as int][y as int] == m.positions[0].new_sign);
                assert(m.move_type != MoveType::Impasse);
                assert(m.positions[0].new_sign == 2 || m.positions[0].new_sign == -2
                    || m.positions[1].new_sign == 2 || m.positions[1].new_sign == -2);
            }
            let mut m2 = m;
            m2.to_bear_off();
            proof {
                assert(m2 == spec_bear_off_move(m));
                lemma_pos3_update(
                    m.positions,
                    if m.positions[0].new_sign == 2 || m.positions[0].new_sign == -2 {
                        0int
                    } else {
                        1int
                    },
                    m2.positions[if m.positions[0].new_sign == 2 || m.positions[0].new_sign == -2 {
                        0int
                    } else {
                        1int
                    }],
                );
                assert(impasse_valid_move(*self, m2));
                assert(crown_base_ok(m2, tx as int, ty as int));
            }
            let new_field2 = self.apply_move(m2);
            proof {
                lemma_impasse_apply_wf(*self, m2);
            }
            new_field2.do_crown(tx, ty, &m2, moves, color);
        } else {
            new_field.do_crown(tx, ty, &m, moves, color);
        }
    }

    /// Scans one diagonal direction of the piece on `(x, y)`, pushing the
    /// expansion of each ride it finds.
    #[verifier::rlimit(60)]
    fn scan_ray(&self, moves: &mut Vec<Move>, color: bool, x: usize, y: usize, front: bool, left: bool)
        requires
            self.wf(),
            x < 8,
            y < 8,
        ensures
            final(moves)@ == old(moves)@ + ray_moves(
                *self,
                x as int,
                y as int,
                front,
                left,
                1,
                color,
            ),
    {
        let mut counter: usize = 1;
        while (front && x >= counter || !front && x + counter < 8) && (left && y >= counter
            || !left && y + counter < 8)
            invariant_except_break
                self.wf(),
                x < 8,
                y < 8,
                1 <= counter <= 8,
                old(moves)@ + ray_moves(*self, x as int, y as int, front, left, 1, color) == moves@
                    + ray_moves(*self, x as int, y as int, front, left, counter as int, color),
            ensures
                moves@ == old(moves)@ + ray_moves(*self, x as int, y as int, front, left, 1, color),
            decreases 9 - counter,
        {
            let step = calc_new_x_y(x, y, counter, front, left);
            let nx = step.0;
            let ny = step.1;
            if self.can_transpose(x, y, nx, ny) {
                let m = self.gen_move_transpose(x, y, nx, ny);
                self.expand_into(moves, m, x, y, nx, ny, color);
                break ;
            } else if self.is_free(nx, ny) {
                let ghost before_step = moves@;
                let m = self.gen_move_normal(x, y, nx, ny);
                self.expand_into(moves, m, x, y, nx, ny, color);
                proof {
                    let ex = spec_expand(
                        *self,
                        m,
                        x as int,
                        y as int,
                        nx as int,
                        ny as int,
                        color,
                    );
                    let tail = ray_moves(
                        *self,
                        x as int,
                        y as int,
                        front,
                        left,
                        counter as int + 1,
                        color,
                    );
                    assert((before_step + ex) + tail =~= before_step + (ex + tail));
                }
                counter += 1;
            } else {
                break ;
            }
        }
    }

    /// Pushes all riding moves of the piece on `(x, y)`.
    pub fn move_normal(&self, moves: &mut Vec<Move>, color: bool, x: usize, y: usize)
        requires
            self.wf(),
            x < 8,
            y < 8,
        ensures
            final(moves)@ == old(moves)@ + cell_moves(*self, color, x as int, y as int),
    {
        if !self.piece_is_valid(x, y, color) {
            proof {
                assert(final(moves)@ =~= old(moves)@ + cell_moves(
                    *self,
                    color,
                    x as int,
                    y as int,
                ));
            }
            return ;
        }
        let mut front = color;
        if self.game_field[x][y] == 2 || self.game_field[x][y] == -2 {
            front = !front;
        }
        let ghost before = moves@;
        self.scan_ray(moves, color, x, y, front, true);
        self.scan_ray(moves, color, x, y, front, false);
        proof {
            let ray_l = ray_moves(*self, x as int, y as int, front, true, 1, color);
            let ray_r = ray_moves(*self, x as int, y as int, front, false, 1, color);
            assert((before + ray_l) + ray_r =~= before + (ray_l + ray_r));
        }
    }

    /// Pushes the self-reduction of the piece on `(x, y)`, when it belongs
    /// to the side to move.
    pub fn move_impasse(&self, moves: &mut Vec<Move>, color: bool, x: usize, y: usize, sign: i64)
        requires
            self.wf(),
            x < 8,
            y < 8,
            sign == if color {
                1i64
            } else {
                -1i64
            },
        ensures
            final(moves)@ == old(moves)@ + impasse_cell_moves(*self, color, x as int, y as int),
    {
        let owned = if sign > 0 {
            self.game_field[x][y] > 0
        } else {
            self.game_field[x][y] < 0
        };
        if owned {
            let m = self.gen_move_impasse(x, y);
            self.expand_into(moves, m, x, y, x, y, color);
        } else {
            proof {
                assert(final(moves)@ =~= old(moves)@ + impasse_cell_moves(
                    *self,
                    color,
                    x as int,
                    y as int,
                ));
            }
        }
    }
}

/// Every move of the list is coherent with `s`.
pub open spec fn all_moves_valid(s: Impasse, ms: Seq<Move>) -> bool {
    forall|i: int| 0 <= i < ms.len() ==> impasse_valid_move(s, #[trigger] ms[i])
}

proof fn lemma_valid_concat(s: Impasse, a: Seq<Move>, b: Seq<Move>)
    requires
        all_moves_valid(s, a),
        all_moves_valid(s, b),
    ensures
        all_moves_valid(s, a + b),
{
    assert forall|i: int| 0 <= i < (a + b).len() implies impasse_valid_move(
        s,
        #[trigger] (a + b)[i],
    ) by {
        if i < a.len() {
            assert((a + b)[i] == a[i]);
        } else {
            assert((a + b)[i] == b[i - a.len()]);
        }
    }
}

proof fn lemma_gen_crown_valid(
    s: Impasse,
    m: Move,
    tx: int,
    ty: int,
    pawn_x: int,
    pawn_y: int,
    crown_x: int,
    crown_y: int,
)
    requires
        s.wf(),
        impasse_valid_move(s, m),
        crown_base_ok(m, tx, ty),
        m.move_type.can_combine(MoveType::Crown),
        0 <= pawn_x < 8,
        0 <= pawn_y < 8,
        0 <= crown_x < 8,
        0 <= crown_y < 8,
        !(pawn_x == crown_x && pawn_y == crown_y),
        crown_set_pawn(m, pawn_x, pawn_y) || crown_set_crown(m, crown_x, crown_y),
        impasse_apply(s, m).game_field[crown_x][crown_y] == 1 || impasse_apply(
            s,
            m,
        ).game_field[crown_x][crown_y] == -1,
    ensures
        impasse_valid_move(
            s,
            spec_gen_move_crown(impasse_apply(s, m).game_field, m, pawn_x, pawn_y, crown_x, crown_y),
        ),
{
    lemma_apply_cells(s, m);
    let af = impasse_apply(s, m).game_field;
    let r = spec_gen_move_crown(af, m, pawn_x, pawn_y, crown_x, crown_y);
    let q0 = crown_slot(m.positions[0], pawn_x, pawn_y, crown_x, crown_y);
    let q1 = crown_slot(m.positions[1], pawn_x, pawn_y, crown_x, crown_y);
    let q2 = crown_slot(m.positions[2], pawn_x, pawn_y, crown_x, crown_y);
    let q = vstd::array::spec_array_update(
        vstd::array::spec_array_update(
            vstd::array::spec_array_update(m.positions, 0, q0),
            1,
            q1,
        ),
        2,
        q2,
    );
    lemma_pos3_update(m.positions, 0, q0);
    lemma_pos3_update(vstd::array::spec_array_update(m.positions, 0, q0), 1, q1);
    lemma_pos3_update(
        vstd::array::spec_array_update(vstd::array::spec_array_update(m.positions, 0, q0), 1, q1),
        2,
        q2,
    );
    assert(q[0] == q0 && q[1] == q1 && q[2] == q2);
    let set_pawn = crown_set_pawn(m, pawn_x, pawn_y);
    let set_crown = crown_set_crown(m, crown_x, crown_y);
    let free0 = crown_free0(m);
    assert(free0 <= 2);
    let pawn_entry = Position {
        x: pawn_x as usize,
        y: pawn_y as usize,
        old_sign: af[pawn_x][pawn_y],
        new_sign: 0,
    };
    let crown_entry = Position {
        x: crown_x as usize,
        y: crown_y as usize,
        old_sign: af[crown_x][crown_y],
        new_sign: (af[crown_x][crown_y] * 2) as i64,
    };
    if !set_pawn {
        assert(!(exists|k: int|
            0 <= k < 3 && (#[trigger] m.positions[k]).is_active() && m.positions[k].x == pawn_x
                && m.positions[k].y == pawn_y)) by {
            assert forall|k: int|
                0 <= k < 3 implies !((#[trigger] m.positions[k]).is_active() && m.positions[k].x
                == pawn_x && m.positions[k].y == pawn_y) by {
                if k == 0 {
                } else if k == 1 {
                } else {
                }
            }
        }
        assert(af[pawn_x][pawn_y] == s.game_field[pawn_x][pawn_y]);
        assert(slot_ok(s.game_field, pawn_entry));
        lemma_pos3_update(q, free0, pawn_entry);
    }
    if !set_crown {
        assert(!(exists|k: int|
            0 <= k < 3 && (#[trigger] m.positions[k]).is_active() && m.positions[k].x == crown_x
                && m.positions[k].y == crown_y)) by {
            assert forall|k: int|
                0 <= k < 3 implies !((#[trigger] m.positions[k]).is_active() && m.positions[k].x
                == crown_x && m.positions[k].y == crown_y) by {
                if k == 0 {
                } else if k == 1 {
                } else {
                }
            }
        }
        assert(af[crown_x][crown_y] == s.game_field[crown_x][crown_y]);
        assert(slot_ok(s.game_field, crown_entry));
        let with_pawn = if !set_pawn {
            vstd::array::spec_array_update(q, free0, pawn_entry)
        } else {
            q
        };
        let free1 = if set_pawn {
            free0
        } else {
            free0 + 1
        };
        if free1 <= 2 {
            lemma_pos3_update(with_pawn, free1, crown_entry);
        }
    }
    assert(slot_ok(s.game_field, q0));
    assert(slot_ok(s.game_field, q1));
    assert(slot_ok(s.game_field, q2));
    assert(slot_ok(s.game_field, r.positions[0]));
    assert(slot_ok(s.game_field, r.positions[1]));
    assert(slot_ok(s.game_field, r.positions[2]));
    assert(slots_distinct(r));
}

proof fn lemma_crown_self_seq_valid(
    s: Impasse,
    m: Move,
    tx: int,
    ty: int,
    pawns: Seq<(usize, usize)>,
    color: bool,
)
    requires
        s.wf(),
        impasse_valid_move(s, m),
        crown_base_ok(m, tx, ty),
        m.move_type.can_combine(MoveType::Crown),
        0 <= tx < 8,
        0 <= ty < 8,
        impasse_apply(s, m).game_field[tx][ty] == 1 || impasse_apply(s, m).game_field[tx][ty]
            == -1,
        forall|k: int|
            0 <= k < pawns.len() ==> {
                let p = #[trigger] pawns[k];
                p.0 < 8 && p.1 < 8 && spec_is_possible_pawn(
                    impasse_apply(s, m).game_field,
                    tx,
                    ty,
                    p.0 as int,
                    p.1 as int,
                )
            },
    ensures
        all_moves_valid(
            s,
            crown_self_seq(impasse_apply(s, m).game_field, m, pawns, tx, ty),
        ),
    decreases pawns.len(),
{
    let af = impasse_apply(s, m).game_field;
    if pawns.len() == 0 {
    } else {
        assert(pawns[0] == pawns[0]);
        lemma_gen_crown_valid(s, m, tx, ty, pawns[0].0 as int, pawns[0].1 as int, tx, ty);
        assert forall|k: int| 0 <= k < pawns.drop_first().len() implies {
            let p = #[trigger] pawns.drop_first()[k];
            p.0 < 8 && p.1 < 8 && spec_is_possible_pawn(af, tx, ty, p.0 as int, p.1 as int)
        } by {
            assert(pawns.drop_first()[k] == pawns[k + 1]);
        }
        lemma_crown_self_seq_valid(s, m, tx, ty, pawns.drop_first(), color);
        let front = seq![spec_gen_move_crown(af, m, pawns[0].0 as int, pawns[0].1 as int, tx, ty)];
        assert(all_moves_valid(s, front));
        lemma_valid_concat(s, front, crown_self_seq(af, m, pawns.drop_first(), tx, ty));
    }
}

proof fn lemma_crown_other_seq_valid(
    s: Impasse,
    m: Move,
    tx: int,
    ty: int,
    crowns: Seq<usize>,
    color: bool,
    crown_x: int,
)
    requires
        s.wf(),
        impasse_valid_move(s, m),
        crown_base_ok(m, tx, ty),
        m.move_type.can_combine(MoveType::Crown),
        0 <= tx < 8,
        0 <= ty < 8,
        crown_x == if color {
            0int
        } else {
            7int
        },
        !spec_in_final_row(impasse_apply(s, m).game_field, tx, ty),
        impasse_apply(s, m).game_field[tx][ty] == 1 || impasse_apply(s, m).game_field[tx][ty]
            == -1,
        forall|k: int|
            0 <= k < crowns.len() ==> #[trigger] crowns[k] < 8 && spec_is_crown(
                impasse_apply(s, m).game_field,
                color,
                crowns[k] as int,
            ),
    ensures
        all_moves_valid(
            s,
            crown_other_seq(impasse_apply(s, m).game_field, m, crowns, tx, ty, crown_x),
        ),
    decreases crowns.len(),
{
    let af = impasse_apply(s, m).game_field;
    if crowns.len() == 0 {
    } else {
        let cy = crowns[0] as int;
        assert(spec_is_crown(af, color, cy));
        assert(af[crown_x][cy] == 1 || af[crown_x][cy] == -1);
        assert(!(tx == crown_x && ty == cy));
        lemma_gen_crown_valid(s, m, tx, ty, tx, ty, crown_x, cy);
        assert forall|k: int| 0 <= k < crowns.drop_first().len() implies #[trigger] crowns.drop_first()[k]
            < 8 && spec_is_crown(af, color, crowns.drop_first()[k] as int) by {
            assert(crowns.drop_first()[k] == crowns[k + 1]);
        }
        lemma_crown_other_seq_valid(s, m, tx, ty, crowns.drop_first(), color, crown_x);
        let front = seq![spec_gen_move_crown(af, m, tx, ty, crown_x, cy)];
        assert(all_moves_valid(s, front));
        lemma_valid_concat(s, front, crown_other_seq(af, m, crowns.drop_first(), tx, ty, crown_x));
    }
}

proof fn lemma_do_crown_valid(s: Impasse, m: Move, tx: int, ty: int, color: bool)
    requires
        s.wf(),
        impasse_valid_move(s, m),
        crown_base_ok(m, tx, ty),
        0 <= tx < 8,
        0 <= ty < 8,
    ensures
        all_moves_valid(
            s,
            spec_do_crown(impasse_apply(s, m).game_field, tx, ty, m, color),
        ),
{
    reveal(spec_do_crown);
    let af = impasse_apply(s, m).game_field;
    let d = spec_do_crown(af, tx, ty, m, color);
    if !(af[tx][ty] == 1 || af[tx][ty] == -1) {
        assert(d == seq![m]);
        assert(d[0] == m);
    } else if m.move_type.can_combine(MoveType::Crown) && spec_in_final_row(af, tx, ty)
        && spec_can_crown_self(af, tx, ty) {
        lemma_pawns_from_props(af, tx, ty, 0, 0);
        lemma_crown_self_seq_valid(s, m, tx, ty, pawns_from(af, tx, ty, 0, 0), color);
    } else if m.move_type.can_combine(MoveType::Crown) && !spec_in_final_row(af, tx, ty)
        && spec_can_crown_other(af, color) {
        lemma_crowns_from_props(af, color, 0);
        lemma_crown_other_seq_valid(
            s,
            m,
            tx,
            ty,
            crowns_from(af, color, 0),
            color,
            if color {
                0int
            } else {
                7int
            },
        );
    } else {
        assert(d == seq![m]);
        assert(d[0] == m);
    }
}

proof fn lemma_expand_valid(
    s: Impasse,
    m: Move,
    x: int,
    y: int,
    tx: int,
    ty: int,
    color: bool,
)
    requires
        s.wf(),
        0 <= x < 8,
        0 <= y < 8,
        0 <= tx < 8,
        0 <= ty < 8,
        impasse_valid_move(s, m),
        crown_base_ok(m, tx, ty),
        m.positions[0].is_active() && m.positions[0].x == x && m.positions[0].y == y,
        m.move_type == MoveType::Normal || m.move_type == MoveType::Transpose || m.move_type
            == MoveType::Impasse,
        m.move_type == MoveType::Impasse ==> m.positions[0].new_sign != 2
            && m.positions[0].new_sign != -2 && !m.positions[1].is_active() && tx == x && ty == y,
    ensures
        all_moves_valid(s, spec_expand(s, m, x, y, tx, ty, color)),
{
    reveal(spec_expand);
    lemma_apply_cells(s, m);
    let nf = impasse_apply(s, m).game_field;
    if spec_can_bear_off(nf, x, y) || spec_can_bear_off(nf, tx, ty) {
        assert(nf[x][y] == m.positions[0].new_sign);
        assert(m.move_type != MoveType::Impasse);
        let m2 = spec_bear_off_move(m);
        let halved = if m.positions[0].new_sign == 2 || m.positions[0].new_sign == -2 {
            0int
        } else {
            1int
        };
        lemma_pos3_update(m.positions, halved, m2.positions[halved]);
        assert(impasse_valid_move(s, m2));
        assert(crown_base_ok(m2, tx, ty));
        lemma_do_crown_valid(s, m2, tx, ty, color);
    } else {
        lemma_do_crown_valid(s, m, tx, ty, color);
    }
}

proof fn lemma_ray_valid(
    s: Impasse,
    x: int,
    y: int,
    front: bool,
    left: bool,
    counter: int,
    color: bool,
)
    requires
        s.wf(),
        0 <= x < 8,
        0 <= y < 8,
    ensures
        all_moves_valid(s, ray_moves(s, x, y, front, left, counter, color)),
    decreases 9 - counter,
{
    if counter < 1 || counter > 8 {
    } else if !((front && x >= counter || !front && x + counter < 8) && (left && y >= counter
        || !left && y + counter < 8)) {
    } else {
        let nx = if front {
            x - counter
        } else {
            x + counter
        };
        let ny = if left {
            y - counter
        } else {
            y + counter
        };
        if spec_can_transpose(s.game_field, x, y, nx, ny) {
            let m = spec_gen_move_transpose(s.game_field, x, y, nx, ny);
            assert(m.positions[0] == Position {
                x: x as usize,
                y: y as usize,
                old_sign: s.game_field[x][y],
                new_sign: s.game_field[nx][ny],
            });
            lemma_expand_valid(s, m, x, y, nx, ny, color);
        } else if spec_is_free(s.game_field, nx, ny) {
            let m = spec_gen_move_normal(s.game_field, x, y, nx, ny);
            assert(m.positions[0] == Position {
                x: x as usize,
                y: y as usize,
                old_sign: s.game_field[x][y],
                new_sign: 0,
            });
            lemma_expand_valid(s, m, x, y, nx, ny, color);
            lemma_ray_valid(s, x, y, front, left, counter + 1, color);
            lemma_valid_concat(
                s,
                spec_expand(s, m, x, y, nx, ny, color),
                ray_moves(s, x, y, front, left, counter + 1, color),
            );
        } else {
        }
    }
}

proof fn lemma_cell_moves_valid(s: Impasse, color: bool, x: int, y: int)
    requires
        s.wf(),
        0 <= x < 8,
        0 <= y < 8,
    ensures
        all_moves_valid(s, cell_moves(s, color, x, y)),
{
    if !spec_piece_is_valid(s.game_field, x, y, color) {
    } else {
        let front = if s.game_field[x][y] == 2 || s.game_field[x][y] == -2 {
            !color
        } else {
            color
        };
        lemma_ray_valid(s, x, y, front, true, 1, color);
        lemma_ray_valid(s, x, y, front, false, 1, color);
        lemma_valid_concat(
            s,
            ray_moves(s, x, y, front, true, 1, color),
            ray_moves(s, x, y, front, false, 1, color),
        );
    }
}

proof fn lemma_impasse_cell_moves_valid(s: Impasse, color: bool, x: int, y: int)
    requires
        s.wf(),
        0 <= x < 8,
        0 <= y < 8,
    ensures
        all_moves_valid(s, impasse_cell_moves(s, color, x, y)),
{
    if color && s.game_field[x][y] > 0 || !color && s.game_field[x][y] < 0 {
        let m = spec_gen_move_impasse(s.game_field, x, y);
        assert(m.positions[0] == Position {
            x: x as usize,
            y: y as usize,
            old_sign: s.game_field[x][y],
            new_sign: if s.game_field[x][y] == 2 {
                1i64
            } else if s.game_field[x][y] == -2 {
                -1i64
            } else {
                0i64
            },
        });
        lemma_expand_valid(s, m, x, y, x, y, color);
    }
}

proof fn lemma_normal_from_valid(s: Impasse, color: bool, row: int, col: int)
    requires
        s.wf(),
    ensures
        all_moves_valid(s, normal_from(s, color, row, col)),
    decreases 8 - row, 8 - col,
{
    if row < 0 || col < 0 || row >= 8 {
    } else if col >= 8 {
        lemma_normal_from_valid(s, color, row + 1, 0);
    } else {
        lemma_cell_moves_valid(s, color, row, col);
        lemma_normal_from_valid(s, color, row, col + 1);
        lemma_valid_concat(s, cell_moves(s, color, row, col), normal_from(s, color, row, col + 1));
    }
}

proof fn lemma_impasse_from_valid(s: Impasse, color: bool, row: int, col: int)
    requires
        s.wf(),
    ensures
        all_moves_valid(s, impasse_from(s, color, row, col)),
    decreases 8 - row, 8 - col,
{
    if row < 0 || col < 0 || row >= 8 {
    } else if col >= 8 {
        lemma_impasse_from_valid(s, color, row + 1, 0);
    } else {
        lemma_impasse_cell_moves_valid(s, color, row, col);
        lemma_impasse_from_valid(s, color, row, col + 1);
        lemma_valid_concat(
            s,
            impasse_cell_moves(s, color, row, col),
            impasse_from(s, color, row, col + 1),
        );
    }
}

/// Every generated move is coherent with the state that generated it: its
/// kind is never the `Invalid` sentinel, its slots point at real cells and
/// record their current signs, and no two slots share a cell.
pub proof fn lemma_impasse_children_valid(s: Impasse, color: bool)
    requires
        s.wf(),
    ensures
        all_moves_valid(s, impasse_children_of(s, color)),
{
    lemma_normal_from_valid(s, color, 0, 0);
    lemma_impasse_from_valid(s, color, 0, 0);
}

proof fn lemma_pawns_from_present(f: GameField, x: int, y: int, i0: int, j0: int, i: int, j: int)
    requires
        0 <= i0,
        0 <= j0,
        i0 <= i < 8,
        0 <= j < 8,
        i > i0 || j >= j0,
        spec_is_possible_pawn(f, x, y, i, j),
    ensures
        pawns_from(f, x, y, i0, j0).len() > 0,
    decreases 8 - i0, 8 - j0,
{
    if j0 >= 8 {
        lemma_pawns_from_present(f, x, y, i0 + 1, 0, i, j);
    } else if i0 == i && j0 == j {
    } else {
        lemma_pawns_from_present(f, x, y, i0, j0 + 1, i, j);
    }
}

proof fn lemma_crowns_from_present(f: GameField, color: bool, i0: int, i: int)
    requires
        0 <= i0 <= i < 8,
        spec_is_crown(f, color, i),
    ensures
        crowns_from(f, color, i0).len() > 0,
    decreases 8 - i0,
{
    if i0 < i {
        lemma_crowns_from_present(f, color, i0 + 1, i);
    }
}

proof fn lemma_crown_self_seq_len(
    af: GameField,
    m: Move,
    pawns: Seq<(usize, usize)>,
    x: int,
    y: int,
)
    ensures
        crown_self_seq(af, m, pawns, x, y).len() == pawns.len(),
    decreases pawns.len(),
{
    if pawns.len() > 0 {
        lemma_crown_self_seq_len(af, m, pawns.drop_first(), x, y);
    }
}

proof fn lemma_crown_other_seq_len(
    af: GameField,
    m: Move,
    crowns: Seq<usize>,
    x: int,
    y: int,
    crown_x: int,
)
    ensures
        crown_other_seq(af, m, crowns, x, y, crown_x).len() == crowns.len(),
    decreases crowns.len(),
{
    if crowns.len() > 0 {
        lemma_crown_other_seq_len(af, m, crowns.drop_first(), x, y, crown_x);
    }
}

proof fn lemma_do_crown_nonempty(af: GameField, x: int, y: int, m: Move, color: bool)
    ensures
        spec_do_crown(af, x, y, m, color).len() >= 1,
{
    reveal(spec_do_crown);
    if !(af[x][y] == 1 || af[x][y] == -1) {
    } else if m.move_type.can_combine(MoveType::Crown) && spec_in_final_row(af, x, y)
        && spec_can_crown_self(af, x, y) {
        let (pi, pj) = choose|pi: int, pj: int|
            0 <= pi < 8 && 0 <= pj < 8 && spec_is_possible_pawn(af, x, y, pi, pj);
        lemma_pawns_from_present(af, x, y, 0, 0, pi, pj);
        lemma_crown_self_seq_len(af, m, pawns_from(af, x, y, 0, 0), x, y);
    } else if m.move_type.can_combine(MoveType::Crown) && !spec_in_final_row(af, x, y)
        && spec_can_crown_other(af, color) {
        let ci = choose|ci: int| 0 <= ci < 8 && spec_is_crown(af, color, ci);
        lemma_crowns_from_present(af, color, 0, ci);
        lemma_crown_other_seq_len(
            af,
            m,
            crowns_from(af, color, 0),
            x,
            y,
            if color {
                0int
            } else {
                7int
            },
        );
    } else {
    }
}

proof fn lemma_expand_nonempty(s: Impasse, m: Move, x: int, y: int, tx: int, ty: int, color: bool)
    ensures
        spec_expand(s, m, x, y, tx, ty, color).len() >= 1,
{
    reveal(spec_expand);
    let nf = impasse_apply(s, m).game_field;
    if spec_can_bear_off(nf, x, y) || spec_can_bear_off(nf, tx, ty) {
        let m2 = spec_bear_off_move(m);
        lemma_do_crown_nonempty(impasse_apply(s, m2).game_field, tx, ty, m2, color);
    } else {
        lemma_do_crown_nonempty(nf, tx, ty, m, color);
    }
}

proof fn lemma_impasse_from_contains(s: Impasse, color: bool, i0: int, j0: int, x: int, y: int)
    requires
        0 <= i0,
        0 <= j0,
        i0 <= x < 8,
        0 <= y < 8,
        x > i0 || y >= j0,
        color ==> s.game_field[x][y] > 0,
        !color ==> s.game_field[x][y] < 0,
    ensures
        impasse_from(s, color, i0, j0).len() > 0,
    decreases 8 - i0, 8 - j0,
{
    if j0 >= 8 {
        lemma_impasse_from_contains(s, color, i0 + 1, 0, x, y);
    } else if i0 == x && j0 == y {
        lemma_expand_nonempty(
            s,
            spec_gen_move_impasse(s.game_field, x, y),
            x,
            y,
            x,
            y,
            color,
        );
    } else {
        lemma_impasse_from_contains(s, color, i0, j0 + 1, x, y);
    }
}

/// A side that still has a piece always has a move: when no riding move
/// exists anywhere, the piece's self-reduction is generated. `(x, y)` names
/// a cell holding a piece of the side to move.
pub proof fn lemma_impasse_piece_has_move(s: Impasse, color: bool, x: int, y: int)
    requires
        s.wf(),
        0 <= x < 8,
        0 <= y < 8,
        color ==> s.game_field[x][y] > 0,
        !color ==> s.game_field[x][y] < 0,
    ensures
        impasse_children_of(s, color).len() > 0,
{
    if normal_from(s, color, 0, 0).len() > 0 {
    } else {
        lemma_impasse_from_contains(s, color, 0, 0, x, y);
    }
}

impl<'game> ChildStates<Move> for Impasse<'game> {
    open spec fn spec_children(&self, color: bool) -> Seq<Move> {
        impasse_children_of(*self, color)
    }

    open spec fn valid_move(&self, m: Move) -> bool {
        impasse_valid_move(*self, m)
    }

    open spec fn spec_apply(&self, m: Move) -> Self {
        impasse_apply(*self, m)
    }

    open spec fn spec_undo(&self, m: Move) -> Self {
        impasse_undo(*self, m)
    }

    proof fn lemma_children_valid(&self, color: bool) {
        lemma_impasse_children_valid(*self, color);
    }

    proof fn lemma_apply_wf(&self, m: Move) {
        lemma_impasse_apply_wf(*self, m);
    }

    proof fn lemma_apply_undo(&self, m: Move) {
        lemma_impasse_apply_undo(*self, m);
    }

    fn child_states(&self, color: bool) -> (r: Vec<Move>) {
        let mut possible_moves: Vec<Move> = Vec::new();
        let mut i: usize = 0;
        proof {
            assert(possible_moves@ + normal_from(*self, color, 0, 0) =~= normal_from(
                *self,
                color,
                0,
                0,
            ));
        }
        while i < 8
            invariant
                self.wf(),
                0 <= i <= 8,
                normal_from(*self, color, 0, 0) == possible_moves@ + normal_from(
                    *self,
                    color,
                    i as int,
                    0,
                ),
            decreases 8 - i,
        {
            let mut j: usize = 0;
            while j < 8
                invariant
                    self.wf(),
                    0 <= i < 8,
                    0 <= j <= 8,
                    normal_from(*self, color, 0, 0) == possible_moves@ + normal_from(
                        *self,
                        color,
                        i as int,
                        j as int,
                    ),
                decreases 8 - j,
            {
                let ghost before = possible_moves@;
                self.move_normal(&mut possible_moves, color, i, j);
                proof {
                    let cm = cell_moves(*self, color, i as int, j as int);
                    let rest = normal_from(*self, color, i as int, j as int + 1);
                    assert((before + cm) + rest =~= before + (cm + rest));
                }
                j += 1;
            }
            proof {
                assert(normal_from(*self, color, i as int, 8) == normal_from(
                    *self,
                    color,
                    i as int + 1,
                    0,
                ));
            }
            i += 1;
        }
        proof {
            assert(possible_moves@ + normal_from(*self, color, 8, 0) =~= possible_moves@);
        }
        if possible_moves.len() > 0 {
            return possible_moves;
        }
        let sign: i64 = if color {
            1
        } else {
            -1
        };
        let mut k: usize = 0;
        proof {
            assert(possible_moves@ + impasse_from(*self, color, 0, 0) =~= impasse_from(
                *self,
                color,
                0,
                0,
            ));
        }
        while k < 8
            invariant
                self.wf(),
                0 <= k <= 8,
                sign == if color {
                    1i64
                } else {
                    -1i64
                },
                normal_from(*self, color, 0, 0).len() == 0,
                impasse_from(*self, color, 0, 0) == possible_moves@ + impasse_from(
                    *self,
                    color,
                    k as int,
                    0,
                ),
            decreases 8 - k,
        {
            let mut j: usize = 0;
            while j < 8
                invariant
                    self.wf(),
                    0 <= k < 8,
                    0 <= j <= 8,
                    sign == if color {
                        1i64
                    } else {
                        -1i64
                    },
                    normal_from(*self, color, 0, 0).len() == 0,
                    impasse_from(*self, color, 0, 0) == possible_moves@ + impasse_from(
                        *self,
                        color,
                        k as int,
                        j as int,
                    ),
                decreases 8 - j,
            {
                let ghost before = possible_moves@;
                self.move_impasse(&mut possible_moves, color, k, j, sign);
                proof {
                    let cm = impasse_cell_moves(*self, color, k as int, j as int);
                    let rest = impasse_from(*self, color, k as int, j as int + 1);
                    assert((before + cm) + rest =~= before + (cm + rest));
                }
                j += 1;
            }
            proof {
                assert(impasse_from(*self, color, k as int, 8) == impasse_from(
                    *self,
                    color,
                    k as int + 1,
                    0,
                ));
            }
            k += 1;
        }
        proof {
            assert(possible_moves@ + impasse_from(*self, color, 8, 0) =~= possible_moves@);
        }
        possible_moves
    }

    fn apply(&self, m: Move) -> (r: Self) {
        self.apply_move(m)
    }

    fn undo(&self, m: Move) -> (r: Self) {
        proof {
            let s0 = choose|s0: Impasse<'game>|
                s0.wf() && s0.valid_move(m) && *self == s0.spec_apply(m);
            assert(impasse_valid_move(s0, m));
        }
        self.undo_move(m)
    }
}

/// The diagonal step `counter` cells from `(x, y)` in the scan direction.
pub fn calc_new_x_y(x: usize, y: usize, counter: usize, front: bool, left: bool) -> (r: (
    usize,
    usize,
))
    requires
        front ==> x >= counter,
        !front ==> x + counter < 8,
        left ==> y >= counter,
        !left ==> y + counter < 8,
    ensures
        r.0 == if front {
            x - counter
        } else {
            x + counter
        },
        r.1 == if left {
            y - counter
        } else {
            y + counter
        },
{
    let nex = if front {
        x - counter
    } else {
        x + counter
    };
    let ney = if left {
        y - counter
    } else {
        y + counter
    };
    (nex, ney)
}

} // verus!
