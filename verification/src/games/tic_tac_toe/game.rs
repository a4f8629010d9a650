use vstd::prelude::*;

use crate::games::tic_tac_toe::actions::{Move, Position};
use crate::traits::{
    ChildStates, ScoreOfState, StateHash, TerminalState, WellFormedState,
};

verus! {

broadcast use vstd::array::group_array_axioms;

/// The three-by-three board: `0` an empty cell, `1` a MAX mark, `-1` a MIN
/// mark.
#[derive(Clone, Copy)]
pub struct TicTacToeGame {
    pub game_field: [[i64; 3]; 3],
}

impl PartialEq for TicTacToeGame {
    fn eq(&self, other: &TicTacToeGame) -> (r: bool) {
        let mut i: usize = 0;
        while i < 3
            invariant
                0 <= i <= 3,
                forall|a: int, b: int|
                    0 <= a < i && 0 <= b < 3 ==> #[trigger] self.game_field[a][b]
                        == other.game_field[a][b],
            decreases 3 - i,
        {
            let mut j: usize = 0;
            while j < 3
                invariant
                    0 <= i < 3,
                    0 <= j <= 3,
                    forall|a: int, b: int|
                        0 <= a < i && 0 <= b < 3 ==> #[trigger] self.game_field[a][b]
                            == other.game_field[a][b],
                    forall|b: int|
                        0 <= b < j ==> #[trigger] self.game_field[i as int][b]
                            == other.game_field[i as int][b],
                decreases 3 - j,
            {
                if self.game_field[i][j] != other.game_field[i][j] {
                    return false;
                }
                j += 1;
            }
            i += 1;
        }
        proof {
            assert forall|a: int| 0 <= a < 3 implies #[trigger] self.game_field[a]
                == other.game_field[a] by {
                assert(self.game_field[a] =~= other.game_field[a]);
            }
            assert(self.game_field =~= other.game_field);
        }
        true
    }
}

impl Eq for TicTacToeGame {

}

impl vstd::std_specs::cmp::PartialEqSpecImpl for TicTacToeGame {
    open spec fn obeys_eq_spec() -> bool {
        true
    }

    open spec fn eq_spec(&self, other: &TicTacToeGame) -> bool {
        *self == *other
    }
}

impl WellFormedState for TicTacToeGame {
    open spec fn wf(&self) -> bool {
        forall|r: int, c: int|
            0 <= r < 3 && 0 <= c < 3 ==> -1 <= #[trigger] self.game_field[r][c] <= 1
    }
}

impl TicTacToeGame {
    pub open spec fn spec_same_row(&self, row: int) -> bool {
        self.game_field[row][0] == self.game_field[row][1] && self.game_field[row][0]
            == self.game_field[row][2]
    }

    pub open spec fn spec_winning_row(&self, row: int) -> bool {
        self.spec_same_row(row) && self.game_field[row][0] != 0
    }

    pub open spec fn spec_same_column(&self, column: int) -> bool {
        self.game_field[0][column] == self.game_field[1][column] && self.game_field[0][column]
            == self.game_field[2][column]
    }

    pub open spec fn spec_winning_column(&self, column: int) -> bool {
        self.spec_same_column(column) && self.game_field[0][column] != 0
    }

    /// A full diagonal of one side through the centre.
    pub open spec fn spec_diagonal_win(&self) -> bool {
        (self.game_field[0][0] == self.game_field[1][1] && self.game_field[0][0]
            == self.game_field[2][2] || self.game_field[2][0] == self.game_field[1][1]
            && self.game_field[2][0] == self.game_field[0][2]) && self.game_field[1][1] != 0
    }

    pub open spec fn spec_board_full(&self) -> bool {
        forall|r: int, c: int| 0 <= r < 3 && 0 <= c < 3 ==> #[trigger] self.game_field[r][c] != 0
    }

    /// The score checks, in order: each row and column pair by index, then
    /// the diagonals.
    pub open spec fn spec_score_chain(&self, i: int) -> int
        decreases 3 - i,
    {
        if i >= 3 {
            if self.game_field[0][0] == self.game_field[1][1] && self.game_field[0][0]
                == self.game_field[2][2] || self.game_field[2][0] == self.game_field[1][1]
                && self.game_field[2][0] == self.game_field[0][2] && self.game_field[1][1] != 0 {
                10 * self.game_field[1][1]
            } else {
                0
            }
        } else if self.spec_winning_row(i) {
            10 * self.game_field[i][0]
        } else if self.spec_winning_column(i) {
            10 * self.game_field[0][i]
        } else {
            self.spec_score_chain(i + 1)
        }
    }

    pub fn same_row(&self, row: usize) -> (r: bool)
        requires
            row < 3,
        ensures
            r == self.spec_same_row(row as int),
    {
        self.game_field[row][0] == self.game_field[row][1] && self.game_field[row][0]
            == self.game_field[row][2]
    }

    pub fn winning_row(&self, row: usize) -> (r: bool)
        requires
            row < 3,
        ensures
            r == self.spec_winning_row(row as int),
    {
        self.same_row(row) && self.game_field[row][0] != 0
    }

    pub fn same_column(&self, column: usize) -> (r: bool)
        requires
            column < 3,
        ensures
            r == self.spec_same_column(column as int),
    {
        self.game_field[0][column] == self.game_field[1][column] && self.game_field[0][column]
            == self.game_field[2][column]
    }

    pub fn winning_column(&self, column: usize) -> (r: bool)
        requires
            column < 3,
        ensures
            r == self.spec_winning_column(column as int),
    {
        self.same_column(column) && self.game_field[0][column] != 0
    }

    /// The legal moves at and after board cell `(row, col)` in row-major
    /// order: one move for each empty cell.
    pub open spec fn spec_children_from(&self, color: bool, row: int, col: int) -> Seq<Move>
        decreases 3 - row, 3 - col,
    {
        if row < 0 || col < 0 || row >= 3 {
            Seq::empty()
        } else if col >= 3 {
            self.spec_children_from(color, row + 1, 0)
        } else {
            let rest = self.spec_children_from(color, row, col + 1);
            if self.game_field[row][col] == 0 {
                seq![Move { pos: Position { x: row as usize, y: col as usize }, color }] + rest
            } else {
                rest
            }
        }
    }

    proof fn lemma_children_from_valid(&self, color: bool, row: int, col: int)
        ensures
            forall|i: int|
                0 <= i < self.spec_children_from(color, row, col).len() ==> self.valid_move(
                    #[trigger] self.spec_children_from(color, row, col)[i],
                ),
        decreases 3 - row, 3 - col,
    {
        if row < 0 || col < 0 || row >= 3 {
            assert(self.spec_children_from(color, row, col).len() == 0);
        } else if col >= 3 {
            self.lemma_children_from_valid(color, row + 1, 0);
            assert(self.spec_children_from(color, row, col) == self.spec_children_from(
                color,
                row + 1,
                0,
            ));
        } else {
            self.lemma_children_from_valid(color, row, col + 1);
            let rest = self.spec_children_from(color, row, col + 1);
            if self.game_field[row][col] != 0 {
                assert(self.spec_children_from(color, row, col) == rest);
            }
            if self.game_field[row][col] == 0 {
                let front = seq![
                    Move { pos: Position { x: row as usize, y: col as usize }, color },
                ];
                assert forall|i: int|
                    0 <= i < self.spec_children_from(color, row, col).len() implies self.valid_move(
                    #[trigger] self.spec_children_from(color, row, col)[i],
                ) by {
                    if i == 0 {
                        assert(self.spec_children_from(color, row, col)[0] == front[0]);
                    } else {
                        assert(self.spec_children_from(color, row, col)[i] == rest[i - 1]);
                    }
                }
            }
        }
    }
}

impl ScoreOfState for TicTacToeGame {
    open spec fn spec_score(&self) -> int {
        self.spec_score_chain(0)
    }

    proof fn lemma_score_bounded(&self) {
        assert(-10 <= self.spec_score_chain(3) <= 10);
        assert(-10 <= self.spec_score_chain(2) <= 10);
        assert(-10 <= self.spec_score_chain(1) <= 10);
        assert(-10 <= self.spec_score_chain(0) <= 10);
    }

    fn score_of(&self) -> (r: i64) {
        let mut i: usize = 0;
        while i < 3
            invariant
                self.wf(),
                0 <= i <= 3,
                self.spec_score() == self.spec_score_chain(i as int),
            decreases 3 - i,
        {
            if self.winning_row(i) {
                return 10 * self.game_field[i][0];
            }
            if self.winning_column(i) {
                return 10 * self.game_field[0][i];
            }
            i += 1;
        }
        if self.game_field[0][0] == self.game_field[1][1] && self.game_field[0][0]
            == self.game_field[2][2] || self.game_field[2][0] == self.game_field[1][1]
            && self.game_field[2][0] == self.game_field[0][2] && self.game_field[1][1] != 0 {
            return 10 * self.game_field[1][1];
        }
        0
    }
}

impl TerminalState for TicTacToeGame {
    open spec fn spec_terminal(&self) -> bool {
        self.spec_board_full() || self.spec_winning_row(0) || self.spec_winning_row(1)
            || self.spec_winning_row(2) || self.spec_winning_column(0) || self.spec_winning_column(
            1,
        ) || self.spec_winning_column(2) || self.spec_diagonal_win()
    }

    fn is_terminal(&self) -> (r: bool) {
        let mut found = false;
        let mut i: usize = 0;
        while i < 3
            invariant
                0 <= i <= 3,
                found ==> !self.spec_board_full(),
                !found ==> forall|a: int, b: int|
                    0 <= a < i && 0 <= b < 3 ==> #[trigger] self.game_field[a][b] != 0,
            decreases 3 - i,
        {
            let mut j: usize = 0;
            while j < 3
                invariant
                    0 <= i < 3,
                    0 <= j <= 3,
                    found ==> !self.spec_board_full(),
                    !found ==> forall|a: int, b: int|
                        0 <= a < i && 0 <= b < 3 ==> #[trigger] self.game_field[a][b] != 0,
                    !found ==> forall|b: int|
                        0 <= b < j ==> #[trigger] self.game_field[i as int][b] != 0,
                decreases 3 - j,
            {
                if self.game_field[i][j] == 0 {
                    found = true;
                }
                j += 1;
            }
            i += 1;
        }
        if !found {
            return true;
        }
        let mut index: usize = 0;
        while index < 3
            invariant
                0 <= index <= 3,
                !self.spec_board_full(),
                forall|k: int|
                    0 <= k < index ==> !self.spec_winning_row(k) && !self.spec_winning_column(k),
            decreases 3 - index,
        {
            if self.winning_row(index) || self.winning_column(index) {
                return true;
            }
            index += 1;
        }
        (self.game_field[0][0] == self.game_field[1][1] && self.game_field[0][0]
            == self.game_field[2][2] || self.game_field[2][0] == self.game_field[1][1]
            && self.game_field[2][0] == self.game_field[0][2]) && self.game_field[1][1] != 0
    }
}

impl ChildStates<Move> for TicTacToeGame {
    open spec fn spec_children(&self, color: bool) -> Seq<Move> {
        self.spec_children_from(color, 0, 0)
    }

    open spec fn valid_move(&self, m: Move) -> bool {
        m.pos.x < 3 && m.pos.y < 3 && self.game_field[m.pos.x as int][m.pos.y as int] == 0
    }

    open spec fn spec_apply(&self, m: Move) -> Self {
        let sign: i64 = if m.color {
            1i64
        } else {
            -1i64
        };
        TicTacToeGame {
            game_field: vstd::array::spec_array_update(
                self.game_field,
                m.pos.x as int,
                vstd::array::spec_array_update(
                    self.game_field[m.pos.x as int],
                    m.pos.y as int,
                    sign,
                ),
            ),
        }
    }

    open spec fn spec_undo(&self, m: Move) -> Self {
        TicTacToeGame {
            game_field: vstd::array::spec_array_update(
                self.game_field,
                m.pos.x as int,
                vstd::array::spec_array_update(self.game_field[m.pos.x as int], m.pos.y as int, 0),
            ),
        }
    }

    proof fn lemma_children_valid(&self, color: bool) {
        self.lemma_children_from_valid(color, 0, 0);
    }

    proof fn lemma_apply_wf(&self, m: Move) {
        let applied = self.spec_apply(m);
        assert forall|r: int, c: int| 0 <= r < 3 && 0 <= c < 3 implies -1
            <= #[trigger] applied.game_field[r][c] <= 1 by {
            if r == m.pos.x {
                if c == m.pos.y {
                } else {
                    assert(applied.game_field[r][c] == self.game_field[r][c]);
                }
            } else {
                assert(applied.game_field[r] == self.game_field[r]);
            }
        }
    }

    proof fn lemma_apply_undo(&self, m: Move) {
        let back = self.spec_apply(m).spec_undo(m);
        assert forall|r: int| 0 <= r < 3 implies #[trigger] back.game_field[r]
            == self.game_field[r] by {
            assert(back.game_field[r] =~= self.game_field[r]);
        }
        assert(back.game_field =~= self.game_field);
    }

    fn child_states(&self, color: bool) -> (r: Vec<Move>) {
        let mut children: Vec<Move> = Vec::new();
        let mut row: usize = 0;
        proof {
            assert(children@ + self.spec_children_from(color, 0, 0) =~= self.spec_children(color));
        }
        while row < 3
            invariant
                0 <= row <= 3,
                self.spec_children(color) == children@ + self.spec_children_from(
                    color,
                    row as int,
                    0,
                ),
            decreases 3 - row,
        {
            let mut column: usize = 0;
            while column < 3
                invariant
                    0 <= row < 3,
                    0 <= column <= 3,
                    self.spec_children(color) == children@ + self.spec_children_from(
                        color,
                        row as int,
                        column as int,
                    ),
                decreases 3 - column,
            {
                if self.game_field[row][column] == 0 {
                    let new_move = Move { pos: Position { x: row, y: column }, color };
                    children.push(new_move);
                    proof {
                        let front = seq![new_move];
                        let rest = self.spec_children_from(
                            color,
                            row as int,
                            column as int + 1,
                        );
                        assert(children@ =~= children@.drop_last() + front);
                        assert((children@.drop_last() + front) + rest =~= children@.drop_last() + (
                        front + rest));
                    }
                } else {
                }
                column += 1;
            }
            proof {
                assert(self.spec_children_from(color, row as int, 3) == self.spec_children_from(
                    color,
                    row as int + 1,
                    0,
                ));
            }
            row += 1;
        }
        proof {
            assert(children@ + self.spec_children_from(color, 3, 0) =~= children@);
        }
        children
    }

    fn apply(&self, m: Move) -> (r: Self) {
        let mut board = *self;
        let sign: i64 = if m.color {
            1
        } else {
            -1
        };
        board.game_field[m.pos.x][m.pos.y] = sign;
        proof {
            let target = self.spec_apply(m);
            assert forall|a: int| 0 <= a < 3 implies #[trigger] board.game_field[a]
                == target.game_field[a] by {
                assert(board.game_field[a] =~= target.game_field[a]);
            }
            assert(board.game_field =~= target.game_field);
        }
        board
    }

    fn undo(&self, m: Move) -> (r: Self) {
        let mut board = *self;
        proof {
            let origin = choose|s: TicTacToeGame|
                s.wf() && s.valid_move(m) && *self == s.spec_apply(m);
            assert(origin.valid_move(m));
        }
        board.game_field[m.pos.x][m.pos.y] = 0;
        proof {
            let target = self.spec_undo(m);
            assert forall|a: int| 0 <= a < 3 implies #[trigger] board.game_field[a]
                == target.game_field[a] by {
                assert(board.game_field[a] =~= target.game_field[a]);
            }
            assert(board.game_field =~= target.game_field);
        }
        board
    }
}

impl TicTacToeGame {
    /// The board encoded, cell by cell in row-major order, as a base-three
    /// number: the running value before reaching cell `(row, col)`.
    pub open spec fn spec_hash_prefix(&self, row: int, col: int) -> int
        decreases row, col,
    {
        if row <= 0 && col <= 0 {
            0
        } else if col <= 0 {
            3 * self.spec_hash_prefix(row - 1, 2) + self.game_field[row - 1][2] + 1
        } else {
            3 * self.spec_hash_prefix(row, col - 1) + self.game_field[row][col - 1] + 1
        }
    }

    pub open spec fn spec_pow3(n: nat) -> int
        decreases n,
    {
        if n == 0 {
            1
        } else {
            3 * Self::spec_pow3((n - 1) as nat)
        }
    }

    proof fn lemma_pow3_values()
        ensures
            Self::spec_pow3(9) == 19683,
    {
        assert(Self::spec_pow3(0) == 1);
        assert(Self::spec_pow3(1) == 3);
        assert(Self::spec_pow3(2) == 9);
        assert(Self::spec_pow3(3) == 27);
        assert(Self::spec_pow3(4) == 81);
        assert(Self::spec_pow3(5) == 243);
        assert(Self::spec_pow3(6) == 729);
        assert(Self::spec_pow3(7) == 2187);
        assert(Self::spec_pow3(8) == 6561);
        assert(Self::spec_pow3(9) == 19683);
    }
}

impl StateHash for TicTacToeGame {
    open spec fn spec_hash(&self, color: bool) -> i64 {
        (2 * self.spec_hash_prefix(3, 0) + if color {
            1int
        } else {
            0int
        }) as i64
    }

    fn hash(&self, color: bool) -> (r: i64) {
        let mut h: i64 = 0;
        let mut row: usize = 0;
        while row < 3
            invariant
                self.wf(),
                0 <= row <= 3,
                h == self.spec_hash_prefix(row as int, 0),
                0 <= h < Self::spec_pow3((3 * row) as nat),
                Self::spec_pow3((3 * row) as nat) <= 19683,
            decreases 3 - row,
        {
            let mut col: usize = 0;
            while col < 3
                invariant
                    self.wf(),
                    0 <= row < 3,
                    0 <= col <= 3,
                    h == self.spec_hash_prefix(row as int, col as int),
                    0 <= h < Self::spec_pow3((3 * row + col) as nat),
                    Self::spec_pow3((3 * row + col) as nat) <= 19683,
                decreases 3 - col,
            {
                proof {
                    assert(Self::spec_pow3((3 * row + col + 1) as nat) == 3 * Self::spec_pow3(
                        (3 * row + col) as nat,
                    ));
                    Self::lemma_pow3_values();
                    assert(Self::spec_pow3((3 * row + col + 1) as nat) <= 19683) by {
                        assert(3 * row + col + 1 <= 9);
                        lemma_pow3_le(((3 * row + col + 1) as nat), 9nat);
                    }
                }
                h = 3 * h + self.game_field[row][col] + 1;
                col += 1;
            }
            proof {
                assert(self.spec_hash_prefix(row as int, 3) == self.spec_hash_prefix(
                    row as int + 1,
                    0,
                ));
            }
            row += 1;
        }
        if color {
            2 * h + 1
        } else {
            2 * h
        }
    }

    fn eq_state(&self, other: &Self) -> (r: bool) {
        *self == *other
    }
}

proof fn lemma_pow3_le(a: nat, b: nat)
    requires
        a <= b,
    ensures
        TicTacToeGame::spec_pow3(a) <= TicTacToeGame::spec_pow3(b),
    decreases b,
{
    if a < b {
        lemma_pow3_le(a, (b - 1) as nat);
        assert(TicTacToeGame::spec_pow3(b) == 3 * TicTacToeGame::spec_pow3((b - 1) as nat));
        assert(TicTacToeGame::spec_pow3((b - 1) as nat) >= 1) by {
            lemma_pow3_pos((b - 1) as nat);
        }
    }
}

proof fn lemma_pow3_pos(n: nat)
    ensures
        TicTacToeGame::spec_pow3(n) >= 1,
    decreases n,
{
    if n > 0 {
        lemma_pow3_pos((n - 1) as nat);
    }
}

} // verus!
