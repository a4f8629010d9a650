use std::cell::RefCell;

use impasse::base::{alpha_beta, alpha_beta_bitwise, alpha_beta_with_table, nega, nega_scout, nega_with_table};
use impasse::games::tic_tac_toe::actions::{Move, Position};
use impasse::games::tic_tac_toe::game::TicTacToeGame;
use impasse::iterative_deepening::{iterative_deepening, iterative_deepening_t, iterative_deepening_tt, iterative_deepening_t_tt};
use impasse::lowest_score;
use impasse::move_finders::{find_best_move, find_best_move_t_tt_id, find_best_move_tt};
use impasse::traits::{ChildStates, ScoreOfState, StateHash, TerminalState};
use impasse::transposition_table::{TranspositionTable, TranspositionStateType};

fn board(cells: [[i64; 3]; 3]) -> TicTacToeGame {
    TicTacToeGame { game_field: cells }
}

fn full_low() -> i64 {
    lowest_score()
}

#[test]
fn empty_board_depth_nine_is_drawn() {
    let s = board([[0, 0, 0], [0, 0, 0], [0, 0, 0]]);
    assert_eq!(alpha_beta(&s, 9, true, full_low(), i64::MAX), 0);
}

#[test]
fn winning_row_found_at_depth_five() {
    let s = board([[1, 1, 0], [0, -1, 0], [0, 0, 0]]);
    assert_eq!(alpha_beta(&s, 5, true, full_low(), i64::MAX), 10);
    let m = find_best_move(&s, 5, true, |c: TicTacToeGame, d: i64, col: bool| {
        alpha_beta(&c, d, col, lowest_score(), i64::MAX)
    });
    assert_eq!(m, Move { pos: Position { x: 0, y: 2 }, color: true });
}

#[test]
fn threatened_column_is_blocked() {
    // MIN threatens the first column; MAX must play its last cell.
    let s = board([[-1, 0, 0], [-1, 1, 0], [0, 0, 1]]);
    let m = find_best_move(&s, 3, true, |c: TicTacToeGame, d: i64, col: bool| {
        alpha_beta(&c, d, col, lowest_score(), i64::MAX)
    });
    assert_eq!(m.pos, Position { x: 2, y: 0 });
}

#[test]
fn nega_agrees_with_alpha_beta_and_scout() {
    let boards = [
        [[0, 0, 0], [0, 0, 0], [0, 0, 0]],
        [[1, 1, 0], [0, -1, 0], [0, 0, 0]],
        [[-1, 0, 0], [-1, 1, 0], [0, 0, 1]],
        [[1, -1, 1], [0, -1, 0], [0, 1, -1]],
    ];
    for cells in boards {
        let s = board(cells);
        for depth in 0..6 {
            let mm_max = alpha_beta(&s, depth, true, full_low(), i64::MAX);
            let mm_min = alpha_beta(&s, depth, false, full_low(), i64::MAX);
            assert_eq!(nega(&s, depth, true, full_low(), i64::MAX), mm_max);
            assert_eq!(nega(&s, depth, false, full_low(), i64::MAX), -mm_min);
            assert_eq!(nega_scout(&s, depth, true, full_low(), i64::MAX), mm_max);
            assert_eq!(nega_scout(&s, depth, false, full_low(), i64::MAX), -mm_min);
            assert_eq!(alpha_beta_bitwise(&s, depth, 1, full_low(), i64::MAX), mm_max);
            assert_eq!(alpha_beta_bitwise(&s, depth, 0, full_low(), i64::MAX), mm_min);
        }
    }
}

#[test]
fn table_search_matches_plain_search() {
    let s = board([[1, 1, 0], [0, -1, 0], [0, 0, 0]]);
    let mut table: TranspositionTable<TicTacToeGame, Move> = TranspositionTable::default();
    for depth in 0..6 {
        let with_table = nega_with_table(&s, depth, true, &mut table, full_low(), i64::MAX);
        let plain = nega(&s, depth, true, full_low(), i64::MAX);
        assert_eq!(with_table, plain);
    }
    // A second run over the warmed table still agrees.
    for depth in 0..6 {
        let with_table = nega_with_table(&s, depth, true, &mut table, full_low(), i64::MAX);
        let plain = nega(&s, depth, true, full_low(), i64::MAX);
        assert_eq!(with_table, plain);
    }
    assert!(table.size() > 0);
    assert!(table.cap() >= table.size());
}

#[test]
fn stored_entry_is_exact_on_the_full_window() {
    let s = board([[1, 1, 0], [0, -1, 0], [0, 0, 0]]);
    let mut table: TranspositionTable<TicTacToeGame, Move> = TranspositionTable::default();
    let value = nega_with_table(&s, 3, true, &mut table, full_low(), i64::MAX);
    let probe = table.get(s.hash(true), &s, true);
    assert_eq!(probe.0, value);
    assert_eq!(probe.1, 3);
    // Nothing was stored for this state with MIN to move: the probe misses
    // and hands back the sentinel tuple.
    let miss = table.get(s.hash(false), &s, false);
    assert_eq!(miss.0, 0);
    assert_eq!(miss.1, 0);
    assert_eq!(miss.2, TranspositionStateType::Unknown);
}

#[test]
fn alpha_beta_table_variant_matches_plain() {
    let s = board([[-1, 0, 0], [-1, 1, 0], [0, 0, 1]]);
    let mut table: TranspositionTable<TicTacToeGame, Move> = TranspositionTable::default();
    for color in [true, false] {
        for depth in 0..5 {
            let with_table =
                alpha_beta_with_table(&s, depth, color, &mut table, full_low(), i64::MAX);
            let plain = alpha_beta(&s, depth, color, full_low(), i64::MAX);
            assert_eq!(with_table, plain);
        }
    }
}

#[test]
fn depth_zero_returns_the_static_score() {
    let s = board([[1, 1, 1], [0, -1, 0], [0, 0, 0]]);
    assert_eq!(s.score_of(), 10);
    assert_eq!(alpha_beta(&s, 0, true, full_low(), i64::MAX), 10);
    assert_eq!(alpha_beta(&s, 0, false, full_low(), i64::MAX), 10);
    assert_eq!(nega(&s, 0, true, full_low(), i64::MAX), 10);
    assert_eq!(nega(&s, 0, false, full_low(), i64::MAX), -10);
}

#[test]
fn terminal_state_returns_the_static_score_at_any_depth() {
    let s = board([[1, 1, 1], [-1, -1, 0], [0, 0, 0]]);
    assert!(s.is_terminal());
    for depth in 0..8 {
        assert_eq!(alpha_beta(&s, depth, true, full_low(), i64::MAX), 10);
        assert_eq!(nega(&s, depth, true, full_low(), i64::MAX), 10);
        assert_eq!(nega(&s, depth, false, full_low(), i64::MAX), -10);
    }
}

#[test]
fn single_legal_move_skips_the_searcher() {
    let s = board([[1, -1, 1], [1, -1, -1], [-1, 1, 0]]);
    let m = find_best_move(&s, 5, true, |_c: TicTacToeGame, _d: i64, _col: bool| -> i64 {
        panic!("the searcher must not run for a forced move");
    });
    assert_eq!(m.pos, Position { x: 2, y: 2 });
    let mut table: TranspositionTable<TicTacToeGame, Move> = TranspositionTable::default();
    let m2 = find_best_move_tt(&s, 4, true, &mut table);
    assert_eq!(m2.pos, Position { x: 2, y: 2 });
    let m3 = find_best_move_t_tt_id(&s, 50, true, &mut table);
    assert_eq!(m3.pos, Position { x: 2, y: 2 });
}

#[test]
fn zero_budget_runs_no_iteration() {
    let s = board([[0, 0, 0], [0, 0, 0], [0, 0, 0]]);
    let calls = RefCell::new(0u32);
    let r = iterative_deepening_t(&s, 0, true, |c: TicTacToeGame, d: i64, col: bool| {
        *calls.borrow_mut() += 1;
        alpha_beta(&c, d, col, lowest_score(), i64::MAX)
    });
    assert_eq!(*calls.borrow(), 0);
    assert_eq!(r, i64::MIN + 1);
    let r_min = iterative_deepening_t(&s, 0, false, |c: TicTacToeGame, d: i64, col: bool| {
        alpha_beta(&c, d, col, lowest_score(), i64::MAX)
    });
    assert_eq!(r_min, i64::MAX);
}

#[test]
fn depth_bounded_deepening_folds_the_iteration_scores() {
    let s = board([[1, 1, 0], [0, -1, 0], [0, 0, 0]]);
    let seen = RefCell::new(Vec::new());
    let r = iterative_deepening(&s, 4, true, |c: TicTacToeGame, d: i64, col: bool| {
        seen.borrow_mut().push(d);
        alpha_beta(&c, d, col, lowest_score(), i64::MAX)
    });
    assert_eq!(*seen.borrow(), vec![1, 2, 3]);
    let expected = (1..4)
        .map(|d| alpha_beta(&s, d, true, lowest_score(), i64::MAX))
        .max()
        .unwrap();
    assert_eq!(r, expected);
}

#[test]
fn table_backed_deepening_matches_plain_deepening() {
    let s = board([[1, 1, 0], [0, -1, 0], [0, 0, 0]]);
    let mut table: TranspositionTable<TicTacToeGame, Move> = TranspositionTable::default();
    let with_table = iterative_deepening_tt(&s, 5, true, &mut table);
    let plain = iterative_deepening(&s, 5, true, |c: TicTacToeGame, d: i64, col: bool| {
        nega(&c, d, col, lowest_score(), i64::MAX)
    });
    assert_eq!(with_table, plain);
    let mut table2: TranspositionTable<TicTacToeGame, Move> = TranspositionTable::default();
    let timed = iterative_deepening_t_tt(&s, true, 0, &mut table2);
    assert_eq!(timed, i64::MIN + 1);
}

#[test]
fn longer_budget_does_not_pick_a_worse_move() {
    // MIN threatens the last column; the first empty cell does not block it.
    let s = board([[0, 0, 1], [-1, -1, 0], [1, 0, 0]]);
    let reference = |m: Move| {
        let child = s.apply(m);
        alpha_beta(&child, 5, false, lowest_score(), i64::MAX)
    };
    let mut table: TranspositionTable<TicTacToeGame, Move> = TranspositionTable::default();
    let quick = find_best_move_t_tt_id(&s, 0, true, &mut table);
    let considered = find_best_move_t_tt_id(&s, 200, true, &mut table);
    assert!(reference(considered) >= reference(quick));
    assert_eq!(considered.pos, Position { x: 1, y: 2 });
}

#[test]
fn apply_then_undo_restores_the_board() {
    let s = board([[1, 0, 0], [0, -1, 0], [0, 0, 0]]);
    for m in s.child_states(true) {
        let back = s.apply(m).undo(m);
        assert!(back == s);
    }
}

#[test]
fn hash_depends_only_on_board_and_color() {
    let s1 = board([[1, 0, 0], [0, -1, 0], [0, 0, 0]]);
    let s2 = board([[1, 0, 0], [0, -1, 0], [0, 0, 0]]);
    assert_eq!(s1.hash(true), s2.hash(true));
    assert_eq!(s1.hash(false), s2.hash(false));
    assert_ne!(s1.hash(true), s1.hash(false));
}
