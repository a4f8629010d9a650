use impasse::base::{alpha_beta, nega, nega_with_table};
use impasse::games::impasse::actions::Move;
use impasse::games::impasse::game::{get_char, get_hash, Impasse};
use impasse::games::impasse::move_type::MoveType;
use impasse::games::impasse::position::{to_alphabet, Position};
use impasse::lowest_score;
use impasse::move_finders::random_agent;
use impasse::traits::{ChildStates, ScoreOfState, StateHash, TerminalState};
use impasse::transposition_table::TranspositionTable;

#[test]
fn opening_position_matches_the_layout() {
    let table = Impasse::gen_hash_field(420);
    let game = Impasse::new(&table);
    let f = game.game_field;
    assert_eq!(f[0][1], 2);
    assert_eq!(f[0][3], -1);
    assert_eq!(f[0][5], 2);
    assert_eq!(f[0][7], -1);
    assert_eq!(f[1][0], -1);
    assert_eq!(f[1][2], 2);
    assert_eq!(f[1][4], -1);
    assert_eq!(f[1][6], 2);
    assert_eq!(f[6][1], -2);
    assert_eq!(f[6][3], 1);
    assert_eq!(f[6][5], -2);
    assert_eq!(f[6][7], 1);
    assert_eq!(f[7][0], 1);
    assert_eq!(f[7][2], -2);
    assert_eq!(f[7][4], 1);
    assert_eq!(f[7][6], -2);
    let mut occupied = 0;
    for row in f {
        for v in row {
            if v != 0 {
                occupied += 1;
            }
        }
    }
    assert_eq!(occupied, 16);
}

#[test]
fn opening_position_scores_even() {
    let table = Impasse::gen_hash_field(7);
    let game = Impasse::new(&table);
    assert_eq!(game.score_of(), 10000);
    assert!(!game.is_terminal());
}

#[test]
fn hash_field_is_deterministic_in_the_seed() {
    let a = Impasse::gen_hash_field(420);
    let b = Impasse::gen_hash_field(420);
    let c = Impasse::gen_hash_field(421);
    assert_eq!(a, b);
    assert_ne!(a, c);
    let g1 = Impasse::new(&a);
    let g2 = Impasse::new(&b);
    assert_eq!(g1.hash(true), g2.hash(true));
    assert_ne!(g1.hash(true), g1.hash(false));
}

#[test]
fn opening_moves_round_trip() {
    let table = Impasse::gen_hash_field(420);
    let game = Impasse::new(&table);
    let moves = game.child_states(true);
    assert!(!moves.is_empty());
    for m in moves {
        assert!(m.is_valid());
        let back = game.apply(m).undo(m);
        assert!(back == game);
    }
    let moves_min = game.child_states(false);
    assert!(!moves_min.is_empty());
    for m in moves_min {
        let back = game.apply(m).undo(m);
        assert!(back == game);
    }
}

#[test]
fn searchers_agree_on_the_opening() {
    let table = Impasse::gen_hash_field(420);
    let game = Impasse::new(&table);
    let mm = alpha_beta(&game, 2, true, lowest_score(), i64::MAX);
    assert_eq!(nega(&game, 2, true, lowest_score(), i64::MAX), mm);
    let mut tt: TranspositionTable<Impasse<'_>, Move> = TranspositionTable::default();
    assert_eq!(nega_with_table(&game, 2, true, &mut tt, lowest_score(), i64::MAX), mm);
}

#[test]
fn random_agent_plays_a_legal_move() {
    let table = Impasse::gen_hash_field(420);
    let game = Impasse::new(&table);
    let mut rng = <rand::rngs::StdRng as rand::SeedableRng>::seed_from_u64(42);
    let moves = game.child_states(true);
    for _ in 0..10 {
        let m = random_agent(game, true, &mut rng);
        assert!(moves.contains(&m));
    }
}

#[test]
fn move_kinds_compose_as_the_table_says() {
    assert_eq!(MoveType::Normal.combine(MoveType::Crown), MoveType::Crown);
    assert_eq!(MoveType::Normal.combine(MoveType::BearOff), MoveType::BearOff);
    assert_eq!(MoveType::BearOff.combine(MoveType::Crown), MoveType::BearOffCrown);
    assert_eq!(MoveType::Transpose.combine(MoveType::Crown), MoveType::TransposeCrown);
    assert_eq!(MoveType::Transpose.combine(MoveType::BearOff), MoveType::TransposeBearOff);
    assert_eq!(MoveType::Impasse.combine(MoveType::Crown), MoveType::ImpasseCrown);
    assert_eq!(MoveType::default(), MoveType::Invalid);
    assert_eq!(MoveType::Impasse.string_map(), "Impasse");
    assert_eq!(MoveType::TransposeBearOff.string_map(), "TransposeBearOff");
}

#[test]
fn bear_off_halves_the_moved_double() {
    let defp = Position { x: 0, y: 0, old_sign: 3, new_sign: 3 };
    let mut m = Move {
        move_type: MoveType::Normal,
        positions: [
            Position { x: 6, y: 1, old_sign: 2, new_sign: 0 },
            Position { x: 7, y: 2, old_sign: 0, new_sign: 2 },
            defp,
        ],
    };
    m.to_bear_off();
    assert_eq!(m.move_type, MoveType::BearOff);
    assert_eq!(m.positions[1].new_sign, 1);
    assert_eq!(m.positions[0].new_sign, 0);
    assert!(m.is_valid());
    assert!(!Move::default().is_valid());
}

#[test]
fn terminal_when_one_side_is_gone() {
    let table = Impasse::gen_hash_field(420);
    let mut game = Impasse::new(&table);
    for i in 0..8 {
        for j in 0..8 {
            if game.game_field[i][j] < 0 {
                game.game_field[i][j] = 0;
            }
        }
    }
    assert!(game.is_terminal());
    assert_eq!(game.score_of(), i64::MIN + 1);
}

fn empty_board<'g>(table: &'g [[[u64; 4]; 8]; 8]) -> Impasse<'g> {
    let mut game = Impasse::new(table);
    for i in 0..8 {
        for j in 0..8 {
            game.game_field[i][j] = 0;
        }
    }
    game
}

#[test]
fn a_double_on_the_last_step_bears_off() {
    let table = Impasse::gen_hash_field(420);
    let mut game = empty_board(&table);
    game.game_field[6][1] = 2;
    game.game_field[0][7] = -1;
    let moves = game.child_states(true);
    assert_eq!(moves.len(), 2);
    for m in &moves {
        assert_eq!(m.move_type, MoveType::BearOff);
        assert_eq!(m.positions[1].new_sign, 1);
        assert_eq!(m.positions[1].x, 7);
        let back = game.apply(*m).undo(*m);
        assert!(back == game);
    }
}

#[test]
fn a_single_reaching_the_far_row_crowns_a_waiting_single() {
    let table = Impasse::gen_hash_field(420);
    let mut game = empty_board(&table);
    game.game_field[1][2] = 1;
    game.game_field[5][0] = 1;
    game.game_field[7][6] = -1;
    let moves = game.child_states(true);
    // Two landings of the riding single crown it in place, and the waiting
    // single's own ride to the far row crowns there as well.
    let crowns: Vec<_> = moves.iter().filter(|m| m.move_type == MoveType::Crown).collect();
    assert_eq!(crowns.len(), 3);
    for m in &crowns {
        let after = game.apply(**m);
        // The paired pawn left the board and the crowned cell holds a double.
        assert_eq!(after.game_field[5][0], 0);
        assert_eq!(after.game_field[1][2], 0);
        let mut doubles = 0;
        for i in 0..8 {
            for j in 0..8 {
                if after.game_field[i][j] == 2 {
                    doubles += 1;
                    assert_eq!(i, 0);
                }
            }
        }
        assert_eq!(doubles, 1);
        let back = after.undo(**m);
        assert!(back == game);
    }
}

#[test]
fn a_single_blocked_by_its_double_transposes() {
    let table = Impasse::gen_hash_field(420);
    let mut game = empty_board(&table);
    game.game_field[5][2] = 1;
    game.game_field[4][1] = 2;
    game.game_field[0][7] = -1;
    let moves = game.child_states(true);
    let transposes: Vec<_> =
        moves.iter().filter(|m| m.move_type == MoveType::Transpose).collect();
    assert_eq!(transposes.len(), 1);
    let after = game.apply(*transposes[0]);
    assert_eq!(after.game_field[5][2], 2);
    assert_eq!(after.game_field[4][1], 1);
    let back = after.undo(*transposes[0]);
    assert!(back == game);
}

#[test]
fn a_blocked_side_reduces_itself() {
    let table = Impasse::gen_hash_field(420);
    let mut game = empty_board(&table);
    // A MAX single on the far row with every diagonal blocked by MIN.
    game.game_field[0][3] = 1;
    game.game_field[1][2] = -1;
    game.game_field[1][4] = -1;
    let moves = game.child_states(true);
    assert_eq!(moves.len(), 1);
    assert_eq!(moves[0].move_type, MoveType::Impasse);
    let after = game.apply(moves[0]);
    assert_eq!(after.game_field[0][3], 0);
}

#[test]
fn cell_symbols_and_files() {
    assert_eq!(get_char(2), 'O');
    assert_eq!(get_char(1), 'o');
    assert_eq!(get_char(-1), 'x');
    assert_eq!(get_char(-2), 'X');
    assert_eq!(get_char(0), '_');
    assert_eq!(to_alphabet(0), 'A');
    assert_eq!(to_alphabet(7), 'H');
    assert_eq!(get_hash(-2), 0);
    assert_eq!(get_hash(2), 3);
}
