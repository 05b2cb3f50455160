use tictactoe::board::{Board, CellState};
use tictactoe::controller::{InputError, InputType, PlayerController};
use tictactoe::game::GameState;
use tictactoe::minimax::AIMinimax;
use tictactoe::players::PlayerPiece;

fn board_of(values: [i16; 9]) -> Board {
    // -1 stands for an empty cell, any other value for that player's piece.
    let cells: Vec<CellState> = values
        .iter()
        .map(|&v| {
            if v < 0 {
                CellState::Empty
            } else {
                CellState::Player(v as u8)
            }
        })
        .collect();
    Board::new_from(cells)
}

/// The default roster seats the human on piece 1 and the engine on piece 2.
fn engine_piece() -> PlayerPiece {
    PlayerPiece::new(2)
}

fn opponent_piece() -> PlayerPiece {
    PlayerPiece::new(1)
}

#[test]
fn blocks_opponent_diagonal() {
    // The opponent holds cells 0 and 4 of the major diagonal and the engine
    // holds cell 1: the engine must block at cell 8.
    let mut gs = GameState::new();
    gs.apply_move(0, opponent_piece()).unwrap();
    gs.apply_move(4, opponent_piece()).unwrap();
    gs.apply_move(1, engine_piece()).unwrap();

    let engine = AIMinimax::new();
    assert_eq!(engine.find_best_move(&gs), 8);
}

#[test]
fn handle_input_blocks_opponent_diagonal() {
    let mut gs = GameState::new();
    gs.apply_move(0, opponent_piece()).unwrap();
    gs.apply_move(4, opponent_piece()).unwrap();
    gs.apply_move(1, engine_piece()).unwrap();

    let engine = AIMinimax::new();
    assert_eq!(engine.handle_input(&gs), Ok(InputType::Coord(8)));
}

#[test]
fn takes_winning_cell_one_ply_from_victory() {
    // The engine holds cells 0 and 1: cell 2 completes the top row.
    let mut gs = GameState::new();
    gs.apply_move(0, engine_piece()).unwrap();
    gs.apply_move(1, engine_piece()).unwrap();
    gs.apply_move(3, opponent_piece()).unwrap();
    gs.apply_move(6, opponent_piece()).unwrap();

    let engine = AIMinimax::new();
    assert_eq!(engine.find_best_move(&gs), 2);
}

#[test]
fn winning_move_scores_win_less_one_ply() {
    // Placing the engine's piece on the winning cell yields the winning
    // score discounted by the single ply it took.
    let gs = GameState::new();
    let after_win = board_of([2, 2, 2, 1, -1, -1, 1, -1, -1]);

    let engine = AIMinimax::new();
    assert_eq!(engine.minimax(&gs, &after_win, 1, false), 9);
}

#[test]
fn prefers_immediate_win_over_slower_win() {
    // Cell 2 wins at once; cell 4 only opens a diagonal that could win two
    // plies later. The depth bias must pick the immediate win.
    let mut gs = GameState::new();
    gs.apply_move(0, engine_piece()).unwrap();
    gs.apply_move(1, engine_piece()).unwrap();
    gs.apply_move(3, opponent_piece()).unwrap();
    gs.apply_move(6, opponent_piece()).unwrap();

    let engine = AIMinimax::new();
    let best = engine.find_best_move(&gs);
    assert_eq!(best, 2);

    // The slower line really is worth less.
    let slow = board_of([2, 2, -1, 1, 2, -1, 1, -1, -1]);
    assert!(engine.minimax(&gs, &slow, 1, false) < 9);
}

#[test]
fn tie_breaks_to_lowest_index() {
    // Cells 2 and 8 both complete a row at once; the engine must keep the
    // earliest candidate and answer 2.
    let mut gs = GameState::new();
    gs.apply_move(0, engine_piece()).unwrap();
    gs.apply_move(1, engine_piece()).unwrap();
    gs.apply_move(6, engine_piece()).unwrap();
    gs.apply_move(7, engine_piece()).unwrap();
    gs.apply_move(3, opponent_piece()).unwrap();
    gs.apply_move(5, opponent_piece()).unwrap();

    let engine = AIMinimax::new();
    assert_eq!(engine.find_best_move(&gs), 2);

    // Both candidates indeed score alike.
    let via_2 = board_of([2, 2, 2, 1, -1, 1, 2, 2, -1]);
    let via_8 = board_of([2, 2, -1, 1, -1, 1, 2, 2, 2]);
    assert_eq!(engine.minimax(&gs, &via_2, 1, false), 9);
    assert_eq!(engine.minimax(&gs, &via_8, 1, false), 9);
}

#[test]
fn lost_board_scores_loss_plus_depth() {
    let gs = GameState::new();
    let lost = board_of([1, 1, 1, 2, 2, -1, -1, -1, -1]);

    let engine = AIMinimax::new();
    assert_eq!(engine.minimax(&gs, &lost, 3, true), -7);
}

#[test]
fn drawn_board_scores_zero() {
    let gs = GameState::new();
    let drawn = board_of([1, 2, 1, 1, 2, 2, 2, 1, 1]);

    let engine = AIMinimax::new();
    assert_eq!(engine.minimax(&gs, &drawn, 5, true), 0);
}

#[test]
fn forced_draw_is_taken() {
    // One empty cell, no win available: the engine takes it and the game
    // drains to a draw worth zero.
    let mut gs = GameState::new();
    for (i, p) in [(0, 1), (1, 2), (2, 1), (3, 1), (4, 2), (5, 2), (6, 2), (7, 1)] {
        gs.apply_move(i, PlayerPiece::new(p)).unwrap();
    }

    let engine = AIMinimax::new();
    assert_eq!(engine.find_best_move(&gs), 8);
}

#[test]
fn handle_input_rejects_decided_board() {
    let mut gs = GameState::new();
    gs.apply_move(0, engine_piece()).unwrap();
    gs.apply_move(1, engine_piece()).unwrap();
    gs.apply_move(2, engine_piece()).unwrap();

    let engine = AIMinimax::new();
    assert_eq!(engine.handle_input(&gs), Err(InputError::InvalidCommand));
}
