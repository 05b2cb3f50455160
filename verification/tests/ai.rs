use tictactoe::board::{Board, CellState};
use tictactoe::controller::{InputType, PlayerController};
use tictactoe::game::GameState;
use tictactoe::scoring::AIPlayer;

#[test]
fn ai_is_blocked_test() {
    let ai = AIPlayer::new(64);
    assert!(!ai.is_blocked(8, &[0, 0, 0]));
}

#[test]
fn ai_is_blocked_true() {
    let ai = AIPlayer::new(64);
    assert!(ai.is_blocked(8, &[0, 0, 8]));
}

#[test]
fn ai_is_blocked_not() {
    let ai = AIPlayer::new(64);
    assert!(!ai.is_blocked(8, &[0, 32, 0]));
}

#[test]
fn ai_basic() {
    let board = Board::new_from(vec![
        CellState::Empty,
        CellState::Player(32),
        CellState::Empty,
        CellState::Player(32),
        CellState::Empty,
        CellState::Empty,
        CellState::Empty,
        CellState::Player(32),
        CellState::Empty,
    ]);
    let ai = AIPlayer::new(32);

    assert_eq!(ai.calculate_adjacency_score(&board, 4), 3);
}

#[test]
fn poor_is_blocked_test() {
    let ai = AIPlayer::new(64);
    assert!(!ai.is_blocked(8, &[0, 0, 0]));
}

#[test]
fn poor_is_blocked_true() {
    let ai = AIPlayer::new(64);
    assert!(ai.is_blocked(8, &[0, 0, 8]));
}

#[test]
fn poor_is_blocked_not() {
    let ai = AIPlayer::new(64);
    assert!(!ai.is_blocked(8, &[0, 32, 0]));
}

#[test]
fn poor_basic() {
    let board = Board::new_from(vec![
        CellState::Empty,
        CellState::Player(32),
        CellState::Empty,
        CellState::Player(32),
        CellState::Empty,
        CellState::Empty,
        CellState::Empty,
        CellState::Player(32),
        CellState::Empty,
    ]);
    let ai = AIPlayer::new(32);

    assert_eq!(ai.calculate_adjacency_score(&board, 4), 3);
}

#[test]
fn scores_are_flat() {
    let ai = AIPlayer::new(64);
    assert_eq!(ai.calculate_freedom_score(3), 0);
    assert_eq!(ai.calculate_blocked_score(3), 0);
}

#[test]
fn adjacency_corner_counts_flat_neighbours() {
    let board = Board::new_from(vec![
        CellState::Empty,
        CellState::Player(32),
        CellState::Player(32),
        CellState::Player(32),
        CellState::Empty,
        CellState::Empty,
        CellState::Empty,
        CellState::Empty,
        CellState::Empty,
    ]);
    let ai = AIPlayer::new(32);

    // Flat-index adjacency of cell 2 sees cells 1, 3 and 5: cell 3 sits on
    // the next row but one step away in the backing storage.
    assert_eq!(ai.calculate_adjacency_score(&board, 2), 2);
}

#[test]
fn heuristic_seat_proposes_the_centre() {
    let ai = AIPlayer::new(64);
    let gs = GameState::new();
    assert_eq!(ai.handle_input(&gs), Ok(InputType::Coord(4)));
}
