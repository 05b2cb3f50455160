use tictactoe::board::{Board, CellState};
use tictactoe::encoded_board::Board as EncodedBoard;
use tictactoe::encoded_logic::LogicController as EncodedLogic;
use tictactoe::logic::LogicController;
use tictactoe::outcome::{evaluate, Outcome};

fn board_of(values: [i16; 9]) -> Board {
    // -1 stands for an empty cell, any other value for that player's piece.
    let cells: Vec<CellState> = values
        .iter()
        .map(|&v| {
            if v < 0 {
                CellState::Empty
            } else {
                CellState::Player(v as u8)
            }
        })
        .collect();
    Board::new_from(cells)
}

#[test]
fn empty_board_in_progress() {
    let b = Board::new();
    assert_eq!(evaluate(&b), Outcome::InProgress);
}

#[test]
fn winning_row_on_sparse_board() {
    // A full top row wins even though the board is far from full.
    let b = board_of([5, 5, 5, -1, -1, -1, -1, -1, -1]);
    assert_eq!(evaluate(&b), Outcome::Winner(5));
}

#[test]
fn full_board_without_uniform_axis_draws() {
    let b = board_of([1, 2, 1, 1, 2, 2, 2, 1, 1]);
    assert_eq!(evaluate(&b), Outcome::Draw);
}

#[test]
fn evaluate_is_idempotent() {
    let b = board_of([1, 2, 1, -1, 2, -1, 2, -1, 1]);
    assert_eq!(evaluate(&b), evaluate(&b));
}

#[test]
fn partial_board_in_progress() {
    let b = board_of([1, 2, 1, -1, 2, -1, 2, -1, 1]);
    assert_eq!(evaluate(&b), Outcome::InProgress);
}

#[test]
fn winning_column_detected() {
    let b = board_of([7, 2, -1, 7, -1, 2, 7, 2, -1]);
    assert_eq!(evaluate(&b), Outcome::Winner(7));
}

#[test]
fn winning_major_diagonal_detected() {
    let b = board_of([4, 2, -1, 2, 4, -1, -1, 2, 4]);
    assert_eq!(evaluate(&b), Outcome::Winner(4));
}

#[test]
fn winning_minor_diagonal_detected() {
    let b = board_of([2, 2, 4, -1, 4, 2, 4, -1, -1]);
    assert_eq!(evaluate(&b), Outcome::Winner(4));
}

#[test]
fn full_winning_board_reports_winner_not_draw() {
    let b = board_of([3, 3, 3, 2, 2, 3, 3, 2, 2]);
    assert_eq!(evaluate(&b), Outcome::Winner(3));
}

#[test]
fn logic_controller_agrees_with_evaluate() {
    let logic = LogicController {};
    let won = board_of([5, 5, 5, -1, -1, -1, -1, -1, -1]);
    assert_eq!(logic.check_for_victory(&won), Some(CellState::Player(5)));
    assert_eq!(won.check_for_victory(), Some(CellState::Player(5)));

    let open = Board::new();
    assert_eq!(logic.check_for_victory(&open), None);
}

#[test]
fn encoded_logic_controller_finds_winner() {
    let logic = EncodedLogic {};
    let mut b = EncodedBoard::new();
    assert_eq!(logic.check_for_victory(&b), None);
    b.place(2, 9);
    b.place(4, 9);
    b.place(6, 9);
    assert_eq!(logic.check_for_victory(&b), Some(9));
}
