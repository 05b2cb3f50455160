use tictactoe::board::{Board, BoardError, CellState, Diagonal};

fn sample_cells() -> Vec<CellState> {
    vec![
        CellState::Empty,
        CellState::Player(1),
        CellState::Player(2),
        CellState::Player(3),
        CellState::Player(4),
        CellState::Player(5),
        CellState::Player(6),
        CellState::Player(7),
        CellState::Player(8),
    ]
}

#[test]
fn basic() {
    let b = Board::new_from(sample_cells());

    assert_eq!(
        b.get_row(0),
        vec![CellState::Empty, CellState::Player(1), CellState::Player(2)]
    );
}

#[test]
fn second() {
    let b = Board::new_from(sample_cells());

    assert_eq!(
        b.get_row(1),
        vec![
            CellState::Player(3),
            CellState::Player(4),
            CellState::Player(5)
        ]
    );
}

#[test]
fn third() {
    let b = Board::new_from(sample_cells());

    assert_eq!(
        b.get_row(2),
        vec![
            CellState::Player(6),
            CellState::Player(7),
            CellState::Player(8)
        ]
    );
}

#[test]
fn no_such_row() {
    let b = Board::new_from(sample_cells());

    assert_eq!(b.get_row(43), vec![]);
}

#[test]
fn board_basic() {
    let b = Board::new_from(sample_cells());

    assert_eq!(
        b.get_column(0),
        vec![CellState::Empty, CellState::Player(3), CellState::Player(6)]
    );
}

#[test]
fn board_second() {
    let b = Board::new_from(sample_cells());

    assert_eq!(
        b.get_column(1),
        vec![
            CellState::Player(1),
            CellState::Player(4),
            CellState::Player(7)
        ]
    );
}

#[test]
fn board_third() {
    let b = Board::new_from(sample_cells());

    assert_eq!(
        b.get_column(2),
        vec![
            CellState::Player(2),
            CellState::Player(5),
            CellState::Player(8)
        ]
    );
}

#[test]
fn board_empty() {
    let b = Board::new_from(sample_cells());

    assert_eq!(b.get_column(3), vec![]);
}

#[test]
fn diagonal_basic() {
    let b = Board::new_from(sample_cells());

    assert_eq!(
        b.get_diagonal(Diagonal::Major),
        vec![CellState::Empty, CellState::Player(4), CellState::Player(8)]
    );
}

#[test]
fn diagonal_second() {
    let b = Board::new_from(sample_cells());

    assert_eq!(
        b.get_diagonal(Diagonal::Minor),
        vec![
            CellState::Player(2),
            CellState::Player(4),
            CellState::Player(6)
        ]
    );
}

#[test]
fn new_from_basic() {
    let data = vec![
        CellState::Empty,
        CellState::Empty,
        CellState::Empty,
        CellState::Empty,
        CellState::Empty,
        CellState::Empty,
        CellState::Empty,
        CellState::Empty,
        CellState::Empty,
    ];

    let board = Board::new_from(data.clone());
    assert_eq!(board.cells(), &data);
}

#[test]
fn fresh_board_is_empty() {
    let b = Board::new();
    assert_eq!(b.len(), 9);
    assert!(!b.is_full());
    assert_eq!(b.get_positions_of_empty_cells(), vec![0, 1, 2, 3, 4, 5, 6, 7, 8]);
}

#[test]
fn valid_move_out_of_bounds() {
    let b = Board::new();
    assert_eq!(b.is_valid_move(43), Err(BoardError::OutOfBounds(43)));
}

#[test]
fn valid_move_occupied() {
    let mut b = Board::new();
    assert_eq!(b.place(4, 7), Ok(()));
    assert_eq!(b.is_valid_move(4), Err(BoardError::CellOccupied(4)));
    assert_eq!(b.is_valid_move(5), Ok(()));
}

#[test]
fn place_rejects_without_mutating() {
    let mut b = Board::new();
    assert_eq!(b.place(2, 7), Ok(()));
    let before = b.cells().clone();
    assert_eq!(b.place(2, 9), Err(BoardError::CellOccupied(2)));
    assert_eq!(b.place(9, 9), Err(BoardError::OutOfBounds(9)));
    assert_eq!(b.cells(), &before);
}

#[test]
fn empty_positions_ascend() {
    let mut b = Board::new();
    b.place(4, 1).unwrap();
    b.place(0, 2).unwrap();
    b.place(7, 1).unwrap();
    assert_eq!(b.get_positions_of_empty_cells(), vec![1, 2, 3, 5, 6, 8]);
    assert!(!b.is_full());
}

#[test]
fn full_board_reports_full() {
    let mut b = Board::new();
    for i in 0..9 {
        b.place(i, 1).unwrap();
    }
    assert!(b.is_full());
    assert_eq!(b.get_positions_of_empty_cells(), vec![]);
}

#[test]
fn check_for_victory_row_first() {
    let mut b = Board::new();
    b.place(0, 5).unwrap();
    b.place(1, 5).unwrap();
    b.place(2, 5).unwrap();
    assert_eq!(b.check_for_victory(), Some(CellState::Player(5)));
}

#[test]
fn check_for_victory_column() {
    let mut b = Board::new();
    b.place(1, 3).unwrap();
    b.place(4, 3).unwrap();
    b.place(7, 3).unwrap();
    assert_eq!(b.check_for_victory(), Some(CellState::Player(3)));
}

#[test]
fn check_for_victory_minor_diagonal() {
    let mut b = Board::new();
    b.place(2, 6).unwrap();
    b.place(4, 6).unwrap();
    b.place(6, 6).unwrap();
    assert_eq!(b.check_for_victory(), Some(CellState::Player(6)));
}

#[test]
fn check_for_victory_none_on_empty() {
    let b = Board::new();
    assert_eq!(b.check_for_victory(), None);
}

#[test]
fn modify_at_cell_overwrites() {
    let mut b = Board::new();
    b.modify_at_cell(3, CellState::Player(9));
    assert_eq!(b.cells()[3], CellState::Player(9));
    b.modify_at_cell(3, CellState::Empty);
    assert_eq!(b.cells()[3], CellState::Empty);
}

#[test]
fn adjacent_cells_centre() {
    let b = Board::new_from(sample_cells());
    assert_eq!(
        b.get_adjacent_cells(4),
        vec![
            CellState::Player(1),
            CellState::Player(3),
            CellState::Player(5),
            CellState::Player(7)
        ]
    );
}
