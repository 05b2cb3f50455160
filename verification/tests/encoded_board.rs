use tictactoe::encoded_board::Board;

fn sample_cells() -> Vec<u8> {
    vec![0, 1, 2, 3, 4, 5, 6, 7, 8]
}

#[test]
fn mod_basic() {
    let b = Board::new_from(sample_cells());

    assert_eq!(b.get_adjacents(4), vec![1, 3, 5, 7]);
}

#[test]
fn mod_second() {
    let b = Board::new_from(sample_cells());

    assert_eq!(b.get_adjacents(0), vec![1, 3]);
}

#[test]
fn mod_third() {
    let b = Board::new_from(sample_cells());

    assert_eq!(b.get_adjacents(1), vec![0, 2, 4]);
}

#[test]
fn no_match() {
    let b = Board::new_from(sample_cells());

    assert_eq!(b.get_adjacents(43), vec![]);
}

#[test]
fn mod_row_basic() {
    let b = Board::new_from(sample_cells());

    assert_eq!(b.get_row(0), vec![0, 1, 2]);
}

#[test]
fn mod_row_second() {
    let b = Board::new_from(sample_cells());

    assert_eq!(b.get_row(1), vec![3, 4, 5]);
}

#[test]
fn mod_row_third() {
    let b = Board::new_from(sample_cells());

    assert_eq!(b.get_row(2), vec![6, 7, 8]);
}

#[test]
fn mod_no_such_row() {
    let b = Board::new_from(sample_cells());

    assert_eq!(b.get_row(43), vec![]);
}

#[test]
fn mod_column_basic() {
    let b = Board::new_from(sample_cells());

    assert_eq!(b.get_column(0), vec![0, 3, 6]);
}

#[test]
fn mod_column_second() {
    let b = Board::new_from(sample_cells());

    assert_eq!(b.get_column(1), vec![1, 4, 7]);
}

#[test]
fn mod_column_third() {
    let b = Board::new_from(sample_cells());

    assert_eq!(b.get_column(2), vec![2, 5, 8]);
}

#[test]
fn mod_empty() {
    let b = Board::new_from(sample_cells());

    assert_eq!(b.get_column(3), vec![]);
}

#[test]
fn mod_diagonal_basic() {
    let b = Board::new_from(sample_cells());

    assert_eq!(b.get_diagonal(0), vec![0, 4, 8]);
}

#[test]
fn mod_diagonal_second() {
    let b = Board::new_from(sample_cells());

    assert_eq!(b.get_diagonal(1), vec![2, 4, 6]);
}

#[test]
fn empty() {
    let b = Board::new_from(sample_cells());

    assert_eq!(b.get_diagonal(3), vec![]);
}

#[test]
fn encoded_victory_checks() {
    let mut b = Board::new();
    assert_eq!(b.check_for_victory(), None);
    b.place(0, 9);
    b.place(1, 9);
    b.place(2, 9);
    assert_eq!(b.check_for_victory(), Some(9));
}
