//! A standalone victory checker over the encoded board: the same verdict as
//! the board's own check, packaged as a separate controller.

use crate::encoded_board::{
    col_seq, cols_winner, lemma_cols_winner_skip, lemma_rows_winner_skip, line_winner,
    major_diag_seq, minor_diag_seq, row_seq, rows_winner, victory_piece, Board,
    EMPTY_CELL_SYMBOL,
};
use vstd::prelude::*;

verus! {

/// Decides whether either player has won a given encoded board.
pub struct LogicController {}

impl LogicController {
    /// The winning encoded symbol, if any axis is uniformly occupied: all
    /// rows first, then all columns, then the two diagonals.
    pub fn check_for_victory(&self, board: &Board) -> (r: Option<u8>)
        requires
            board.wf(),
        ensures
            r == victory_piece(board@, board.width_spec()),
    {
        match self.has_horizontal_victor(board) {
            Some(p) => Some(p),
            None => match self.has_vertical_victor(board) {
                Some(p) => Some(p),
                None => self.has_diagonal_victor(board),
            },
        }
    }

    /// The winner of the topmost winning row, if any row wins.
    fn has_horizontal_victor(&self, board: &Board) -> (r: Option<u8>)
        requires
            board.wf(),
        ensures
            r == rows_winner(board@, board.width_spec()),
    {
        let rows = board.get_all_rows();
        let n = rows.len();
        for i in 0..n
            invariant
                board.wf(),
                n == board.width_spec(),
                rows@.len() == n,
                forall|k: int| 0 <= k < n ==> #[trigger] rows@[k]@ == row_seq(
                    board@,
                    board.width_spec(),
                    k as nat,
                ),
                forall|k: nat| k < i ==> line_winner(#[trigger] row_seq(
                    board@,
                    board.width_spec(),
                    k,
                )) is None,
        {
            let has_victor = self.has_victor(rows[i].as_slice());
            if has_victor.is_some() {
                proof {
                    lemma_rows_winner_skip(board@, board.width_spec(), i as nat);
                }
                return has_victor;
            }
        }
        proof {
            lemma_rows_winner_skip(board@, board.width_spec(), board.width_spec());
        }
        None
    }

    /// The winner of the leftmost winning column, if any column wins.
    fn has_vertical_victor(&self, board: &Board) -> (r: Option<u8>)
        requires
            board.wf(),
        ensures
            r == cols_winner(board@, board.width_spec()),
    {
        let columns = board.get_all_columns();
        let n = columns.len();
        for i in 0..n
            invariant
                board.wf(),
                n == board.width_spec(),
                columns@.len() == n,
                forall|k: int| 0 <= k < n ==> #[trigger] columns@[k]@ == col_seq(
                    board@,
                    board.width_spec(),
                    k as nat,
                ),
                forall|k: nat| k < i ==> line_winner(#[trigger] col_seq(
                    board@,
                    board.width_spec(),
                    k,
                )) is None,
        {
            let has_victor = self.has_victor(columns[i].as_slice());
            if has_victor.is_some() {
                proof {
                    lemma_cols_winner_skip(board@, board.width_spec(), i as nat);
                }
                return has_victor;
            }
        }
        proof {
            lemma_cols_winner_skip(board@, board.width_spec(), board.width_spec());
        }
        None
    }

    /// The winner of a diagonal, trying the major diagonal first.
    fn has_diagonal_victor(&self, board: &Board) -> (r: Option<u8>)
        requires
            board.wf(),
        ensures
            r == if line_winner(major_diag_seq(board@, board.width_spec())) is Some {
                line_winner(major_diag_seq(board@, board.width_spec()))
            } else {
                line_winner(minor_diag_seq(board@, board.width_spec()))
            },
    {
        let diagonal_1 = board.get_diagonal(0);
        let diagonal_2 = board.get_diagonal(1);
        match self.has_victor(diagonal_1.as_slice()) {
            Some(p) => Some(p),
            None => self.has_victor(diagonal_2.as_slice()),
        }
    }

    /// The encoded piece that owns the whole line, if one occupied symbol
    /// fills every cell of it.
    fn has_victor(&self, vec: &[u8]) -> (r: Option<u8>)
        ensures
            r == line_winner(vec@),
    {
        if vec.len() == 0 {
            return None;
        }
        let first = vec[0];
        if first == EMPTY_CELL_SYMBOL {
            return None;
        }
        let n = vec.len();
        for i in 0..n
            invariant
                n == vec@.len(),
                n > 0,
                first == vec@[0],
                first != EMPTY_CELL_SYMBOL,
                forall|k: int| 0 <= k < i ==> (#[trigger] vec@[k]) == vec@[0],
        {
            if vec[i] != first {
                return None;
            }
        }
        Some(first)
    }
}

} // verus!
