//! A standalone victory checker over the cell-state board: the same verdict
//! as the board's own check, packaged as a separate controller.

use crate::board::{
    col_seq, cols_winner, lemma_cols_winner_skip, lemma_rows_winner_skip, line_winner,
    major_diag_seq, minor_diag_seq, piece_cell_opt, row_seq, rows_winner, victory_cell, Board,
    CellState,
};
use vstd::prelude::*;

verus! {

/// Decides whether either player has won a given board.
pub struct LogicController {}

impl LogicController {
    /// The winner along some axis, if any: all rows first, then all columns,
    /// then the two diagonals, and the first winning axis decides.
    pub fn check_for_victory(&self, board: &Board) -> (r: Option<CellState>)
        requires
            board.wf(),
        ensures
            r == victory_cell(board@, board.width_spec()),
    {
        match self.has_horizontal_victor(board) {
            Some(c) => Some(c),
            None => match self.has_vertical_victor(board) {
                Some(c) => Some(c),
                None => self.has_diagonal_victor(board),
            },
        }
    }

    /// The winner of the topmost winning row, if any row wins.
    fn has_horizontal_victor(&self, board: &Board) -> (r: Option<CellState>)
        requires
            board.wf(),
        ensures
            r == piece_cell_opt(rows_winner(board@, board.width_spec())),
    {
        let rows = board.get_all_rows();
        let n = rows.len();
        for i in 0..n
            invariant
                board.wf(),
                n == board.width_spec(),
                rows@.len() == n,
                forall|k: int| 0 <= k < n ==> #[trigger] rows@[k]@ == row_seq(
                    board@,
                    board.width_spec(),
                    k as nat,
                ),
                forall|k: nat| k < i ==> line_winner(#[trigger] row_seq(
                    board@,
                    board.width_spec(),
                    k,
                )) is None,
        {
            let has_victor = self.has_victor(rows[i].as_slice());
            if has_victor.is_some() {
                proof {
                    lemma_rows_winner_skip(board@, board.width_spec(), i as nat);
                }
                return has_victor;
            }
        }
        proof {
            lemma_rows_winner_skip(board@, board.width_spec(), board.width_spec());
        }
        None
    }

    /// The winner of the leftmost winning column, if any column wins.
    fn has_vertical_victor(&self, board: &Board) -> (r: Option<CellState>)
        requires
            board.wf(),
        ensures
            r == piece_cell_opt(cols_winner(board@, board.width_spec())),
    {
        let columns = board.get_all_columns();
        let n = columns.len();
        for i in 0..n
            invariant
                board.wf(),
                n == board.width_spec(),
                columns@.len() == n,
                forall|k: int| 0 <= k < n ==> #[trigger] columns@[k]@ == col_seq(
                    board@,
                    board.width_spec(),
                    k as nat,
                ),
                forall|k: nat| k < i ==> line_winner(#[trigger] col_seq(
                    board@,
                    board.width_spec(),
                    k,
                )) is None,
        {
            let has_victor = self.has_victor(columns[i].as_slice());
            if has_victor.is_some() {
                proof {
                    lemma_cols_winner_skip(board@, board.width_spec(), i as nat);
                }
                return has_victor;
            }
        }
        proof {
            lemma_cols_winner_skip(board@, board.width_spec(), board.width_spec());
        }
        None
    }

    /// The winner of a diagonal, trying the major diagonal first.
    fn has_diagonal_victor(&self, board: &Board) -> (r: Option<CellState>)
        requires
            board.wf(),
        ensures
            r == if line_winner(major_diag_seq(board@, board.width_spec())) is Some {
                piece_cell_opt(line_winner(major_diag_seq(board@, board.width_spec())))
            } else {
                piece_cell_opt(line_winner(minor_diag_seq(board@, board.width_spec())))
            },
    {
        let major = board.get_diagonal(crate::board::Diagonal::Major);
        match self.has_victor(major.as_slice()) {
            Some(c) => Some(c),
            None => {
                let minor = board.get_diagonal(crate::board::Diagonal::Minor);
                self.has_victor(minor.as_slice())
            },
        }
    }

    /// The cell value that owns the whole line, if one piece occupies every
    /// cell of it.
    fn has_victor(&self, vec: &[CellState]) -> (r: Option<CellState>)
        ensures
            r == piece_cell_opt(line_winner(vec@)),
    {
        if vec.len() == 0 {
            return None;
        }
        let first = vec[0];
        match first {
            CellState::Player(p) => {
                let n = vec.len();
                for i in 0..n
                    invariant
                        n == vec@.len(),
                        n > 0,
                        vec@[0] == CellState::Player(p),
                        forall|k: int| 0 <= k < i ==> vec@[k] == CellState::Player(p),
                {
                    if vec[i] != CellState::Player(p) {
                        return None;
                    }
                }
                Some(first)
            },
            CellState::Empty => None,
        }
    }
}

} // verus!
