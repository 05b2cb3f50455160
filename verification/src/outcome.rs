//! The outcome evaluator: derives the state of the game — still running, won,
//! or drawn — from the board alone, and states the laws that the verdict
//! obeys.

use crate::board::{
    all_occupied, col_seq, lemma_cols_winner_witness, lemma_rows_winner_witness, line_winner,
    major_diag_seq, minor_diag_seq, row_seq, victory_piece, Board, CellState,
};
use vstd::prelude::*;

verus! {

/// The verdict on a board: the game is still open, one piece has won, or the
/// board is full with no winner.
#[derive(PartialEq, Eq, Clone, Copy, Debug, Structural)]
pub enum Outcome {
    InProgress,
    Winner(u8),
    Draw,
}

/// The verdict that a grid `v` of side `w` deserves: a winning piece if some
/// axis is uniformly occupied, otherwise a draw on a full board, otherwise
/// still in progress.
pub open spec fn outcome_spec(v: Seq<CellState>, w: nat) -> Outcome {
    match victory_piece(v, w) {
        Some(p) => Outcome::Winner(p),
        None => if all_occupied(v) {
            Outcome::Draw
        } else {
            Outcome::InProgress
        },
    }
}

/// Computes the verdict on a board. The verdict is always recomputed from the
/// cells; nothing is cached.
pub fn evaluate(board: &Board) -> (r: Outcome)
    requires
        board.wf(),
    ensures
        r == outcome_spec(board@, board.width_spec()),
{
    match board.check_for_victory() {
        Some(CellState::Player(p)) => Outcome::Winner(p),
        _ => {
            if board.is_full() {
                Outcome::Draw
            } else {
                Outcome::InProgress
            }
        },
    }
}

/// A line entirely occupied by piece `p`.
pub open spec fn uniform_line(line: Seq<CellState>, p: u8) -> bool {
    line.len() > 0 && forall|i: int| 0 <= i < line.len() ==> line[i] == CellState::Player(p)
}

/// A reported winner always comes with a witness on the board: some
/// full-length axis — a row, a column, or a diagonal — is entirely occupied
/// by the winning piece.
pub proof fn lemma_winner_has_axis(v: Seq<CellState>, w: nat, p: u8)
    requires
        outcome_spec(v, w) == Outcome::Winner(p),
    ensures
        (exists|r: nat| r < w && uniform_line(#[trigger] row_seq(v, w, r), p)) || (exists|c: nat|
            c < w && uniform_line(#[trigger] col_seq(v, w, c), p)) || uniform_line(
            major_diag_seq(v, w),
            p,
        ) || uniform_line(minor_diag_seq(v, w), p),
{
    assert(victory_piece(v, w) == Some(p));
    if crate::board::rows_winner(v, w) is Some {
        lemma_rows_winner_witness(v, w, 0);
        let r0 = choose|r0: nat| r0 < w && line_winner(#[trigger] row_seq(v, w, r0)) == Some(p);
        assert(uniform_line(row_seq(v, w, r0), p));
    } else if crate::board::cols_winner(v, w) is Some {
        lemma_cols_winner_witness(v, w, 0);
        let c0 = choose|c0: nat| c0 < w && line_winner(#[trigger] col_seq(v, w, c0)) == Some(p);
        assert(uniform_line(col_seq(v, w, c0), p));
    } else if line_winner(major_diag_seq(v, w)) is Some {
        assert(uniform_line(major_diag_seq(v, w), p));
    } else {
        assert(uniform_line(minor_diag_seq(v, w), p));
    }
}

/// A full board is never reported as still in progress: with no empty cell
/// left the verdict is a win or a draw.
pub proof fn lemma_full_board_decided(v: Seq<CellState>, w: nat)
    requires
        all_occupied(v),
    ensures
        outcome_spec(v, w) != Outcome::InProgress,
{
}

/// Evaluating an unmodified board twice yields identical verdicts: the
/// outcome is a function of the cells alone.
pub proof fn lemma_evaluate_deterministic(v: Seq<CellState>, w: nat, r1: Outcome, r2: Outcome)
    requires
        r1 == outcome_spec(v, w),
        r2 == outcome_spec(v, w),
    ensures
        r1 == r2,
{
}

} // verus!
