//! A simple heuristic move source: it rates cells by adjacency and blocking
//! instead of searching the game tree, and always proposes the centre cell.

use crate::board::{adjacent_cells_seq, candidate_in_range, lemma_adjacent_cells_len, Board,
    CellState, BOARD_STANDARD_WIDTH};
use crate::controller::{InputError, InputType, PlayerController};
use crate::game::GameState;
use vstd::prelude::*;

verus! {

/// How many cells of `s` hold the piece `p`.
pub open spec fn count_piece(s: Seq<CellState>, p: u8) -> nat
    decreases s.len(),
{
    if s.len() == 0 {
        0
    } else {
        count_piece(s.drop_last(), p) + if s.last() == CellState::Player(p) {
            1nat
        } else {
            0nat
        }
    }
}

/// The heuristic computer seat: scores cells on a scratch board instead of
/// searching the game tree.
pub struct AIPlayer {
    #[allow(dead_code)]
    test_board: Board,
    encoded: u8,
}

impl PlayerController for AIPlayer {
    /// Always proposes the centre cell of the standard board.
    fn handle_input(&self, _gamestate: &GameState<'_>) -> (r: Result<InputType, InputError>)
        ensures
            r == Result::<InputType, InputError>::Ok(InputType::Coord(4)),
    {
        Ok(InputType::Coord(4))
    }
}

impl AIPlayer {
    /// The encoded piece this seat plays.
    pub closed spec fn encoded_spec(&self) -> u8 {
        self.encoded
    }

    /// The scratch board this seat scores moves on.
    pub closed spec fn test_board_spec(&self) -> Board {
        self.test_board
    }

    /// A heuristic seat playing the given encoded piece, with a fresh
    /// all-empty scratch board of the standard width.
    pub fn new(encoded: u8) -> (r: AIPlayer)
        ensures
            r.encoded_spec() == encoded,
            r.test_board_spec().wf(),
            r.test_board_spec().width_spec() == BOARD_STANDARD_WIDTH,
            forall|i: int| 0 <= i < r.test_board_spec()@.len() ==> r.test_board_spec()@[i]
                is Empty,
    {
        AIPlayer { test_board: Board::new(), encoded }
    }

    /// Whether the opponent already sits somewhere on the line, closing that
    /// axis of victory.
    pub fn is_blocked(&self, opponent: u8, vector: &[u8]) -> (r: bool)
        ensures
            r == vector@.contains(opponent),
    {
        let n = vector.len();
        for i in 0..n
            invariant
                n == vector@.len(),
                forall|k: int| 0 <= k < i ==> vector@[k] != opponent,
        {
            if vector[i] == opponent {
                proof {
                    assert(vector@[i as int] == opponent);
                }
                return true;
            }
        }
        false
    }

    /// The number of potential axes of victory a cell could open; the
    /// heuristic currently rates every cell alike.
    pub fn calculate_freedom_score(&self, _cell: usize) -> (r: u8)
        ensures
            r == 0,
    {
        0
    }

    /// How many cells adjacent to `cell_number` this seat already occupies.
    pub fn calculate_adjacency_score(&self, board: &Board, cell_number: usize) -> (r: u8)
        ensures
            r as nat == count_piece(
                adjacent_cells_seq(board@, cell_number as int, board.width_spec() as int),
                self.encoded_spec(),
            ),
    {
        let adjacents = board.get_adjacent_cells(cell_number);
        let n = adjacents.len();
        proof {
            lemma_adjacent_cells_len(board@, cell_number as int, board.width_spec() as int);
        }
        let mut count: u8 = 0;
        for i in 0..n
            invariant
                n == adjacents@.len(),
                n <= 4,
                adjacents@ == adjacent_cells_seq(
                    board@,
                    cell_number as int,
                    board.width_spec() as int,
                ),
                count as int <= i,
                count as nat == count_piece(adjacents@.take(i as int), self.encoded_spec()),
        {
            proof {
                let pre = adjacents@.take(i as int);
                let cur = adjacents@.take(i + 1);
                assert(cur.drop_last() =~= pre);
                assert(cur.last() == adjacents@[i as int]);
            }
            if adjacents[i] == CellState::Player(self.encoded) {
                count = count + 1;
            }
        }
        proof {
            assert(adjacents@.take(n as int) =~= adjacents@);
        }
        count
    }

    /// How strongly a cell blocks the opponent; the heuristic currently
    /// rates every cell alike.
    pub fn calculate_blocked_score(&self, _cell: usize) -> (r: u8)
        ensures
            r == 0,
    {
        0
    }
}

} // verus!
