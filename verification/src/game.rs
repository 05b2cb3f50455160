//! The turn coordinator's state: the authoritative board, the referee that
//! adjudicates it, the roster, and the restart and exit flags. The blocking
//! interaction loop around this state lives outside the verified core.

use crate::board::{line_winner, victory_piece, Board, BoardError, CellState, col_seq, row_seq,
    cols_winner, rows_winner, major_diag_seq, minor_diag_seq, lemma_cols_winner_skip,
    lemma_rows_winner_skip};
use crate::controller::{InputError, InputType};
use crate::players::{AIStrategy, PlayerList, PlayerPiece, PlayerType};
use vstd::prelude::*;

verus! {

/// A winning encoded symbol wrapped into the piece newtype.
pub open spec fn piece_opt(o: Option<u8>) -> Option<PlayerPiece> {
    match o {
        Some(p) => Some(PlayerPiece(p)),
        None => None,
    }
}

/// Adjudicates boards: says which piece, if any, has won.
pub struct GameReferee {}

impl GameReferee {
    /// The winning piece on the board, if any axis is uniformly occupied:
    /// all rows are tried first, then all columns, then the two diagonals.
    pub fn adjudicate(&self, board: &Board) -> (r: Option<PlayerPiece>)
        requires
            board.wf(),
        ensures
            r == piece_opt(victory_piece(board@, board.width_spec())),
    {
        match self.rows_have_winner(board) {
            Some(p) => Some(p),
            None => match self.columns_have_winner(board) {
                Some(p) => Some(p),
                None => self.diagonals_have_winner(board),
            },
        }
    }

    /// The winner of the topmost winning row, if any row wins.
    fn rows_have_winner(&self, board: &Board) -> (r: Option<PlayerPiece>)
        requires
            board.wf(),
        ensures
            r == piece_opt(rows_winner(board@, board.width_spec())),
    {
        let rows = board.get_all_rows();
        let n = rows.len();
        for i in 0..n
            invariant
                board.wf(),
                n == board.width_spec(),
                rows@.len() == n,
                forall|k: int| 0 <= k < n ==> #[trigger] rows@[k]@ == row_seq(
                    board@,
                    board.width_spec(),
                    k as nat,
                ),
                forall|k: nat| k < i ==> line_winner(#[trigger] row_seq(
                    board@,
                    board.width_spec(),
                    k,
                )) is None,
        {
            let winner = self.has_winner(rows[i].as_slice());
            if winner.is_some() {
                proof {
                    lemma_rows_winner_skip(board@, board.width_spec(), i as nat);
                }
                return winner;
            }
        }
        proof {
            lemma_rows_winner_skip(board@, board.width_spec(), board.width_spec());
        }
        None
    }

    /// The winner of the leftmost winning column, if any column wins.
    fn columns_have_winner(&self, board: &Board) -> (r: Option<PlayerPiece>)
        requires
            board.wf(),
        ensures
            r == piece_opt(cols_winner(board@, board.width_spec())),
    {
        let columns = board.get_all_columns();
        let n = columns.len();
        for i in 0..n
            invariant
                board.wf(),
                n == board.width_spec(),
                columns@.len() == n,
                forall|k: int| 0 <= k < n ==> #[trigger] columns@[k]@ == col_seq(
                    board@,
                    board.width_spec(),
                    k as nat,
                ),
                forall|k: nat| k < i ==> line_winner(#[trigger] col_seq(
                    board@,
                    board.width_spec(),
                    k,
                )) is None,
        {
            let winner = self.has_winner(columns[i].as_slice());
            if winner.is_some() {
                proof {
                    lemma_cols_winner_skip(board@, board.width_spec(), i as nat);
                }
                return winner;
            }
        }
        proof {
            lemma_cols_winner_skip(board@, board.width_spec(), board.width_spec());
        }
        None
    }

    /// The winner of a diagonal, trying the major diagonal first.
    fn diagonals_have_winner(&self, board: &Board) -> (r: Option<PlayerPiece>)
        requires
            board.wf(),
        ensures
            r == if line_winner(major_diag_seq(board@, board.width_spec())) is Some {
                piece_opt(line_winner(major_diag_seq(board@, board.width_spec())))
            } else {
                piece_opt(line_winner(minor_diag_seq(board@, board.width_spec())))
            },
    {
        let major = board.get_diagonal(crate::board::Diagonal::Major);
        match self.has_winner(major.as_slice()) {
            Some(p) => Some(p),
            None => {
                let minor = board.get_diagonal(crate::board::Diagonal::Minor);
                self.has_winner(minor.as_slice())
            },
        }
    }

    /// The piece that owns the whole line, if one piece occupies every cell
    /// of it.
    fn has_winner(&self, slice: &[CellState]) -> (r: Option<PlayerPiece>)
        ensures
            r == piece_opt(line_winner(slice@)),
    {
        if slice.len() == 0 {
            return None;
        }
        match slice[0] {
            CellState::Player(player_piece) => {
                let n = slice.len();
                for i in 0..n
                    invariant
                        n == slice@.len(),
                        n > 0,
                        slice@[0] == CellState::Player(player_piece),
                        forall|k: int| 0 <= k < i ==> slice@[k] == CellState::Player(player_piece),
                {
                    if slice[i] != CellState::Player(player_piece) {
                        return None;
                    }
                }
                Some(PlayerPiece::new(player_piece))
            },
            CellState::Empty => None,
        }
    }
}

/// What the interaction loop must do after feeding one command into the
/// coordinator.
#[derive(PartialEq, Eq, Clone, Copy, Debug, Structural)]
pub enum TurnAction {
    AskAgain,
    ShowHelp,
    Moved,
    ExitRequested,
    RestartRequested,
}

/// The whole state of one running game.
pub struct GameState<'a> {
    board: Board,
    referee: GameReferee,
    exit_wanted: bool,
    restart_wanted: bool,
    players: PlayerList<'a>,
}

impl<'a> GameState<'a> {
    /// The authoritative board.
    pub closed spec fn board_spec(&self) -> Board {
        self.board
    }

    /// The roster of the two seats.
    pub closed spec fn players_spec(&self) -> PlayerList<'a> {
        self.players
    }

    /// Whether a stop of the interaction loop has been requested.
    pub closed spec fn exit_wanted_spec(&self) -> bool {
        self.exit_wanted
    }

    /// Whether a restart has been requested.
    pub closed spec fn restart_wanted_spec(&self) -> bool {
        self.restart_wanted
    }

    /// The game-state invariant: the board fills its square grid.
    pub open spec fn wf(&self) -> bool {
        self.board_spec().wf()
    }

    /// Whether a game state is freshly started: an all-empty standard board,
    /// the default roster, and no pending requests.
    pub open spec fn is_fresh(&self) -> bool {
        &&& self.wf()
        &&& self.board_spec().width_spec() == 3
        &&& forall|i: int| 0 <= i < self.board_spec()@.len() ==> self.board_spec()@[i] is Empty
        &&& self.players_spec().p1().name@ == "x"@
        &&& self.players_spec().p1().player_piece == PlayerPiece(1)
        &&& self.players_spec().p1().player_type_spec() == PlayerType::Local
        &&& self.players_spec().p2().name@ == "y"@
        &&& self.players_spec().p2().player_piece == PlayerPiece(2)
        &&& self.players_spec().p2().player_type_spec() == PlayerType::AI(AIStrategy::Minimax)
        &&& !self.exit_wanted_spec()
        &&& !self.restart_wanted_spec()
    }

    /// A freshly started game: an empty standard board and the default
    /// roster.
    pub fn new() -> (r: GameState<'a>)
        ensures
            r.is_fresh(),
    {
        GameState {
            board: Board::new(),
            referee: GameReferee {},
            players: PlayerList::default(),
            restart_wanted: false,
            exit_wanted: false,
        }
    }

    /// Replaces the whole state with a freshly started game.
    pub fn restart(&mut self)
        ensures
            final(self).is_fresh(),
    {
        *self = GameState::new();
    }

    /// The authoritative board.
    pub fn board(&self) -> (r: &Board)
        ensures
            *r == self.board_spec(),
    {
        &self.board
    }

    /// The referee that adjudicates this game's boards.
    pub fn referee(&self) -> &GameReferee {
        &self.referee
    }

    /// The roster of the two seats.
    pub fn players(&self) -> (r: &PlayerList<'a>)
        ensures
            *r == self.players_spec(),
    {
        &self.players
    }

    /// Whether a stop of the interaction loop has been requested.
    pub fn exit_wanted(&self) -> (r: bool)
        ensures
            r == self.exit_wanted_spec(),
    {
        self.exit_wanted
    }

    /// Whether a restart has been requested.
    pub fn restart_wanted(&self) -> (r: bool)
        ensures
            r == self.restart_wanted_spec(),
    {
        self.restart_wanted
    }

    /// Records a request to stop the interaction loop; everything else is
    /// untouched.
    pub fn request_exit(&mut self)
        ensures
            final(self).exit_wanted_spec(),
            final(self).restart_wanted_spec() == old(self).restart_wanted_spec(),
            final(self).board_spec() == old(self).board_spec(),
            final(self).players_spec() == old(self).players_spec(),
    {
        self.exit_wanted = true;
    }

    /// Records a request to restart the game; everything else is untouched.
    pub fn request_restart(&mut self)
        ensures
            final(self).restart_wanted_spec(),
            final(self).exit_wanted_spec() == old(self).exit_wanted_spec(),
            final(self).board_spec() == old(self).board_spec(),
            final(self).players_spec() == old(self).players_spec(),
    {
        self.restart_wanted = true;
    }

    /// Applies a chosen move to the authoritative board: occupies `index`
    /// with `piece`, or reports why the move was rejected, leaving the board
    /// unchanged on a rejection. The roster and the pending requests are
    /// untouched either way.
    pub fn apply_move(&mut self, index: usize, piece: PlayerPiece) -> (r: Result<(), BoardError>)
        ensures
            r is Ok <==> index < old(self).board_spec()@.len() && old(
                self,
            ).board_spec()@[index as int] is Empty,
            r is Ok ==> final(self).board_spec()@ == old(self).board_spec()@.update(
                index as int,
                CellState::Player(piece.0),
            ),
            r is Err ==> final(self).board_spec()@ == old(self).board_spec()@,
            index >= old(self).board_spec()@.len() ==> r == Result::<(), BoardError>::Err(
                BoardError::OutOfBounds(index),
            ),
            index < old(self).board_spec()@.len() && !(old(
                self,
            ).board_spec()@[index as int] is Empty) ==> r == Result::<(), BoardError>::Err(
                BoardError::CellOccupied(index),
            ),
            final(self).board_spec().width_spec() == old(self).board_spec().width_spec(),
            final(self).players_spec() == old(self).players_spec(),
            final(self).exit_wanted_spec() == old(self).exit_wanted_spec(),
            final(self).restart_wanted_spec() == old(self).restart_wanted_spec(),
    {
        self.board.place(index, piece.value())
    }

    /// Feeds one command of the seat playing `piece` into the coordinator:
    /// a chosen move is applied, exit and restart requests are recorded, and
    /// the verdict says what the interaction loop must do next. A rejected
    /// move or a rejected command leaves the state unchanged and asks the
    /// same seat again, as a recoverable condition.
    pub fn process_command(
        &mut self,
        piece: PlayerPiece,
        command: Result<InputType, InputError>,
    ) -> (r: TurnAction)
        ensures
            final(self).players_spec() == old(self).players_spec(),
            final(self).board_spec().width_spec() == old(self).board_spec().width_spec(),
            match command {
                Ok(InputType::Help) => r == TurnAction::ShowHelp && *final(self) == *old(self),
                Ok(InputType::Coord(c)) => if c < old(self).board_spec()@.len() && old(
                    self,
                ).board_spec()@[c as int] is Empty {
                    &&& r == TurnAction::Moved
                    &&& final(self).board_spec()@ == old(self).board_spec()@.update(
                        c as int,
                        CellState::Player(piece.0),
                    )
                    &&& final(self).exit_wanted_spec() == old(self).exit_wanted_spec()
                    &&& final(self).restart_wanted_spec() == old(self).restart_wanted_spec()
                } else {
                    &&& r == TurnAction::AskAgain
                    &&& final(self).board_spec()@ == old(self).board_spec()@
                    &&& final(self).exit_wanted_spec() == old(self).exit_wanted_spec()
                    &&& final(self).restart_wanted_spec() == old(self).restart_wanted_spec()
                },
                Ok(InputType::Exit) => {
                    &&& r == TurnAction::ExitRequested
                    &&& final(self).exit_wanted_spec()
                    &&& final(self).board_spec() == old(self).board_spec()
                    &&& final(self).restart_wanted_spec() == old(self).restart_wanted_spec()
                },
                Ok(InputType::Restart) => {
                    &&& r == TurnAction::RestartRequested
                    &&& final(self).restart_wanted_spec()
                    &&& final(self).board_spec() == old(self).board_spec()
                    &&& final(self).exit_wanted_spec() == old(self).exit_wanted_spec()
                },
                Err(_) => r == TurnAction::AskAgain && *final(self) == *old(self),
            },
    {
        match command {
            Ok(InputType::Help) => TurnAction::ShowHelp,
            Ok(InputType::Coord(coord)) => match self.apply_move(coord, piece) {
                Ok(()) => TurnAction::Moved,
                Err(_) => TurnAction::AskAgain,
            },
            Ok(InputType::Exit) => {
                self.request_exit();
                TurnAction::ExitRequested
            },
            Ok(InputType::Restart) => {
                self.request_restart();
                TurnAction::RestartRequested
            },
            Err(_) => TurnAction::AskAgain,
        }
    }

    /// The display name of the winner, if the board has one: the last seat
    /// whose piece matches the winning piece, or an empty name if no seat
    /// matches.
    pub fn we_have_winner(&self) -> (r: Option<&str>)
        requires
            self.wf(),
        ensures
            match victory_piece(self.board_spec()@, self.board_spec().width_spec()) {
                None => r is None,
                Some(p) => r matches Some(name) && name@ == (if self.players_spec().p2().player_piece
                    == PlayerPiece(p) {
                    self.players_spec().p2().name@
                } else if self.players_spec().p1().player_piece == PlayerPiece(p) {
                    self.players_spec().p1().name@
                } else {
                    ""@
                }),
            },
    {
        if let Some(winning_piece) = self.referee.adjudicate(&self.board) {
            let mut winner_name: &str = "";
            let mut it = self.players.iter();
            match it.next() {
                Some(p) => {
                    if winning_piece == p.player_piece {
                        winner_name = p.name;
                    }
                },
                None => {},
            }
            match it.next() {
                Some(p) => {
                    if winning_piece == p.player_piece {
                        winner_name = p.name;
                    }
                },
                None => {},
            }
            Some(winner_name)
        } else {
            None
        }
    }
}

} // verus!
