//! The move-source abstraction: the commands a move source may produce, the
//! errors it may report, and the capability traits that the interaction loop
//! consumes.

use crate::board::{Board, BoardError};
use crate::game::GameState;
use vstd::prelude::*;

verus! {

/// What a move source asks for: a cell to occupy, leaving the game, a fresh
/// game, or the help text.
#[derive(PartialEq, Eq, Clone, Copy, Debug, Structural)]
pub enum InputType {
    Coord(usize),
    Exit,
    Restart,
    Help,
}

/// Why a move source's request was rejected: the command was not recognized,
/// or the requested move was illegal on the board.
#[derive(PartialEq, Eq, Clone, Copy, Debug, Structural)]
pub enum InputError {
    InvalidCommand,
    InvalidBoardError(BoardError),
}

/// A capability for reading and parsing raw line input into a command; the
/// blocking read itself lives outside the verified core.
pub trait InputController {
    fn get_raw_input(&self) -> String;

    fn parse_input(&self, input: &str, board_info: &Board) -> Result<InputType, InputError>;
}

/// A capability producing the next command of one seat, given read access to
/// the whole game state.
pub trait PlayerController {
    fn handle_input(&self, gamestate: &GameState<'_>) -> Result<InputType, InputError>
        requires
            gamestate.wf(),
    ;
}

} // verus!
