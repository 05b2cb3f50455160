use tictactoe::board::{BoardError, CellState};
use tictactoe::controller::{InputError, InputType};
use tictactoe::game::{GameReferee, GameState, TurnAction};
use tictactoe::players::{AIStrategy, LocalPlayer, Player, PlayerList, PlayerPiece, PlayerType};

#[test]
fn fresh_game_has_empty_board_and_default_roster() {
    let gs = GameState::new();
    assert!(!gs.board().is_full());
    assert!(gs.board().cells().iter().all(|c| *c == CellState::Empty));
    assert_eq!(gs.players().get_ai_player_piece(), Some(PlayerPiece::new(2)));
    assert_eq!(gs.players().get_local_human_player_piece(), PlayerPiece::new(1));
    assert_eq!(gs.players().get_local_human_player().name, "x");
}

#[test]
fn apply_move_rejections() {
    let mut gs = GameState::new();
    assert_eq!(gs.apply_move(4, PlayerPiece::new(1)), Ok(()));
    assert_eq!(
        gs.apply_move(4, PlayerPiece::new(2)),
        Err(BoardError::CellOccupied(4))
    );
    assert_eq!(
        gs.apply_move(9, PlayerPiece::new(2)),
        Err(BoardError::OutOfBounds(9))
    );
}

#[test]
fn referee_adjudicates_winner() {
    let referee = GameReferee {};
    let mut gs = GameState::new();
    assert_eq!(referee.adjudicate(gs.board()), None);
    gs.apply_move(0, PlayerPiece::new(2)).unwrap();
    gs.apply_move(1, PlayerPiece::new(2)).unwrap();
    gs.apply_move(2, PlayerPiece::new(2)).unwrap();
    assert_eq!(referee.adjudicate(gs.board()), Some(PlayerPiece::new(2)));
}

#[test]
fn winner_is_named() {
    let mut gs = GameState::new();
    assert_eq!(gs.we_have_winner(), None);
    gs.apply_move(0, PlayerPiece::new(2)).unwrap();
    gs.apply_move(4, PlayerPiece::new(2)).unwrap();
    gs.apply_move(8, PlayerPiece::new(2)).unwrap();
    assert_eq!(gs.we_have_winner(), Some("y"));
}

#[test]
fn restart_clears_the_board() {
    let mut gs = GameState::new();
    gs.apply_move(3, PlayerPiece::new(1)).unwrap();
    gs.restart();
    assert!(gs.board().cells().iter().all(|c| *c == CellState::Empty));
}

#[test]
fn roster_queries() {
    let players = PlayerList::new(
        Player::new("alice", PlayerPiece::new(64), PlayerType::AI(AIStrategy::Minimax)),
        Player::new("bob", PlayerPiece::new(32), PlayerType::Local),
    );
    assert!(players.get_ai_player().unwrap().is_ai());
    assert!(!players.get_ai_player().unwrap().is_local());
    assert_eq!(players.get_ai_player().unwrap().name, "alice");
    assert_eq!(players.get_ai_player_piece(), Some(PlayerPiece::new(64)));
    assert_eq!(players.get_local_human_player().name, "bob");
    assert_eq!(players.get_local_human_player_piece(), PlayerPiece::new(32));
    assert_eq!(players.get_human_player_piece(), 32);

    let info = players.get_players_piece_info();
    assert_eq!(info.ai_piece, 64);
    assert_eq!(info.player_piece, 32);
}

#[test]
fn roster_without_ai_has_no_ai_piece() {
    let players = PlayerList::new(
        Player::new("a", PlayerPiece::new(1), PlayerType::Local),
        Player::new("b", PlayerPiece::new(2), PlayerType::Remote),
    );
    assert!(players.get_ai_player().is_none());
    assert_eq!(players.get_ai_player_piece(), None);
}

#[test]
fn iterator_walks_both_seats_in_order() {
    let players = PlayerList::default();
    let mut it = players.iter();
    assert_eq!(it.next().unwrap().name, "x");
    assert_eq!(it.next().unwrap().name, "y");
    assert!(it.next().is_none());
}

#[test]
fn player_type_is_reported() {
    let p = Player::new("c", PlayerPiece::new(3), PlayerType::AI(AIStrategy::Other));
    assert_eq!(p.player_type(), PlayerType::AI(AIStrategy::Other));
    assert_eq!(p.player_piece.value(), 3);
}

#[test]
fn parser_recognizes_keywords() {
    let lp = LocalPlayer {};
    let b = tictactoe::board::Board::new();
    assert_eq!(lp.parse_input("help", &b), Ok(InputType::Help));
    assert_eq!(lp.parse_input("Help", &b), Ok(InputType::Help));
    assert_eq!(lp.parse_input("HELP", &b), Ok(InputType::Help));
    assert_eq!(lp.parse_input("exit", &b), Ok(InputType::Exit));
    assert_eq!(lp.parse_input("EXIT", &b), Ok(InputType::Exit));
    assert_eq!(lp.parse_input("restart", &b), Ok(InputType::Restart));
    assert_eq!(lp.parse_input("Restart", &b), Ok(InputType::Restart));
    // Any mix of ASCII case is accepted.
    assert_eq!(lp.parse_input("hElP", &b), Ok(InputType::Help));
    assert_eq!(lp.parse_input("eXiT", &b), Ok(InputType::Exit));
    assert_eq!(lp.parse_input("rEsTaRt", &b), Ok(InputType::Restart));
}

#[test]
fn parser_accepts_legal_coordinates() {
    let lp = LocalPlayer {};
    let mut b = tictactoe::board::Board::new();
    assert_eq!(lp.parse_input("4", &b), Ok(InputType::Coord(4)));
    assert_eq!(lp.parse_input("+7", &b), Ok(InputType::Coord(7)));
    b.place(4, 1).unwrap();
    assert_eq!(
        lp.parse_input("4", &b),
        Err(InputError::InvalidBoardError(BoardError::CellOccupied(4)))
    );
    assert_eq!(
        lp.parse_input("99", &b),
        Err(InputError::InvalidBoardError(BoardError::OutOfBounds(99)))
    );
}

#[test]
fn parser_rejects_everything_else() {
    let lp = LocalPlayer {};
    let b = tictactoe::board::Board::new();
    assert_eq!(lp.parse_input("", &b), Err(InputError::InvalidCommand));
    assert_eq!(lp.parse_input("+", &b), Err(InputError::InvalidCommand));
    assert_eq!(lp.parse_input("quit", &b), Err(InputError::InvalidCommand));
    assert_eq!(lp.parse_input("4x", &b), Err(InputError::InvalidCommand));
    assert_eq!(lp.parse_input("helpp", &b), Err(InputError::InvalidCommand));
    assert_eq!(
        lp.parse_input("18446744073709551616", &b),
        Err(InputError::InvalidCommand)
    );
}

#[test]
fn process_command_drives_turns() {
    let mut gs = GameState::new();
    assert_eq!(
        gs.process_command(PlayerPiece::new(1), Ok(InputType::Coord(4))),
        TurnAction::Moved
    );
    assert_eq!(
        gs.process_command(PlayerPiece::new(2), Ok(InputType::Coord(4))),
        TurnAction::AskAgain
    );
    assert_eq!(
        gs.process_command(PlayerPiece::new(2), Ok(InputType::Help)),
        TurnAction::ShowHelp
    );
    assert_eq!(
        gs.process_command(PlayerPiece::new(2), Err(InputError::InvalidCommand)),
        TurnAction::AskAgain
    );
    assert!(!gs.exit_wanted());
    assert_eq!(
        gs.process_command(PlayerPiece::new(2), Ok(InputType::Restart)),
        TurnAction::RestartRequested
    );
    assert!(gs.restart_wanted());
    assert_eq!(
        gs.process_command(PlayerPiece::new(2), Ok(InputType::Exit)),
        TurnAction::ExitRequested
    );
    assert!(gs.exit_wanted());
}
