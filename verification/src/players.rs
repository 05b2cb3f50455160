//! The player roster: who sits at each seat, which piece each seat owns, and
//! which seat the search engine plays for — together with the local seat's
//! verified command parser.

use crate::board::{Board, BoardError, CellState};
use crate::controller::{InputError, InputType};
use vstd::prelude::*;
use vstd::string::StringSliceAdditionalSpecFns;

verus! {

/// Which algorithm a computer seat uses.
#[derive(PartialEq, Eq, Clone, Copy, Debug, Structural)]
pub enum AIStrategy {
    Minimax,
    Other,
}

/// What kind of move source sits at a seat.
#[derive(PartialEq, Eq, Clone, Copy, Debug, Structural)]
pub enum PlayerType {
    Local,
    AI(AIStrategy),
    Remote,
}

/// A newtype for the encoded piece symbol a player owns.
#[derive(PartialEq, Eq, PartialOrd, Ord, Hash, Clone, Copy, Debug, Structural)]
pub struct PlayerPiece(pub u8);

impl PlayerPiece {
    /// A piece with the given encoded value.
    pub fn new(value: u8) -> (r: PlayerPiece)
        ensures
            r == PlayerPiece(value),
    {
        PlayerPiece(value)
    }

    /// The bare encoded value of the piece.
    pub fn value(&self) -> (r: u8)
        ensures
            r == self.0,
    {
        self.0
    }
}

/// Whether the byte is an ASCII decimal digit.
pub open spec fn is_digit(b: u8) -> bool {
    ('0' as u8) <= b <= ('9' as u8)
}

/// The number written by a sequence of decimal digits, most significant
/// first.
pub open spec fn digits_value(ds: Seq<u8>) -> int
    decreases ds.len(),
{
    if ds.len() == 0 {
        0
    } else {
        digits_value(ds.drop_last()) * 10 + (ds.last() - ('0' as u8))
    }
}

/// The digits of a numeral: everything after an optional leading plus sign.
pub open spec fn numeric_body(bs: Seq<u8>) -> Seq<u8> {
    if bs.len() > 0 && bs[0] == ('+' as u8) {
        bs.drop_first()
    } else {
        bs
    }
}

/// Whether the bytes spell a numeral: an optional plus sign followed by at
/// least one digit and nothing else.
pub open spec fn is_numeric(bs: Seq<u8>) -> bool {
    let ds = numeric_body(bs);
    ds.len() > 0 && forall|i: int| 0 <= i < ds.len() ==> is_digit(#[trigger] ds[i])
}

/// Whether the bytes parse as a `usize`: a numeral whose value fits.
pub open spec fn parses_as_usize(bs: Seq<u8>) -> bool {
    is_numeric(bs) && digits_value(numeric_body(bs)) <= usize::MAX
}

/// The byte with any ASCII upper-case letter folded to its lower-case form;
/// every other byte is left alone.
pub open spec fn fold_case(b: u8) -> u8 {
    if ('A' as u8) <= b <= ('Z' as u8) {
        (b + 32) as u8
    } else {
        b
    }
}

/// The bytes with every ASCII upper-case letter folded to lower case.
pub open spec fn fold_case_seq(bs: Seq<u8>) -> Seq<u8> {
    bs.map_values(|b: u8| fold_case(b))
}

/// Whether the bytes spell the help keyword, in any mix of ASCII case.
pub open spec fn is_help_command(bs: Seq<u8>) -> bool {
    fold_case_seq(bs) == seq!['h' as u8, 'e' as u8, 'l' as u8, 'p' as u8]
}

/// Whether the bytes spell the exit keyword, in any mix of ASCII case.
pub open spec fn is_exit_command(bs: Seq<u8>) -> bool {
    fold_case_seq(bs) == seq!['e' as u8, 'x' as u8, 'i' as u8, 't' as u8]
}

/// Whether the bytes spell the restart keyword, in any mix of ASCII case.
pub open spec fn is_restart_command(bs: Seq<u8>) -> bool {
    fold_case_seq(bs) == seq![
        'r' as u8,
        'e' as u8,
        's' as u8,
        't' as u8,
        'a' as u8,
        'r' as u8,
        't' as u8,
    ]
}

/// The command that a line of input denotes on the given board: one of the
/// keywords, or a numeral naming a cell — accepted only if the move is
/// legal there — or an invalid command.
pub open spec fn parse_command(bs: Seq<u8>, board: Seq<CellState>) -> Result<
    InputType,
    InputError,
> {
    if is_help_command(bs) {
        Ok(InputType::Help)
    } else if is_exit_command(bs) {
        Ok(InputType::Exit)
    } else if is_restart_command(bs) {
        Ok(InputType::Restart)
    } else if parses_as_usize(bs) {
        let n = digits_value(numeric_body(bs));
        if n >= board.len() {
            Err(InputError::InvalidBoardError(BoardError::OutOfBounds(n as usize)))
        } else if !(board[n] is Empty) {
            Err(InputError::InvalidBoardError(BoardError::CellOccupied(n as usize)))
        } else {
            Ok(InputType::Coord(n as usize))
        }
    } else {
        Err(InputError::InvalidCommand)
    }
}

/// A digit string is worth no less than any of its prefixes: appending
/// digits multiplies the value before adding.
proof fn lemma_digits_value_prefix(ds: Seq<u8>, j: int)
    requires
        0 <= j <= ds.len(),
        forall|i: int| 0 <= i < ds.len() ==> is_digit(#[trigger] ds[i]),
    ensures
        0 <= digits_value(ds.take(j)) <= digits_value(ds),
    decreases ds.len() - j,
{
    if j == ds.len() {
        assert(ds.take(j) =~= ds);
        lemma_digits_value_nonneg(ds);
    } else {
        assert(ds.take(j + 1).drop_last() =~= ds.take(j));
        assert(ds.take(j + 1).last() == ds[j]);
        lemma_digits_value_nonneg(ds.take(j));
        lemma_digits_value_prefix(ds, j + 1);
    }
}

/// A digit string is worth at least zero.
proof fn lemma_digits_value_nonneg(ds: Seq<u8>)
    requires
        forall|i: int| 0 <= i < ds.len() ==> is_digit(#[trigger] ds[i]),
    ensures
        digits_value(ds) >= 0,
    decreases ds.len(),
{
    if ds.len() > 0 {
        lemma_digits_value_nonneg(ds.drop_last());
    }
}

/// The marker for the seat that reads its moves from local line input; the
/// blocking read itself lives outside the verified core, but the parsing of
/// a read line into a command is verified here.
pub struct LocalPlayer {}

impl LocalPlayer {
    /// The byte with any ASCII upper-case letter folded to lower case.
    fn fold_byte(b: u8) -> (r: u8)
        ensures
            r == fold_case(b),
    {
        if b >= ('A' as u8) && b <= ('Z' as u8) {
            b + 32
        } else {
            b
        }
    }

    /// Whether two byte strings are equal once ASCII case is folded away.
    fn matches_keyword(bs: &[u8], kw: &[u8]) -> (r: bool)
        ensures
            r <==> fold_case_seq(bs@) == fold_case_seq(kw@),
    {
        if bs.len() != kw.len() {
            proof {
                assert(fold_case_seq(bs@).len() != fold_case_seq(kw@).len());
            }
            return false;
        }
        let n = bs.len();
        for i in 0..n
            invariant
                n == bs@.len(),
                n == kw@.len(),
                forall|k: int| 0 <= k < i ==> fold_case(#[trigger] bs@[k]) == fold_case(kw@[k]),
        {
            if Self::fold_byte(bs[i]) != Self::fold_byte(kw[i]) {
                proof {
                    assert(fold_case_seq(bs@)[i as int] != fold_case_seq(kw@)[i as int]);
                }
                return false;
            }
        }
        proof {
            assert(fold_case_seq(bs@) =~= fold_case_seq(kw@));
        }
        true
    }

    /// Parses the bytes of a numeral into its value, rejecting anything
    /// that is not a numeral or does not fit.
    fn parse_usize(bs: &[u8]) -> (r: Option<usize>)
        ensures
            parses_as_usize(bs@) ==> r == Some((digits_value(numeric_body(bs@))) as usize),
            !parses_as_usize(bs@) ==> r is None,
    {
        let ghost ds = numeric_body(bs@);
        let len = bs.len();
        let start: usize = if len > 0 && bs[0] == ('+' as u8) {
            1
        } else {
            0
        };
        proof {
            assert(forall|q: int| 0 <= q < ds.len() ==> ds[q] == bs@[start + q]);
        }
        if start >= len {
            return None;
        }
        let max_div: usize = usize::MAX / 10;
        let max_rem: usize = usize::MAX % 10;
        let mut value: usize = 0;
        let mut i: usize = start;
        while i < len
            invariant
                len == bs@.len(),
                ds == numeric_body(bs@),
                ds.len() == len - start,
                start <= i <= len,
                start <= 1,
                forall|q: int| 0 <= q < ds.len() ==> ds[q] == bs@[start + q],
                forall|q: int| 0 <= q < i - start ==> is_digit(#[trigger] ds[q]),
                value as int == digits_value(ds.take(i - start)),
                max_div == usize::MAX as int / 10,
                max_rem == usize::MAX as int % 10,
            decreases len - i,
        {
            let b = bs[i];
            if b < ('0' as u8) || b > ('9' as u8) {
                proof {
                    assert(!is_digit(ds[i - start]));
                }
                return None;
            }
            let digit = b - ('0' as u8);
            proof {
                let j = i - start;
                assert(ds.take(j + 1).drop_last() =~= ds.take(j));
                assert(ds.take(j + 1).last() == ds[j]);
                vstd::arithmetic::div_mod::lemma_fundamental_div_mod(usize::MAX as int, 10);
            }
            if value > max_div || (value == max_div && digit as usize > max_rem) {
                // The prefix already exceeds the greatest representable
                // value, so the whole numeral cannot fit.
                proof {
                    if parses_as_usize(bs@) {
                        lemma_digits_value_prefix(ds, i - start + 1);
                    }
                }
                return None;
            }
            value = value * 10 + digit as usize;
            i = i + 1;
        }
        proof {
            assert(ds.take(ds.len() as int) =~= ds);
        }
        Some(value)
    }

    /// Parses one line of input into a command on the given board: the
    /// keywords are recognized in any mix of ASCII case, a numeral names a
    /// cell and is accepted only when the move is legal there, and anything
    /// else is an invalid command.
    pub fn parse_input(&self, input: &str, board_info: &Board) -> (r: Result<
        InputType,
        InputError,
    >)
        ensures
            r == parse_command(input.spec_bytes(), board_info@),
    {
        let bs = input.as_bytes();
        let help_word = ['h' as u8, 'e' as u8, 'l' as u8, 'p' as u8];
        proof {
            assert(fold_case_seq(help_word@) =~= help_word@);
        }
        if Self::matches_keyword(bs, help_word.as_slice()) {
            return Ok(InputType::Help);
        }
        let exit_word = ['e' as u8, 'x' as u8, 'i' as u8, 't' as u8];
        proof {
            assert(fold_case_seq(exit_word@) =~= exit_word@);
        }
        if Self::matches_keyword(bs, exit_word.as_slice()) {
            return Ok(InputType::Exit);
        }
        let restart_word = [
            'r' as u8,
            'e' as u8,
            's' as u8,
            't' as u8,
            'a' as u8,
            'r' as u8,
            't' as u8,
        ];
        proof {
            assert(fold_case_seq(restart_word@) =~= restart_word@);
        }
        if Self::matches_keyword(bs, restart_word.as_slice()) {
            return Ok(InputType::Restart);
        }
        proof {
            if parses_as_usize(bs@) {
                lemma_digits_value_nonneg(numeric_body(bs@));
            }
        }
        match Self::parse_usize(bs) {
            Some(parsed_number) => match board_info.is_valid_move(parsed_number) {
                Ok(()) => Ok(InputType::Coord(parsed_number)),
                Err(e) => Err(InputError::InvalidBoardError(e)),
            },
            None => Err(InputError::InvalidCommand),
        }
    }
}

/// One seat of the game: a display name, the piece it plays, and what kind
/// of move source it is.
pub struct Player<'a> {
    pub name: &'a str,
    pub player_piece: PlayerPiece,
    pub player_type: PlayerType,
}

impl<'a> Player<'a> {
    /// The kind of move source at this seat.
    pub open spec fn player_type_spec(&self) -> PlayerType {
        self.player_type
    }

    /// Whether this seat is played by the computer.
    pub open spec fn is_ai_spec(&self) -> bool {
        self.player_type_spec() is AI
    }

    /// Whether this seat is played by the local human.
    pub open spec fn is_local_spec(&self) -> bool {
        self.player_type_spec() is Local
    }

    /// A seat with the given name, piece and kind.
    pub fn new(name: &'a str, player_piece: PlayerPiece, player_type: PlayerType) -> (r: Player<
        'a,
    >)
        ensures
            r.name == name,
            r.player_piece == player_piece,
            r.player_type_spec() == player_type,
    {
        Player { name, player_piece, player_type }
    }

    /// The kind of move source at this seat.
    pub fn player_type(&self) -> (r: PlayerType)
        ensures
            r == self.player_type_spec(),
    {
        self.player_type
    }

    /// Whether this seat is played by the computer.
    pub fn is_ai(&self) -> (r: bool)
        ensures
            r == self.is_ai_spec(),
    {
        self.player_type != PlayerType::Local && self.player_type != PlayerType::Remote
    }

    /// Whether this seat is played by the local human.
    pub fn is_local(&self) -> (r: bool)
        ensures
            r == self.is_local_spec(),
    {
        self.player_type == PlayerType::Local
    }
}

/// The pieces of the two seats, read off together: the computer's piece and
/// the human's piece.
pub struct PlayersInfo {
    pub ai_piece: u8,
    pub player_piece: u8,
}

/// The two seats of a game.
pub struct PlayerList<'a> {
    player_1: Player<'a>,
    player_2: Player<'a>,
}

/// Walks the two seats of a `PlayerList` in order.
pub struct PlayerListIterator<'a> {
    players: &'a PlayerList<'a>,
    index: usize,
}

impl<'a> PlayerList<'a> {
    /// The first seat.
    pub closed spec fn p1(&self) -> Player<'a> {
        self.player_1
    }

    /// The second seat.
    pub closed spec fn p2(&self) -> Player<'a> {
        self.player_2
    }

    /// Whether some seat is played by the computer.
    pub open spec fn has_ai(&self) -> bool {
        self.p1().is_ai_spec() || self.p2().is_ai_spec()
    }

    /// Whether some seat is played by the local human.
    pub open spec fn has_local(&self) -> bool {
        self.p1().is_local_spec() || self.p2().is_local_spec()
    }

    /// The first computer seat, in seat order.
    pub open spec fn ai_player(&self) -> Player<'a> {
        if self.p1().is_ai_spec() {
            self.p1()
        } else {
            self.p2()
        }
    }

    /// The first local-human seat, in seat order.
    pub open spec fn local_player(&self) -> Player<'a> {
        if self.p1().is_local_spec() {
            self.p1()
        } else {
            self.p2()
        }
    }

    /// The encoded piece of the computer seat.
    pub open spec fn ai_piece(&self) -> u8 {
        self.ai_player().player_piece.0
    }

    /// The encoded piece of the local-human seat.
    pub open spec fn local_piece(&self) -> u8 {
        self.local_player().player_piece.0
    }

    /// The human seat's piece by seat position: the first seat when it is
    /// not a computer seat, otherwise the second.
    pub open spec fn seat_human_piece(&self) -> u8 {
        if self.p1().player_type_spec() is Local || self.p1().player_type_spec() is Remote {
            self.p1().player_piece.0
        } else {
            self.p2().player_piece.0
        }
    }

    /// The computer seat's piece by seat position: the counterpart of
    /// `seat_human_piece`.
    pub open spec fn seat_ai_piece(&self) -> u8 {
        if self.p1().player_type_spec() is Local || self.p1().player_type_spec() is Remote {
            self.p2().player_piece.0
        } else {
            self.p1().player_piece.0
        }
    }

    /// A roster with the two given seats.
    pub fn new(player_1: Player<'a>, player_2: Player<'a>) -> (r: PlayerList<'a>)
        ensures
            r.p1() == player_1,
            r.p2() == player_2,
    {
        PlayerList { player_1, player_2 }
    }

    /// The first computer seat, if any seat is one.
    pub fn get_ai_player(&self) -> (r: Option<&Player<'a>>)
        ensures
            self.has_ai() ==> (r matches Some(p) && *p == self.ai_player()),
            !self.has_ai() ==> r is None,
    {
        if self.player_1.is_ai() {
            Some(&self.player_1)
        } else if self.player_2.is_ai() {
            Some(&self.player_2)
        } else {
            None
        }
    }

    /// The first local-human seat; the roster must hold one.
    pub fn get_local_human_player(&self) -> (r: &Player<'a>)
        requires
            self.has_local(),
        ensures
            *r == self.local_player(),
    {
        if self.player_1.is_local() {
            &self.player_1
        } else {
            &self.player_2
        }
    }

    /// The piece of the computer seat, if any seat is one.
    pub fn get_ai_player_piece(&self) -> (r: Option<PlayerPiece>)
        ensures
            self.has_ai() ==> r == Some(self.ai_player().player_piece),
            !self.has_ai() ==> r is None,
    {
        match self.get_ai_player() {
            Some(p) => Some(p.player_piece),
            None => None,
        }
    }

    /// The piece of the local-human seat; the roster must hold one.
    pub fn get_local_human_player_piece(&self) -> (r: PlayerPiece)
        requires
            self.has_local(),
        ensures
            r == self.local_player().player_piece,
    {
        self.get_local_human_player().player_piece
    }

    /// The human seat's piece by seat position, with the first seat taken as
    /// the human one unless it is a computer seat.
    pub fn get_human_player_piece(&self) -> (r: u8)
        ensures
            r == self.seat_human_piece(),
    {
        let t = self.player_1.player_type();
        if t == PlayerType::Local || t == PlayerType::Remote {
            self.player_1.player_piece.value()
        } else {
            self.player_2.player_piece.value()
        }
    }

    /// Both seats' pieces read off together, by seat position.
    pub fn get_players_piece_info(&self) -> (r: PlayersInfo)
        ensures
            r == (PlayersInfo { ai_piece: self.seat_ai_piece(), player_piece: self.seat_human_piece() }),
    {
        let t = self.player_1.player_type();
        if t == PlayerType::Local || t == PlayerType::Remote {
            PlayersInfo {
                ai_piece: self.player_2.player_piece.value(),
                player_piece: self.player_1.player_piece.value(),
            }
        } else {
            PlayersInfo {
                ai_piece: self.player_1.player_piece.value(),
                player_piece: self.player_2.player_piece.value(),
            }
        }
    }

    /// An iterator over the two seats, first seat first.
    pub fn iter(&self) -> (r: PlayerListIterator<'_>)
        ensures
            r.players_spec() == *self,
            r.index_spec() == 0,
    {
        PlayerListIterator { players: self, index: 0 }
    }
}

impl<'a> Default for PlayerList<'a> {
    /// The default roster: a local human named `x` with piece `1`, and a
    /// minimax computer named `y` with piece `2`.
    fn default() -> (r: PlayerList<'a>)
        ensures
            r.p1().name@ == "x"@,
            r.p1().player_piece == PlayerPiece(1),
            r.p1().player_type_spec() == PlayerType::Local,
            r.p2().name@ == "y"@,
            r.p2().player_piece == PlayerPiece(2),
            r.p2().player_type_spec() == PlayerType::AI(AIStrategy::Minimax),
    {
        PlayerList {
            player_1: Player::new("x", PlayerPiece::new(1), PlayerType::Local),
            player_2: Player::new(
                "y",
                PlayerPiece::new(2),
                PlayerType::AI(AIStrategy::Minimax),
            ),
        }
    }
}

impl<'a> PlayerListIterator<'a> {
    /// The roster being walked.
    pub closed spec fn players_spec(&self) -> PlayerList<'a> {
        *self.players
    }

    /// How many seats have been handed out so far.
    pub closed spec fn index_spec(&self) -> nat {
        self.index as nat
    }

    /// The next seat, if one is left: the first seat, then the second, then
    /// nothing.
    pub fn next(&mut self) -> (r: Option<&'a Player<'a>>)
        ensures
            final(self).players_spec() == old(self).players_spec(),
            old(self).index_spec() == 0 ==> (r matches Some(p) && *p == old(
                self,
            ).players_spec().p1() && final(self).index_spec() == 1),
            old(self).index_spec() == 1 ==> (r matches Some(p) && *p == old(
                self,
            ).players_spec().p2() && final(self).index_spec() == 2),
            old(self).index_spec() >= 2 ==> (r is None && final(self).index_spec() == old(
                self,
            ).index_spec()),
    {
        match self.index {
            0 => {
                self.index = self.index + 1;
                Some(&self.players.player_1)
            },
            1 => {
                self.index = self.index + 1;
                Some(&self.players.player_2)
            },
            _ => None,
        }
    }
}

} // verus!
