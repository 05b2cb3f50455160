//! The adversarial search engine: exhaustive minimax over every legal
//! continuation of the current board, scoring terminal states and biased
//! toward the fastest win and the slowest loss.

use crate::board::{
    all_occupied, count_empty, empty_positions, lemma_count_empty_update, lemma_empty_positions,
    victory_piece, Board, CellState,
};
use crate::controller::{InputError, InputType, PlayerController};
use crate::game::GameState;
use crate::outcome::{evaluate, outcome_spec, Outcome};
use vstd::prelude::*;

verus! {

/// The score of a game the engine has won, before the depth bias.
pub const WINNING_MOVE_SCORE: i8 = 10;

/// The score of a game the engine has lost, before the depth bias.
pub const LOSING_MOVE_SCORE: i8 = -10;

/// The score of a drawn game.
pub const DRAW_MOVE_SCORE: i8 = 0;

/// The engine seat of a game.
pub struct AIMinimax {}

/// A board state together with the index of the move that produced it.
struct BoardAfterMove {
    board: Board,
    index: usize,
}

/// The grid `v` after piece `piece` occupies cell `i`.
pub open spec fn child_at(v: Seq<CellState>, i: int, piece: u8) -> Seq<CellState> {
    v.update(i, CellState::Player(piece))
}

/// The greater of two integers.
pub open spec fn imax(a: int, b: int) -> int {
    if a > b {
        a
    } else {
        b
    }
}

/// The lesser of two integers.
pub open spec fn imin(a: int, b: int) -> int {
    if a < b {
        a
    } else {
        b
    }
}

/// The minimax value of the grid `v` for the engine piece `ai` against the
/// piece `human`, at recursion depth `depth`, with the engine to move when
/// `maximizing`. A won game scores the winning score less the depth, a lost
/// game the losing score plus the depth, a full board zero; an open board
/// takes the best child value for the mover.
pub open spec fn minimax_value(
    v: Seq<CellState>,
    w: nat,
    ai: u8,
    human: u8,
    depth: int,
    maximizing: bool,
) -> int
    decreases count_empty(v), v.len() + 1,
{
    if victory_piece(v, w) is Some {
        if victory_piece(v, w) == Some(ai) {
            (WINNING_MOVE_SCORE as int) - depth
        } else {
            (LOSING_MOVE_SCORE as int) + depth
        }
    } else if all_occupied(v) {
        DRAW_MOVE_SCORE as int
    } else if maximizing {
        max_child_value(v, w, ai, human, depth, 0)
    } else {
        min_child_value(v, w, ai, human, depth, 0)
    }
}

/// The greatest minimax value among the engine's moves into the empty cells
/// listed from position `k` on, or the least representable score when none
/// is left.
pub open spec fn max_child_value(
    v: Seq<CellState>,
    w: nat,
    ai: u8,
    human: u8,
    depth: int,
    k: int,
) -> int
    decreases count_empty(v), v.len() - k,
    via max_child_value_decreases
{
    let ep = empty_positions(v);
    if k < 0 || k >= ep.len() {
        i8::MIN as int
    } else {
        imax(
            minimax_value(child_at(v, ep[k], ai), w, ai, human, depth + 1, false),
            max_child_value(v, w, ai, human, depth, k + 1),
        )
    }
}

#[via_fn]
proof fn max_child_value_decreases(
    v: Seq<CellState>,
    w: nat,
    ai: u8,
    human: u8,
    depth: int,
    k: int,
) {
    let ep = empty_positions(v);
    if 0 <= k < ep.len() {
        lemma_empty_positions(v);
        lemma_count_empty_update(v, ep[k], CellState::Player(ai));
    }
}

/// The least minimax value among the opponent's moves into the empty cells
/// listed from position `k` on, or the greatest representable score when
/// none is left.
pub open spec fn min_child_value(
    v: Seq<CellState>,
    w: nat,
    ai: u8,
    human: u8,
    depth: int,
    k: int,
) -> int
    decreases count_empty(v), v.len() - k,
    via min_child_value_decreases
{
    let ep = empty_positions(v);
    if k < 0 || k >= ep.len() {
        i8::MAX as int
    } else {
        imin(
            minimax_value(child_at(v, ep[k], human), w, ai, human, depth + 1, true),
            min_child_value(v, w, ai, human, depth, k + 1),
        )
    }
}

#[via_fn]
proof fn min_child_value_decreases(
    v: Seq<CellState>,
    w: nat,
    ai: u8,
    human: u8,
    depth: int,
    k: int,
) {
    let ep = empty_positions(v);
    if 0 <= k < ep.len() {
        lemma_empty_positions(v);
        lemma_count_empty_update(v, ep[k], CellState::Player(human));
    }
}

/// The score that the engine assigns to occupying cell `i` on the grid `v`:
/// the minimax value of the resulting board with the opponent to move.
pub open spec fn move_score(v: Seq<CellState>, w: nat, ai: u8, human: u8, i: int) -> int {
    minimax_value(child_at(v, i, ai), w, ai, human, 1, false)
}

/// The claim that the empty cell listed at position `k` is the move `m`, no
/// empty cell scores higher, and every earlier-listed empty cell scores
/// strictly lower.
pub open spec fn best_move_witness(
    v: Seq<CellState>,
    w: nat,
    ai: u8,
    human: u8,
    m: int,
    k: int,
) -> bool {
    let ep = empty_positions(v);
    &&& 0 <= k < ep.len()
    &&& m == ep[k]
    &&& forall|j: int| 0 <= j < ep.len() ==> move_score(v, w, ai, human, #[trigger] ep[j])
        <= move_score(v, w, ai, human, m)
    &&& forall|j: int| 0 <= j < k ==> move_score(v, w, ai, human, #[trigger] ep[j]) < move_score(
        v,
        w,
        ai,
        human,
        m,
    )
}

/// The move `m` is an empty cell of the greatest score, and the
/// lowest-indexed such cell: candidates are enumerated in ascending index
/// order and ties keep the earliest.
pub open spec fn is_best_move(v: Seq<CellState>, w: nat, ai: u8, human: u8, m: int) -> bool {
    exists|k: int| best_move_witness(v, w, ai, human, m, k)
}

/// A lower bound on the scan of the engine's children: it never falls below
/// the least representable score.
proof fn lemma_max_child_lower(v: Seq<CellState>, w: nat, ai: u8, human: u8, depth: int, k: int)
    ensures
        max_child_value(v, w, ai, human, depth, k) >= i8::MIN as int,
    decreases empty_positions(v).len() - k,
{
    let ep = empty_positions(v);
    if 0 <= k < ep.len() {
        lemma_max_child_lower(v, w, ai, human, depth, k + 1);
    }
}

/// An upper bound on the scan of the opponent's children: it never exceeds
/// the greatest representable score.
proof fn lemma_min_child_upper(v: Seq<CellState>, w: nat, ai: u8, human: u8, depth: int, k: int)
    ensures
        min_child_value(v, w, ai, human, depth, k) <= i8::MAX as int,
    decreases empty_positions(v).len() - k,
{
    let ep = empty_positions(v);
    if 0 <= k < ep.len() {
        lemma_min_child_upper(v, w, ai, human, depth, k + 1);
    }
}

/// The minimax value stays within the depth-discounted band: at depth `d`
/// no position is worth more than a win reached right now, nor less than a
/// loss suffered right now.
pub proof fn lemma_minimax_bounds(
    v: Seq<CellState>,
    w: nat,
    ai: u8,
    human: u8,
    depth: int,
    maximizing: bool,
)
    requires
        0 <= depth,
        depth + count_empty(v) <= 10,
    ensures
        (LOSING_MOVE_SCORE as int) + depth <= minimax_value(v, w, ai, human, depth, maximizing)
            <= (WINNING_MOVE_SCORE as int) - depth,
    decreases count_empty(v), v.len() + 1,
{
    if victory_piece(v, w) is Some {
    } else if all_occupied(v) {
    } else {
        lemma_empty_positions(v);
        if maximizing {
            lemma_max_child_bounds(v, w, ai, human, depth, 0);
        } else {
            lemma_min_child_bounds(v, w, ai, human, depth, 0);
        }
    }
}

/// On an open board the engine's child scan stays strictly inside the band
/// of its depth: every child is one ply deeper.
pub proof fn lemma_max_child_bounds(
    v: Seq<CellState>,
    w: nat,
    ai: u8,
    human: u8,
    depth: int,
    k: int,
)
    requires
        0 <= depth,
        depth + count_empty(v) <= 10,
        0 <= k < empty_positions(v).len(),
    ensures
        (LOSING_MOVE_SCORE as int) + depth + 1 <= max_child_value(v, w, ai, human, depth, k)
            <= (WINNING_MOVE_SCORE as int) - depth - 1,
    decreases count_empty(v), empty_positions(v).len() - k,
{
    let ep = empty_positions(v);
    lemma_empty_positions(v);
    lemma_count_empty_update(v, ep[k], CellState::Player(ai));
    lemma_minimax_bounds(child_at(v, ep[k], ai), w, ai, human, depth + 1, false);
    if k + 1 < ep.len() {
        lemma_max_child_bounds(v, w, ai, human, depth, k + 1);
    } else {
        assert(max_child_value(v, w, ai, human, depth, k + 1) == i8::MIN as int);
    }
}

/// On an open board the opponent's child scan stays strictly inside the
/// band of its depth: every child is one ply deeper.
pub proof fn lemma_min_child_bounds(
    v: Seq<CellState>,
    w: nat,
    ai: u8,
    human: u8,
    depth: int,
    k: int,
)
    requires
        0 <= depth,
        depth + count_empty(v) <= 10,
        0 <= k < empty_positions(v).len(),
    ensures
        (LOSING_MOVE_SCORE as int) + depth + 1 <= min_child_value(v, w, ai, human, depth, k)
            <= (WINNING_MOVE_SCORE as int) - depth - 1,
    decreases count_empty(v), empty_positions(v).len() - k,
{
    let ep = empty_positions(v);
    lemma_empty_positions(v);
    lemma_count_empty_update(v, ep[k], CellState::Player(human));
    lemma_minimax_bounds(child_at(v, ep[k], human), w, ai, human, depth + 1, true);
    if k + 1 < ep.len() {
        lemma_min_child_bounds(v, w, ai, human, depth, k + 1);
    } else {
        assert(min_child_value(v, w, ai, human, depth, k + 1) == i8::MAX as int);
    }
}

/// The fastest win is preferred: whenever some empty cell completes an
/// engine win at once, the best move is such a cell, and its score is the
/// winning score less one ply — strictly above anything a longer game, a
/// draw or a loss can score. Wins further away score lower, so a win in one
/// ply always beats a win in three.
pub proof fn lemma_immediate_win_selected(
    v: Seq<CellState>,
    w: nat,
    ai: u8,
    human: u8,
    c: int,
    m: int,
)
    requires
        victory_piece(v, w) is None,
        !all_occupied(v),
        count_empty(v) <= 9,
        0 <= c < v.len(),
        v[c] is Empty,
        victory_piece(child_at(v, c, ai), w) == Some(ai),
        is_best_move(v, w, ai, human, m),
    ensures
        0 <= m < v.len(),
        v[m] is Empty,
        victory_piece(child_at(v, m, ai), w) == Some(ai),
        move_score(v, w, ai, human, m) == (WINNING_MOVE_SCORE as int) - 1,
{
    let ep = empty_positions(v);
    lemma_empty_positions(v);
    assert(ep.contains(c));
    let kc = choose|kc: int| 0 <= kc < ep.len() && ep[kc] == c;
    assert(move_score(v, w, ai, human, c) == (WINNING_MOVE_SCORE as int) - 1);
    let km = choose|k: int| best_move_witness(v, w, ai, human, m, k);
    assert(move_score(v, w, ai, human, ep[kc]) <= move_score(v, w, ai, human, m));
    let cm = child_at(v, m, ai);
    lemma_count_empty_update(v, m, CellState::Player(ai));
    lemma_minimax_bounds(cm, w, ai, human, 1, false);
    if victory_piece(cm, w) is Some {
        if victory_piece(cm, w) != Some(ai) {
            assert(minimax_value(cm, w, ai, human, 1, false) == (LOSING_MOVE_SCORE as int) + 1);
            assert(false);
        }
    } else if all_occupied(cm) {
        assert(minimax_value(cm, w, ai, human, 1, false) == 0);
        assert(false);
    } else {
        lemma_empty_positions(cm);
        lemma_min_child_bounds(cm, w, ai, human, 1, 0);
        assert(minimax_value(cm, w, ai, human, 1, false) <= (WINNING_MOVE_SCORE as int) - 2);
        assert(false);
    }
}

/// The depth bias in numbers: a move that completes an engine win at once
/// outscores every move that does not — including moves that only win some
/// plies later — so a win in one ply always beats a win in three.
pub proof fn lemma_slower_win_scores_less(
    v: Seq<CellState>,
    w: nat,
    ai: u8,
    human: u8,
    c: int,
    d: int,
)
    requires
        count_empty(v) <= 9,
        0 <= c < v.len(),
        v[c] is Empty,
        victory_piece(child_at(v, c, ai), w) == Some(ai),
        0 <= d < v.len(),
        v[d] is Empty,
        victory_piece(child_at(v, d, ai), w) != Some(ai),
    ensures
        move_score(v, w, ai, human, d) < move_score(v, w, ai, human, c),
{
    assert(move_score(v, w, ai, human, c) == (WINNING_MOVE_SCORE as int) - 1);
    let cd = child_at(v, d, ai);
    lemma_empty_positions(v);
    lemma_count_empty_update(v, d, CellState::Player(ai));
    if victory_piece(cd, w) is Some {
        assert(minimax_value(cd, w, ai, human, 1, false) == (LOSING_MOVE_SCORE as int) + 1);
    } else if all_occupied(cd) {
        assert(minimax_value(cd, w, ai, human, 1, false) == 0);
    } else {
        lemma_empty_positions(cd);
        lemma_min_child_bounds(cd, w, ai, human, 1, 0);
        assert(minimax_value(cd, w, ai, human, 1, false) <= (WINNING_MOVE_SCORE as int) - 2);
    }
}

/// Ties break deterministically toward the lower index: if two empty cells
/// both reach the greatest score, the best move is never the later one.
pub proof fn lemma_tie_break_lowest(
    v: Seq<CellState>,
    w: nat,
    ai: u8,
    human: u8,
    i: int,
    j: int,
    m: int,
)
    requires
        0 <= i < j < v.len(),
        v[i] is Empty,
        v[j] is Empty,
        move_score(v, w, ai, human, i) == move_score(v, w, ai, human, j),
        forall|c: int| 0 <= c < v.len() && v[c] is Empty ==> move_score(v, w, ai, human, c)
            <= move_score(v, w, ai, human, i),
        is_best_move(v, w, ai, human, m),
    ensures
        m <= i,
        m != j,
{
    let ep = empty_positions(v);
    lemma_empty_positions(v);
    assert(ep.contains(i));
    let ki = choose|ki: int| 0 <= ki < ep.len() && ep[ki] == i;
    let km = choose|k: int| best_move_witness(v, w, ai, human, m, k);
    assert(move_score(v, w, ai, human, ep[ki]) <= move_score(v, w, ai, human, m));
    assert(0 <= km < ep.len() && m == ep[km]);
    assert(v[m] is Empty);
    assert(move_score(v, w, ai, human, m) <= move_score(v, w, ai, human, i));
    if km > ki {
        assert(move_score(v, w, ai, human, ep[ki]) < move_score(v, w, ai, human, m));
        assert(false);
    }
    if km < ki {
        assert(ep[km] < ep[ki]);
    }
}

impl AIMinimax {
    /// A fresh engine seat.
    pub fn new() -> AIMinimax {
        AIMinimax {}
    }

    /// The engine's chosen move on the current board: the empty cell whose
    /// minimax score is greatest, with ties broken toward the lowest index.
    /// The board must still be open, and the roster must seat both the
    /// engine and a local human.
    pub fn find_best_move(&self, game_state: &GameState<'_>) -> (r: usize)
        requires
            game_state.wf(),
            game_state.players_spec().has_ai(),
            game_state.players_spec().has_local(),
            victory_piece(game_state.board_spec()@, game_state.board_spec().width_spec()) is None,
            !all_occupied(game_state.board_spec()@),
            count_empty(game_state.board_spec()@) <= 9,
        ensures
            is_best_move(
                game_state.board_spec()@,
                game_state.board_spec().width_spec(),
                game_state.players_spec().ai_piece(),
                game_state.players_spec().local_piece(),
                r as int,
            ),
            r < game_state.board_spec()@.len(),
            game_state.board_spec()@[r as int] is Empty,
    {
        let ghost v = game_state.board_spec()@;
        let ghost w = game_state.board_spec().width_spec();
        let ghost ai: u8 = game_state.players_spec().ai_piece();
        let ghost hu: u8 = game_state.players_spec().local_piece();
        let board = game_state.board();
        let possible_moves = board.get_positions_of_empty_cells();
        proof {
            lemma_empty_positions(v);
        }
        let mut best_move = possible_moves[0];
        let mut best_score = i8::MIN;
        let mut temporary_board = board.clone();
        let ai_piece = match game_state.players().get_ai_player_piece() {
            Some(p) => p,
            None => vstd::pervasive::unreached(),
        };
        let ghost mut bi: int = 0;
        let n = possible_moves.len();
        for k in 0..n
            invariant
                n == empty_positions(v).len(),
                n >= 1,
                v == game_state.board_spec()@,
                w == game_state.board_spec().width_spec(),
                ai == game_state.players_spec().ai_piece(),
                hu == game_state.players_spec().local_piece(),
                game_state.wf(),
                game_state.players_spec().has_ai(),
                game_state.players_spec().has_local(),
                victory_piece(v, w) is None,
                !all_occupied(v),
                count_empty(v) <= 9,
                ai_piece.0 == ai,
                possible_moves@.len() == n,
                forall|q: int| 0 <= q < n ==> #[trigger] possible_moves@[q] as int
                    == empty_positions(v)[q],
                temporary_board@ == v,
                temporary_board.width_spec() == w,
                k == 0 ==> best_score == i8::MIN && best_move == possible_moves@[0],
                k > 0 ==> {
                    &&& 0 <= bi < k
                    &&& best_move as int == empty_positions(v)[bi]
                    &&& best_score as int == move_score(v, w, ai, hu, empty_positions(v)[bi])
                    &&& forall|j: int| 0 <= j < k ==> move_score(
                        v,
                        w,
                        ai,
                        hu,
                        #[trigger] empty_positions(v)[j],
                    ) <= best_score as int
                    &&& forall|j: int| 0 <= j < bi ==> move_score(
                        v,
                        w,
                        ai,
                        hu,
                        #[trigger] empty_positions(v)[j],
                    ) < best_score as int
                },
        {
            let move_index = possible_moves[k];
            proof {
                lemma_empty_positions(v);
                assert(move_index as int == empty_positions(v)[k as int]);
            }
            temporary_board.modify_at_cell(move_index, CellState::Player(ai_piece.value()));
            proof {
                assert(temporary_board@ == child_at(v, empty_positions(v)[k as int], ai));
                lemma_count_empty_update(v, empty_positions(v)[k as int], CellState::Player(ai));
                lemma_minimax_bounds(temporary_board@, w, ai, hu, 1, false);
            }
            let score = self.minimax(game_state, &temporary_board, 1, false);
            if score > best_score {
                best_score = score;
                best_move = move_index;
                proof {
                    bi = k as int;
                }
            }
            temporary_board.modify_at_cell(move_index, CellState::Empty);
            proof {
                assert(temporary_board@ =~= v);
            }
        }
        proof {
            assert(best_move_witness(v, w, ai, hu, best_move as int, bi));
        }
        best_move
    }

    /// The minimax score of a board reached at `depth` plies, with the
    /// engine to move when `is_maximizer`.
    pub fn minimax(
        &self,
        game_state: &GameState<'_>,
        board_to_analyze: &Board,
        depth: i8,
        is_maximizer: bool,
    ) -> (r: i8)
        requires
            board_to_analyze.wf(),
            game_state.players_spec().has_ai(),
            game_state.players_spec().has_local(),
            0 <= depth,
            depth + count_empty(board_to_analyze@) <= 10,
        ensures
            r as int == minimax_value(
                board_to_analyze@,
                board_to_analyze.width_spec(),
                game_state.players_spec().ai_piece(),
                game_state.players_spec().local_piece(),
                depth as int,
                is_maximizer,
            ),
        decreases count_empty(board_to_analyze@),
    {
        let ghost v = board_to_analyze@;
        let ghost w = board_to_analyze.width_spec();
        let ghost ai: u8 = game_state.players_spec().ai_piece();
        let ghost hu: u8 = game_state.players_spec().local_piece();
        let ai_player_piece = match game_state.players().get_ai_player_piece() {
            Some(p) => p,
            None => vstd::pervasive::unreached(),
        };
        let local_human_player_piece = game_state.players().get_local_human_player_piece();

        let winner = game_state.referee().adjudicate(board_to_analyze);
        if winner.is_some() || board_to_analyze.is_full() {
            if let Some(winning_piece) = winner {
                if winning_piece == ai_player_piece {
                    return WINNING_MOVE_SCORE - depth;
                } else {
                    return LOSING_MOVE_SCORE + depth;
                }
            }
            return DRAW_MOVE_SCORE;
        }
        proof {
            lemma_empty_positions(v);
            lemma_max_child_lower(v, w, ai, hu, depth as int, 0);
            lemma_min_child_upper(v, w, ai, hu, depth as int, 0);
        }
        if is_maximizer {
            let mut best = i8::MIN;
            let possible_moves = self.get_possible_board_states_from_current_board(
                board_to_analyze,
                CellState::Player(ai_player_piece.value()),
            );
            let n = possible_moves.len();
            for k in 0..n
                invariant
                    v == board_to_analyze@,
                    w == board_to_analyze.width_spec(),
                    ai == game_state.players_spec().ai_piece(),
                    hu == game_state.players_spec().local_piece(),
                    board_to_analyze.wf(),
                    game_state.players_spec().has_ai(),
                    game_state.players_spec().has_local(),
                    0 <= depth,
                    depth + count_empty(v) <= 10,
                    victory_piece(v, w) is None,
                    !all_occupied(v),
                    n == empty_positions(v).len(),
                    possible_moves@.len() == n,
                    forall|q: int| 0 <= q < n ==> {
                        &&& (#[trigger] possible_moves@[q]).index as int == empty_positions(v)[q]
                        &&& possible_moves@[q].board@ == v.update(
                            empty_positions(v)[q],
                            CellState::Player(ai),
                        )
                        &&& possible_moves@[q].board.wf()
                        &&& possible_moves@[q].board.width_spec() == w
                    },
                    max_child_value(v, w, ai, hu, depth as int, 0) == imax(
                        best as int,
                        max_child_value(v, w, ai, hu, depth as int, k as int),
                    ),
            {
                proof {
                    lemma_empty_positions(v);
                    lemma_count_empty_update(
                        v,
                        empty_positions(v)[k as int],
                        CellState::Player(ai),
                    );
                }
                let new_best = self.minimax(
                    game_state,
                    &possible_moves[k].board,
                    depth + 1,
                    false,
                );
                proof {
                    assert(possible_moves@[k as int].board@ == child_at(
                        v,
                        empty_positions(v)[k as int],
                        ai,
                    ));
                }
                proof {
                    assert(max_child_value(v, w, ai, hu, depth as int, k as int) == imax(
                        minimax_value(
                            child_at(v, empty_positions(v)[k as int], ai),
                            w,
                            ai,
                            hu,
                            depth as int + 1,
                            false,
                        ),
                        max_child_value(v, w, ai, hu, depth as int, k as int + 1),
                    ));
                }
                if new_best > best {
                    best = new_best;
                }
            }
            proof {
                assert(max_child_value(v, w, ai, hu, depth as int, n as int) == i8::MIN as int);
            }
            best
        } else {
            let mut best = i8::MAX;
            let possible_moves = self.get_possible_board_states_from_current_board(
                board_to_analyze,
                CellState::Player(local_human_player_piece.value()),
            );
            let n = possible_moves.len();
            for k in 0..n
                invariant
                    v == board_to_analyze@,
                    w == board_to_analyze.width_spec(),
                    ai == game_state.players_spec().ai_piece(),
                    hu == game_state.players_spec().local_piece(),
                    board_to_analyze.wf(),
                    game_state.players_spec().has_ai(),
                    game_state.players_spec().has_local(),
                    0 <= depth,
                    depth + count_empty(v) <= 10,
                    victory_piece(v, w) is None,
                    !all_occupied(v),
                    n == empty_positions(v).len(),
                    possible_moves@.len() == n,
                    forall|q: int| 0 <= q < n ==> {
                        &&& (#[trigger] possible_moves@[q]).index as int == empty_positions(v)[q]
                        &&& possible_moves@[q].board@ == v.update(
                            empty_positions(v)[q],
                            CellState::Player(hu),
                        )
                        &&& possible_moves@[q].board.wf()
                        &&& possible_moves@[q].board.width_spec() == w
                    },
                    min_child_value(v, w, ai, hu, depth as int, 0) == imin(
                        best as int,
                        min_child_value(v, w, ai, hu, depth as int, k as int),
                    ),
            {
                proof {
                    lemma_empty_positions(v);
                    lemma_count_empty_update(
                        v,
                        empty_positions(v)[k as int],
                        CellState::Player(hu),
                    );
                }
                let new_best = self.minimax(
                    game_state,
                    &possible_moves[k].board,
                    depth + 1,
                    true,
                );
                proof {
                    assert(possible_moves@[k as int].board@ == child_at(
                        v,
                        empty_positions(v)[k as int],
                        hu,
                    ));
                }
                proof {
                    assert(min_child_value(v, w, ai, hu, depth as int, k as int) == imin(
                        minimax_value(
                            child_at(v, empty_positions(v)[k as int], hu),
                            w,
                            ai,
                            hu,
                            depth as int + 1,
                            true,
                        ),
                        min_child_value(v, w, ai, hu, depth as int, k as int + 1),
                    ));
                }
                if new_best < best {
                    best = new_best;
                }
            }
            proof {
                assert(min_child_value(v, w, ai, hu, depth as int, n as int) == i8::MAX as int);
            }
            best
        }
    }

    /// Every board reachable from `current_board` by one move of
    /// `player_to_move`, paired with the move that produced it, in ascending
    /// order of the moved-to cell.
    fn get_possible_board_states_from_current_board(
        &self,
        current_board: &Board,
        player_to_move: CellState,
    ) -> (r: Vec<BoardAfterMove>)
        requires
            current_board.wf(),
        ensures
            r@.len() == empty_positions(current_board@).len(),
            forall|k: int| 0 <= k < r@.len() ==> {
                &&& (#[trigger] r@[k]).index as int == empty_positions(current_board@)[k]
                &&& r@[k].board@ == current_board@.update(
                    empty_positions(current_board@)[k],
                    player_to_move,
                )
                &&& r@[k].board.wf()
                &&& r@[k].board.width_spec() == current_board.width_spec()
            },
    {
        let mut possible_board_states: Vec<BoardAfterMove> = Vec::new();
        let all_possible_moves = current_board.get_positions_of_empty_cells();
        let n = all_possible_moves.len();
        for k in 0..n
            invariant
                current_board.wf(),
                n == empty_positions(current_board@).len(),
                all_possible_moves@.len() == n,
                forall|q: int| 0 <= q < n ==> #[trigger] all_possible_moves@[q] as int
                    == empty_positions(current_board@)[q],
                possible_board_states@.len() == k,
                forall|q: int| 0 <= q < k ==> {
                    &&& (#[trigger] possible_board_states@[q]).index as int == empty_positions(
                        current_board@,
                    )[q]
                    &&& possible_board_states@[q].board@ == current_board@.update(
                        empty_positions(current_board@)[q],
                        player_to_move,
                    )
                    &&& possible_board_states@[q].board.wf()
                    &&& possible_board_states@[q].board.width_spec()
                        == current_board.width_spec()
                },
        {
            let possible_move = all_possible_moves[k];
            proof {
                lemma_empty_positions(current_board@);
            }
            let mut new_state = current_board.clone();
            new_state.modify_at_cell(possible_move, player_to_move);
            possible_board_states.push(BoardAfterMove { board: new_state, index: possible_move });
        }
        possible_board_states
    }
}

/// The states on which the engine move source owes a move: the roster seats
/// both the engine and a local human, the game is still open, and the board
/// has no more empty cells than the engine searches over.
pub open spec fn engine_can_move(gamestate: GameState<'_>) -> bool {
    &&& gamestate.players_spec().has_ai()
    &&& gamestate.players_spec().has_local()
    &&& outcome_spec(gamestate.board_spec()@, gamestate.board_spec().width_spec())
        is InProgress
    &&& count_empty(gamestate.board_spec()@) <= 9
}

impl PlayerController for AIMinimax {
    /// The engine's command: on every state where a move is owed it answers
    /// the coordinate of its chosen best move — never help, exit or restart
    /// — and on every other state it rejects the request.
    fn handle_input(&self, gamestate: &GameState<'_>) -> (r: Result<InputType, InputError>)
        ensures
            engine_can_move(*gamestate) ==> (r matches Ok(InputType::Coord(m)) && is_best_move(
                gamestate.board_spec()@,
                gamestate.board_spec().width_spec(),
                gamestate.players_spec().ai_piece(),
                gamestate.players_spec().local_piece(),
                m as int,
            ) && m < gamestate.board_spec()@.len()
                && gamestate.board_spec()@[m as int] is Empty),
            !engine_can_move(*gamestate) ==> r == Result::<InputType, InputError>::Err(
                InputError::InvalidCommand,
            ),
    {
        let players = gamestate.players();
        if players.get_ai_player().is_none() {
            return Err(InputError::InvalidCommand);
        }
        let mut it = players.iter();
        let mut has_local = false;
        match it.next() {
            Some(p) => {
                if p.is_local() {
                    has_local = true;
                }
            },
            None => {},
        }
        match it.next() {
            Some(p) => {
                if p.is_local() {
                    has_local = true;
                }
            },
            None => {},
        }
        if !has_local {
            return Err(InputError::InvalidCommand);
        }
        let board = gamestate.board();
        if evaluate(board) != Outcome::InProgress {
            return Err(InputError::InvalidCommand);
        }
        let empties = board.get_positions_of_empty_cells();
        if empties.len() > 9 {
            return Err(InputError::InvalidCommand);
        }
        let best_move = self.find_best_move(gamestate);
        Ok(InputType::Coord(best_move))
    }
}

} // verus!
