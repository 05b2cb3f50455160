//! The game board: a square grid of cells together with the read-only views
//! (rows, columns, diagonals) that the outcome rules and the search engine
//! inspect.

use vstd::prelude::*;

verus! {

/// What a single cell of the board holds: nothing yet, or the piece of the
/// player that occupies it.
#[derive(PartialEq, Eq, Clone, Copy, Debug, Structural)]
pub enum CellState {
    Empty,
    Player(u8),
}

/// The two diagonals of a square grid: `Major` runs from the top-left corner
/// to the bottom-right one, `Minor` from the top-right corner to the
/// bottom-left one.
#[derive(PartialEq, Eq, Clone, Copy, Debug, Structural)]
pub enum Diagonal {
    Major,
    Minor,
}

/// Why a move was rejected: the index lies outside the board, or the cell is
/// already taken.
#[derive(PartialEq, Eq, Clone, Copy, Debug, Structural)]
pub enum BoardError {
    CellOccupied(usize),
    OutOfBounds(usize),
}

/// The standard board is three cells wide.
pub const BOARD_STANDARD_WIDTH: usize = 3;

/// A square board of `width * width` cells, stored row-major.
pub struct Board {
    data: Vec<CellState>,
    width: usize,
}

/// Whether `n` is the square of some integer, so that a flat sequence of `n`
/// cells fills a square grid exactly.
pub open spec fn is_perfect_square(n: int) -> bool {
    exists|w: int| 0 <= w && #[trigger] (w * w) == n
}

/// Row `r` of the grid `v` of side `w`, read left to right.
pub open spec fn row_seq(v: Seq<CellState>, w: nat, r: nat) -> Seq<CellState> {
    Seq::new(w, |i: int| v[r * w + i])
}

/// Column `c` of the grid `v` of side `w`, read top to bottom.
pub open spec fn col_seq(v: Seq<CellState>, w: nat, c: nat) -> Seq<CellState> {
    Seq::new(w, |i: int| v[i * w + c])
}

/// The diagonal from the top-left corner to the bottom-right one.
pub open spec fn major_diag_seq(v: Seq<CellState>, w: nat) -> Seq<CellState> {
    Seq::new(w, |i: int| v[i * (w + 1)])
}

/// The diagonal from the top-right corner to the bottom-left one.
pub open spec fn minor_diag_seq(v: Seq<CellState>, w: nat) -> Seq<CellState> {
    Seq::new(w, |i: int| v[(i + 1) * (w - 1)])
}

/// The piece that owns every cell of `line`, if there is one: a line wins
/// only when it is non-empty, its first cell holds a piece, and every cell
/// equals the first.
pub open spec fn line_winner(line: Seq<CellState>) -> Option<u8> {
    if line.len() > 0 {
        match line[0] {
            CellState::Player(p) => {
                if forall|i: int| 0 <= i < line.len() ==> line[i] == CellState::Player(p) {
                    Some(p)
                } else {
                    None
                }
            },
            CellState::Empty => None,
        }
    } else {
        None
    }
}

/// The winner among rows `r..w`, scanning top to bottom and stopping at the
/// first winning row.
pub open spec fn rows_winner_from(v: Seq<CellState>, w: nat, r: nat) -> Option<u8>
    decreases w - r,
{
    if r >= w {
        None
    } else if line_winner(row_seq(v, w, r)) is Some {
        line_winner(row_seq(v, w, r))
    } else {
        rows_winner_from(v, w, r + 1)
    }
}

/// The winner among all rows, preferring the topmost winning row.
pub open spec fn rows_winner(v: Seq<CellState>, w: nat) -> Option<u8> {
    rows_winner_from(v, w, 0)
}

/// The winner among columns `c..w`, scanning left to right and stopping at
/// the first winning column.
pub open spec fn cols_winner_from(v: Seq<CellState>, w: nat, c: nat) -> Option<u8>
    decreases w - c,
{
    if c >= w {
        None
    } else if line_winner(col_seq(v, w, c)) is Some {
        line_winner(col_seq(v, w, c))
    } else {
        cols_winner_from(v, w, c + 1)
    }
}

/// The winner among all columns, preferring the leftmost winning column.
pub open spec fn cols_winner(v: Seq<CellState>, w: nat) -> Option<u8> {
    cols_winner_from(v, w, 0)
}

/// The winning piece of the whole grid: all rows are tried first, then all
/// columns, then the major diagonal, then the minor one.
pub open spec fn victory_piece(v: Seq<CellState>, w: nat) -> Option<u8> {
    if rows_winner(v, w) is Some {
        rows_winner(v, w)
    } else if cols_winner(v, w) is Some {
        cols_winner(v, w)
    } else if line_winner(major_diag_seq(v, w)) is Some {
        line_winner(major_diag_seq(v, w))
    } else {
        line_winner(minor_diag_seq(v, w))
    }
}

/// A winning piece wrapped back into the `CellState` that reported it.
pub open spec fn piece_cell_opt(o: Option<u8>) -> Option<CellState> {
    match o {
        Some(p) => Some(CellState::Player(p)),
        None => None,
    }
}

/// The winning cell value of the whole grid, if any.
pub open spec fn victory_cell(v: Seq<CellState>, w: nat) -> Option<CellState> {
    piece_cell_opt(victory_piece(v, w))
}

/// Whether every cell of the grid is occupied.
pub open spec fn all_occupied(v: Seq<CellState>) -> bool {
    forall|i: int| 0 <= i < v.len() ==> !(v[i] is Empty)
}

/// The indices of the empty cells of `v`, in ascending order.
pub open spec fn empty_positions(v: Seq<CellState>) -> Seq<int>
    decreases v.len(),
{
    if v.len() == 0 {
        Seq::<int>::empty()
    } else {
        empty_positions(v.drop_last()) + if v.last() is Empty {
            seq![v.len() - 1]
        } else {
            Seq::<int>::empty()
        }
    }
}

/// How many cells of `v` are empty.
pub open spec fn count_empty(v: Seq<CellState>) -> nat {
    empty_positions(v).len()
}

/// Whether index `i` counts as adjacent to index `cell` on a grid of side
/// `w`: one step left, right, up or down in the flat storage. The arithmetic
/// is on flat indices, so the left edge of one row counts as adjacent to the
/// right edge of the row above it.
pub open spec fn cell_adjacent(i: int, cell: int, w: int) -> bool {
    i == cell - 1 || i == cell + 1 || i == cell - w || i == cell + w
}

/// The cell values adjacent to index `cell`, in ascending index order.
pub open spec fn adjacent_cells_seq(v: Seq<CellState>, cell: int, w: int) -> Seq<CellState>
    decreases v.len(),
{
    if v.len() == 0 {
        Seq::<CellState>::empty()
    } else {
        adjacent_cells_seq(v.drop_last(), cell, w) + if cell_adjacent(v.len() - 1, cell, w) {
            seq![v.last()]
        } else {
            Seq::<CellState>::empty()
        }
    }
}

/// One when the candidate index `x` falls inside `0..n`, zero otherwise.
pub open spec fn candidate_in_range(n: int, x: int) -> int {
    if 0 <= x < n {
        1
    } else {
        0
    }
}

/// A cell has at most four adjacent cells: each adjacent index is one of the
/// four candidate indices, and each candidate contributes at most one cell.
pub proof fn lemma_adjacent_cells_len(v: Seq<CellState>, cell: int, w: int)
    ensures
        adjacent_cells_seq(v, cell, w).len() <= candidate_in_range(v.len() as int, cell - 1)
            + candidate_in_range(v.len() as int, cell + 1) + candidate_in_range(v.len() as int, cell - w)
            + candidate_in_range(v.len() as int, cell + w),
    decreases v.len(),
{
    if v.len() > 0 {
        lemma_adjacent_cells_len(v.drop_last(), cell, w);
    }
}

/// The facts that callers need about `empty_positions`: every listed index is
/// an empty cell in range, the list ascends strictly, it covers every empty
/// cell, and it is empty exactly when the board is full.
pub proof fn lemma_empty_positions(v: Seq<CellState>)
    ensures
        empty_positions(v).len() <= v.len(),
        forall|k: int| 0 <= k < empty_positions(v).len() ==> 0 <= #[trigger] empty_positions(v)[k]
            < v.len() && v[empty_positions(v)[k]] is Empty,
        forall|k1: int, k2: int| 0 <= k1 < k2 < empty_positions(v).len()
            ==> empty_positions(v)[k1] < empty_positions(v)[k2],
        forall|i: int| 0 <= i < v.len() && v[i] is Empty ==> #[trigger] empty_positions(
            v,
        ).contains(i),
        empty_positions(v).len() == 0 <==> all_occupied(v),
    decreases v.len(),
{
    let ep = empty_positions(v);
    if v.len() == 0 {
        assert(all_occupied(v));
    } else {
        let dl = v.drop_last();
        lemma_empty_positions(dl);
        let epd = empty_positions(dl);
        assert(forall|i: int| 0 <= i < dl.len() ==> dl[i] == v[i]);
        assert forall|i: int| 0 <= i < v.len() && v[i] is Empty implies #[trigger] ep.contains(
            i,
        ) by {
            if i < v.len() - 1 {
                assert(dl[i] is Empty);
                assert(epd.contains(i));
                let k = choose|k: int| 0 <= k < epd.len() && epd[k] == i;
                assert(ep[k] == i);
            } else {
                assert(ep[ep.len() - 1] == i);
            }
        }
        if ep.len() == 0 {
            assert forall|i: int| 0 <= i < v.len() implies !(v[i] is Empty) by {
                if v[i] is Empty {
                    assert(ep.contains(i));
                }
            }
        }
        if all_occupied(v) {
            assert(!(v.last() is Empty));
            assert(all_occupied(dl));
            assert(ep =~= epd);
        }
    }
}

/// Occupying an empty cell removes exactly that cell from the empty ones.
pub proof fn lemma_count_empty_update(v: Seq<CellState>, i: int, c: CellState)
    requires
        0 <= i < v.len(),
        v[i] is Empty,
        !(c is Empty),
    ensures
        count_empty(v.update(i, c)) == count_empty(v) - 1,
    decreases v.len(),
{
    let u = v.update(i, c);
    if i == v.len() - 1 {
        assert(u.drop_last() =~= v.drop_last());
        assert(u.last() == c);
        assert(v.last() == v[i]);
    } else {
        assert(u.drop_last() =~= v.drop_last().update(i, c));
        assert(u.last() == v.last());
        lemma_count_empty_update(v.drop_last(), i, c);
    }
}

/// If no row above `r` wins, the row scan may start at `r` without changing
/// its verdict.
pub proof fn lemma_rows_winner_skip(v: Seq<CellState>, w: nat, r: nat)
    requires
        r <= w,
        forall|r0: nat| r0 < r ==> line_winner(#[trigger] row_seq(v, w, r0)) is None,
    ensures
        rows_winner(v, w) == rows_winner_from(v, w, r),
    decreases r,
{
    if r > 0 {
        lemma_rows_winner_skip(v, w, (r - 1) as nat);
    }
}

/// If no column left of `c` wins, the column scan may start at `c` without
/// changing its verdict.
pub proof fn lemma_cols_winner_skip(v: Seq<CellState>, w: nat, c: nat)
    requires
        c <= w,
        forall|c0: nat| c0 < c ==> line_winner(#[trigger] col_seq(v, w, c0)) is None,
    ensures
        cols_winner(v, w) == cols_winner_from(v, w, c),
    decreases c,
{
    if c > 0 {
        lemma_cols_winner_skip(v, w, (c - 1) as nat);
    }
}

/// A winning row scan points at an actual winning row.
pub proof fn lemma_rows_winner_witness(v: Seq<CellState>, w: nat, r: nat)
    requires
        rows_winner_from(v, w, r) is Some,
    ensures
        exists|r0: nat| r <= r0 < w && line_winner(#[trigger] row_seq(v, w, r0))
            == rows_winner_from(v, w, r),
    decreases w - r,
{
    if r < w {
        if line_winner(row_seq(v, w, r)) is Some {
        } else {
            lemma_rows_winner_witness(v, w, r + 1);
        }
    }
}

/// A winning column scan points at an actual winning column.
pub proof fn lemma_cols_winner_witness(v: Seq<CellState>, w: nat, c: nat)
    requires
        cols_winner_from(v, w, c) is Some,
    ensures
        exists|c0: nat| c <= c0 < w && line_winner(#[trigger] col_seq(v, w, c0))
            == cols_winner_from(v, w, c),
    decreases w - c,
{
    if c < w {
        if line_winner(col_seq(v, w, c)) is Some {
        } else {
            lemma_cols_winner_witness(v, w, c + 1);
        }
    }
}

impl View for Board {
    type V = Seq<CellState>;

    closed spec fn view(&self) -> Seq<CellState> {
        self.data@
    }
}

impl Clone for Board {
    /// A clone is an independent board with the same cells and width.
    fn clone(&self) -> (r: Board)
        ensures
            r@ == self@,
            r.width_spec() == self.width_spec(),
    {
        let mut data: Vec<CellState> = Vec::new();
        let n = self.data.len();
        for i in 0..n
            invariant
                n == self@.len(),
                data@.len() == i,
                forall|k: int| 0 <= k < i ==> data@[k] == self@[k],
        {
            data.push(self.data[i]);
        }
        proof {
            assert(data@ =~= self@);
        }
        Board { data, width: self.width }
    }
}

impl Board {
    /// The side length of the board.
    pub closed spec fn width_spec(&self) -> nat {
        self.width as nat
    }

    /// The board invariant: the backing storage holds exactly one cell per
    /// grid position.
    pub open spec fn wf(&self) -> bool {
        self@.len() == self.width_spec() * self.width_spec()
    }

    /// An all-`Empty` standard board.
    pub fn new() -> (r: Board)
        ensures
            r.wf(),
            r.width_spec() == BOARD_STANDARD_WIDTH,
            forall|i: int| 0 <= i < r@.len() ==> r@[i] is Empty,
    {
        let mut data: Vec<CellState> = Vec::new();
        let total = BOARD_STANDARD_WIDTH * BOARD_STANDARD_WIDTH;
        while data.len() < total
            invariant
                data@.len() <= total,
                forall|i: int| 0 <= i < data@.len() ==> data@[i] is Empty,
            decreases total - data@.len(),
        {
            data.push(CellState::Empty);
        }
        Board { data, width: BOARD_STANDARD_WIDTH }
    }

    /// A board over the given cells. The cell count must fill a square grid
    /// exactly; the width becomes the square root of the count.
    pub fn new_from(data: Vec<CellState>) -> (r: Board)
        requires
            is_perfect_square(data@.len() as int),
        ensures
            r@ == data@,
            r.wf(),
    {
        let len = data.len();
        let ghost s: int = choose|w0: int| 0 <= w0 && #[trigger] (w0 * w0) == len as int;
        let mut w: usize = 0;
        loop
            invariant_except_break
                0 <= w as int,
                w as int <= s,
                s * s == len as int,
            ensures
                (w as int) * (w as int) == len as int,
            decreases s - w,
        {
            proof {
                assert((w as int) * (w as int) <= s * s) by (nonlinear_arith)
                    requires
                        0 <= w as int,
                        w as int <= s;
            }
            if w * w >= len {
                proof {
                    assert(w as int == s) by (nonlinear_arith)
                        requires
                            (w as int) * (w as int) >= s * s,
                            0 <= w as int,
                            w as int <= s;
                }
                break;
            }
            proof {
                assert((w as int) < s) by (nonlinear_arith)
                    requires
                        (w as int) * (w as int) < s * s,
                        0 <= w as int,
                        0 <= s;
                assert(s <= s * s) by (nonlinear_arith)
                    requires
                        1 <= s;
            }
            w = w + 1;
        }
        Board { data, width: w }
    }

    /// The number of cells on the board.
    pub fn len(&self) -> (r: usize)
        ensures
            r == self@.len(),
    {
        self.data.len()
    }

    /// The cells of the board in row-major order.
    pub fn cells(&self) -> (r: &Vec<CellState>)
        ensures
            r@ == self@,
    {
        &self.data
    }

    /// Whether a move at `index` would be accepted: the index must lie on the
    /// board and the cell must still be empty.
    pub fn is_valid_move(&self, index: usize) -> (r: Result<(), BoardError>)
        ensures
            r is Ok <==> index < self@.len() && self@[index as int] is Empty,
            index >= self@.len() ==> r == Result::<(), BoardError>::Err(
                BoardError::OutOfBounds(index),
            ),
            index < self@.len() && !(self@[index as int] is Empty) ==> r == Result::<
                (),
                BoardError,
            >::Err(BoardError::CellOccupied(index)),
    {
        if index >= self.data.len() {
            return Err(BoardError::OutOfBounds(index));
        }
        if self.data[index] != CellState::Empty {
            return Err(BoardError::CellOccupied(index));
        }
        Ok(())
    }

    /// Occupies `index` with `piece_to_place`. On a rejected move the board
    /// is left unchanged and the error says why the move was rejected.
    pub fn place(&mut self, index: usize, piece_to_place: u8) -> (r: Result<(), BoardError>)
        ensures
            r is Ok <==> index < old(self)@.len() && old(self)@[index as int] is Empty,
            r is Ok ==> final(self)@ == old(self)@.update(
                index as int,
                CellState::Player(piece_to_place),
            ),
            r is Err ==> final(self)@ == old(self)@,
            index >= old(self)@.len() ==> r == Result::<(), BoardError>::Err(
                BoardError::OutOfBounds(index),
            ),
            index < old(self)@.len() && !(old(self)@[index as int] is Empty) ==> r == Result::<
                (),
                BoardError,
            >::Err(BoardError::CellOccupied(index)),
            final(self).width_spec() == old(self).width_spec(),
    {
        match self.is_valid_move(index) {
            Ok(()) => {
                self.data.set(index, CellState::Player(piece_to_place));
                Ok(())
            },
            Err(e) => Err(e),
        }
    }

    /// Whether no empty cell remains.
    pub fn is_full(&self) -> (r: bool)
        ensures
            r == all_occupied(self@),
    {
        let n = self.data.len();
        for i in 0..n
            invariant
                n == self@.len(),
                forall|k: int| 0 <= k < i ==> !(self@[k] is Empty),
        {
            if self.data[i] == CellState::Empty {
                return false;
            }
        }
        true
    }

    /// Overwrites the cell at `pos` with `new_value`, with no occupancy
    /// check; the search engine uses it to lay and retract trial moves.
    pub fn modify_at_cell(&mut self, pos: usize, new_value: CellState)
        requires
            pos < old(self)@.len(),
        ensures
            final(self)@ == old(self)@.update(pos as int, new_value),
            final(self).width_spec() == old(self).width_spec(),
    {
        self.data.set(pos, new_value);
    }

    /// The indices of the empty cells, in ascending order.
    pub fn get_positions_of_empty_cells(&self) -> (r: Vec<usize>)
        ensures
            r@.len() == empty_positions(self@).len(),
            forall|k: int| 0 <= k < r@.len() ==> #[trigger] r@[k] as int == empty_positions(
                self@,
            )[k],
    {
        let mut r: Vec<usize> = Vec::new();
        let n = self.data.len();
        for i in 0..n
            invariant
                n == self@.len(),
                r@.len() == empty_positions(self@.take(i as int)).len(),
                forall|k: int| 0 <= k < r@.len() ==> #[trigger] r@[k] as int == empty_positions(
                    self@.take(i as int),
                )[k],
        {
            proof {
                let pre = self@.take(i as int);
                let cur = self@.take(i + 1);
                assert(cur.drop_last() =~= pre);
                assert(cur.last() == self@[i as int]);
            }
            if self.data[i] == CellState::Empty {
                r.push(i);
            }
        }
        proof {
            assert(self@.take(n as int) =~= self@);
        }
        r
    }

    /// Row `row_num` of the board, counted from zero at the top; a row number
    /// beyond the board yields an empty sequence.
    pub fn get_row(&self, row_num: usize) -> (r: Vec<CellState>)
        requires
            self.wf(),
        ensures
            row_num < self.width_spec() ==> r@ == row_seq(self@, self.width_spec(), row_num as nat),
            row_num >= self.width_spec() ==> r@ == Seq::<CellState>::empty(),
    {
        let mut r: Vec<CellState> = Vec::new();
        if row_num >= self.width {
            return r;
        }
        let n = self.data.len();
        proof {
            assert((row_num as int) * (self.width as int) + (self.width as int) <= n as int)
                by (nonlinear_arith)
                requires
                    row_num < self.width,
                    (self.width as int) * (self.width as int) == n as int;
        }
        let start = row_num * self.width;
        for i in 0..self.width
            invariant
                self.wf(),
                n == self@.len(),
                row_num < self.width_spec(),
                start == row_num * self.width,
                start + self.width <= n,
                r@.len() == i,
                forall|k: int| 0 <= k < i ==> r@[k] == self@[row_num * self.width + k],
        {
            r.push(self.data[start + i]);
        }
        proof {
            assert(r@ =~= row_seq(self@, self.width_spec(), row_num as nat));
        }
        r
    }

    /// All rows of the board, top to bottom.
    pub fn get_all_rows(&self) -> (r: Vec<Vec<CellState>>)
        requires
            self.wf(),
        ensures
            r@.len() == self.width_spec(),
            forall|n: int| 0 <= n < r@.len() ==> #[trigger] r@[n]@ == row_seq(
                self@,
                self.width_spec(),
                n as nat,
            ),
    {
        let mut r: Vec<Vec<CellState>> = Vec::new();
        for n in 0..self.width
            invariant
                self.wf(),
                r@.len() == n,
                forall|k: int| 0 <= k < n ==> #[trigger] r@[k]@ == row_seq(
                    self@,
                    self.width_spec(),
                    k as nat,
                ),
        {
            r.push(self.get_row(n));
        }
        r
    }

    /// Column `col_num` of the board, counted from zero at the left; a column
    /// number beyond the board yields an empty sequence.
    pub fn get_column(&self, col_num: usize) -> (r: Vec<CellState>)
        requires
            self.wf(),
        ensures
            col_num < self.width_spec() ==> r@ == col_seq(self@, self.width_spec(), col_num as nat),
            col_num >= self.width_spec() ==> r@ == Seq::<CellState>::empty(),
    {
        let mut r: Vec<CellState> = Vec::new();
        if col_num >= self.width {
            return r;
        }
        let n = self.data.len();
        for i in 0..self.width
            invariant
                self.wf(),
                n == self@.len(),
                col_num < self.width_spec(),
                r@.len() == i,
                forall|k: int| 0 <= k < i ==> r@[k] == self@[k * self.width + col_num],
        {
            proof {
                assert((i as int) * (self.width as int) + (col_num as int) < n as int)
                    by (nonlinear_arith)
                    requires
                        i < self.width,
                        col_num < self.width,
                        (self.width as int) * (self.width as int) == n as int;
            }
            r.push(self.data[i * self.width + col_num]);
        }
        proof {
            assert(r@ =~= col_seq(self@, self.width_spec(), col_num as nat));
        }
        r
    }

    /// All columns of the board, left to right.
    pub fn get_all_columns(&self) -> (r: Vec<Vec<CellState>>)
        requires
            self.wf(),
        ensures
            r@.len() == self.width_spec(),
            forall|n: int| 0 <= n < r@.len() ==> #[trigger] r@[n]@ == col_seq(
                self@,
                self.width_spec(),
                n as nat,
            ),
    {
        let mut r: Vec<Vec<CellState>> = Vec::new();
        for n in 0..self.width
            invariant
                self.wf(),
                r@.len() == n,
                forall|k: int| 0 <= k < n ==> #[trigger] r@[k]@ == col_seq(
                    self@,
                    self.width_spec(),
                    k as nat,
                ),
        {
            r.push(self.get_column(n));
        }
        r
    }

    /// The requested diagonal, read from its topmost cell downwards.
    pub fn get_diagonal(&self, diagonal: Diagonal) -> (r: Vec<CellState>)
        requires
            self.wf(),
        ensures
            diagonal is Major ==> r@ == major_diag_seq(self@, self.width_spec()),
            diagonal is Minor ==> r@ == minor_diag_seq(self@, self.width_spec()),
    {
        let mut r: Vec<CellState> = Vec::new();
        let w = self.width;
        let n = self.data.len();
        proof {
            if w >= 2 {
                assert((w as int) < (w as int) * (w as int)) by (nonlinear_arith)
                    requires
                        w as int >= 2;
            }
        }
        match diagonal {
            Diagonal::Major => {
                for i in 0..w
                    invariant
                        self.wf(),
                        w == self.width,
                        n == self@.len(),
                        w < usize::MAX,
                        r@.len() == i,
                        forall|k: int| 0 <= k < i ==> r@[k] == self@[k * (w + 1)],
                {
                    proof {
                        assert((i as int) * (w as int + 1) < n as int) by (nonlinear_arith)
                            requires
                                i < w,
                                (w as int) * (w as int) == n as int;
                    }
                    r.push(self.data[i * (w + 1)]);
                }
                proof {
                    assert(r@ =~= major_diag_seq(self@, self.width_spec()));
                }
            },
            Diagonal::Minor => {
                for i in 0..w
                    invariant
                        self.wf(),
                        w == self.width,
                        n == self@.len(),
                        r@.len() == i,
                        forall|k: int| 0 <= k < i ==> r@[k] == self@[(k + 1) * (w - 1)],
                {
                    proof {
                        assert((i as int + 1) * (w as int - 1) < n as int) by (nonlinear_arith)
                            requires
                                i < w,
                                (w as int) * (w as int) == n as int;
                    }
                    r.push(self.data[(i + 1) * (w - 1)]);
                }
                proof {
                    assert(r@ =~= minor_diag_seq(self@, self.width_spec()));
                }
            },
        }
        r
    }

    /// The values of the up-to-four cells adjacent to `cell_number`, in
    /// ascending index order. Adjacency follows the flat storage, as
    /// `cell_adjacent` records.
    pub fn get_adjacent_cells(&self, cell_number: usize) -> (r: Vec<CellState>)
        ensures
            r@ == adjacent_cells_seq(self@, cell_number as int, self.width_spec() as int),
    {
        let mut r: Vec<CellState> = Vec::new();
        let n = self.data.len();
        let w = self.width;
        let c = cell_number;
        for i in 0..n
            invariant
                n == self@.len(),
                w == self.width,
                c == cell_number,
                r@ == adjacent_cells_seq(self@.take(i as int), c as int, w as int),
        {
            proof {
                let pre = self@.take(i as int);
                let cur = self@.take(i + 1);
                assert(cur.drop_last() =~= pre);
                assert(cur.last() == self@[i as int]);
            }
            let adjacent = (c >= 1 && i == c - 1) || (i >= 1 && i - 1 == c) || (c >= w && i == c
                - w) || (i >= w && i - w == c);
            if adjacent {
                r.push(self.data[i]);
            }
        }
        proof {
            assert(self@.take(n as int) =~= self@);
        }
        r
    }

    /// The winner along some axis, if any: all rows are tried first, then all
    /// columns, then the two diagonals, and the first winning axis decides.
    pub fn check_for_victory(&self) -> (r: Option<CellState>)
        requires
            self.wf(),
        ensures
            r == victory_cell(self@, self.width_spec()),
    {
        match self.has_horizontal_victor() {
            Some(c) => Some(c),
            None => match self.has_vertical_victor() {
                Some(c) => Some(c),
                None => self.has_diagonal_victor(),
            },
        }
    }

    /// The winner of the topmost winning row, if any row wins.
    fn has_horizontal_victor(&self) -> (r: Option<CellState>)
        requires
            self.wf(),
        ensures
            r == piece_cell_opt(rows_winner(self@, self.width_spec())),
    {
        let rows = self.get_all_rows();
        let n = rows.len();
        for i in 0..n
            invariant
                self.wf(),
                n == self.width_spec(),
                rows@.len() == n,
                forall|k: int| 0 <= k < n ==> #[trigger] rows@[k]@ == row_seq(
                    self@,
                    self.width_spec(),
                    k as nat,
                ),
                forall|k: nat| k < i ==> line_winner(#[trigger] row_seq(
                    self@,
                    self.width_spec(),
                    k,
                )) is None,
        {
            let has_victor = self.has_victor(rows[i].as_slice());
            if has_victor.is_some() {
                proof {
                    lemma_rows_winner_skip(self@, self.width_spec(), i as nat);
                }
                return has_victor;
            }
        }
        proof {
            lemma_rows_winner_skip(self@, self.width_spec(), self.width_spec());
        }
        None
    }

    /// The winner of the leftmost winning column, if any column wins.
    fn has_vertical_victor(&self) -> (r: Option<CellState>)
        requires
            self.wf(),
        ensures
            r == piece_cell_opt(cols_winner(self@, self.width_spec())),
    {
        let columns = self.get_all_columns();
        let n = columns.len();
        for i in 0..n
            invariant
                self.wf(),
                n == self.width_spec(),
                columns@.len() == n,
                forall|k: int| 0 <= k < n ==> #[trigger] columns@[k]@ == col_seq(
                    self@,
                    self.width_spec(),
                    k as nat,
                ),
                forall|k: nat| k < i ==> line_winner(#[trigger] col_seq(
                    self@,
                    self.width_spec(),
                    k,
                )) is None,
        {
            let has_victor = self.has_victor(columns[i].as_slice());
            if has_victor.is_some() {
                proof {
                    lemma_cols_winner_skip(self@, self.width_spec(), i as nat);
                }
                return has_victor;
            }
        }
        proof {
            lemma_cols_winner_skip(self@, self.width_spec(), self.width_spec());
        }
        None
    }

    /// The winner of a diagonal, trying the major diagonal first.
    fn has_diagonal_victor(&self) -> (r: Option<CellState>)
        requires
            self.wf(),
        ensures
            r == if line_winner(major_diag_seq(self@, self.width_spec())) is Some {
                piece_cell_opt(line_winner(major_diag_seq(self@, self.width_spec())))
            } else {
                piece_cell_opt(line_winner(minor_diag_seq(self@, self.width_spec())))
            },
    {
        let major = self.get_diagonal(Diagonal::Major);
        match self.has_victor(major.as_slice()) {
            Some(c) => Some(c),
            None => {
                let minor = self.get_diagonal(Diagonal::Minor);
                self.has_victor(minor.as_slice())
            },
        }
    }

    /// The cell value that owns the whole line, if one piece occupies every
    /// cell of it.
    fn has_victor(&self, vec: &[CellState]) -> (r: Option<CellState>)
        ensures
            r == piece_cell_opt(line_winner(vec@)),
    {
        if vec.len() == 0 {
            return None;
        }
        let first_cell = vec[0];
        match first_cell {
            CellState::Player(player_piece) => {
                let n = vec.len();
                for i in 0..n
                    invariant
                        n == vec@.len(),
                        n > 0,
                        vec@[0] == CellState::Player(player_piece),
                        forall|k: int| 0 <= k < i ==> vec@[k] == CellState::Player(player_piece),
                {
                    if vec[i] != CellState::Player(player_piece) {
                        return None;
                    }
                }
                Some(first_cell)
            },
            CellState::Empty => None,
        }
    }
}

} // verus!
