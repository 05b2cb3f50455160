//! An earlier generation of the board that stores each cell as a bare
//! encoded player symbol, with `0` standing for an empty cell. It carries
//! the adjacency query that the scoring heuristics read.

use crate::board::cell_adjacent;
use vstd::prelude::*;

verus! {

/// The encoded symbol of an empty cell.
pub const EMPTY_CELL_SYMBOL: u8 = 0;

/// A square board of `width * width` encoded cells, stored row-major.
pub struct Board {
    data: Vec<u8>,
    width: usize,
}

/// Row `r` of the grid `v` of side `w`, read left to right.
pub open spec fn row_seq(v: Seq<u8>, w: nat, r: nat) -> Seq<u8> {
    Seq::new(w, |i: int| v[r * w + i])
}

/// Column `c` of the grid `v` of side `w`, read top to bottom.
pub open spec fn col_seq(v: Seq<u8>, w: nat, c: nat) -> Seq<u8> {
    Seq::new(w, |i: int| v[i * w + c])
}

/// The diagonal from the top-left corner to the bottom-right one.
pub open spec fn major_diag_seq(v: Seq<u8>, w: nat) -> Seq<u8> {
    Seq::new(w, |i: int| v[i * (w + 1)])
}

/// The diagonal from the top-right corner to the bottom-left one.
pub open spec fn minor_diag_seq(v: Seq<u8>, w: nat) -> Seq<u8> {
    Seq::new(w, |i: int| v[(i + 1) * (w - 1)])
}

/// The encoded piece that owns every cell of `line`, if there is one: the
/// line must be non-empty, start with an occupied cell, and repeat that cell
/// throughout.
pub open spec fn line_winner(line: Seq<u8>) -> Option<u8> {
    if line.len() > 0 && line[0] != EMPTY_CELL_SYMBOL && (forall|i: int|
        0 <= i < line.len() ==> (#[trigger] line[i]) == line[0]) {
        Some(line[0])
    } else {
        None
    }
}

/// The winner among rows `r..w`, scanning top to bottom and stopping at the
/// first winning row.
pub open spec fn rows_winner_from(v: Seq<u8>, w: nat, r: nat) -> Option<u8>
    decreases w - r,
{
    if r >= w {
        None
    } else if line_winner(row_seq(v, w, r)) is Some {
        line_winner(row_seq(v, w, r))
    } else {
        rows_winner_from(v, w, r + 1)
    }
}

/// The winner among all rows, preferring the topmost winning row.
pub open spec fn rows_winner(v: Seq<u8>, w: nat) -> Option<u8> {
    rows_winner_from(v, w, 0)
}

/// The winner among columns `c..w`, scanning left to right and stopping at
/// the first winning column.
pub open spec fn cols_winner_from(v: Seq<u8>, w: nat, c: nat) -> Option<u8>
    decreases w - c,
{
    if c >= w {
        None
    } else if line_winner(col_seq(v, w, c)) is Some {
        line_winner(col_seq(v, w, c))
    } else {
        cols_winner_from(v, w, c + 1)
    }
}

/// The winner among all columns, preferring the leftmost winning column.
pub open spec fn cols_winner(v: Seq<u8>, w: nat) -> Option<u8> {
    cols_winner_from(v, w, 0)
}

/// The winning piece of the whole grid: all rows are tried first, then all
/// columns, then the major diagonal, then the minor one.
pub open spec fn victory_piece(v: Seq<u8>, w: nat) -> Option<u8> {
    if rows_winner(v, w) is Some {
        rows_winner(v, w)
    } else if cols_winner(v, w) is Some {
        cols_winner(v, w)
    } else if line_winner(major_diag_seq(v, w)) is Some {
        line_winner(major_diag_seq(v, w))
    } else {
        line_winner(minor_diag_seq(v, w))
    }
}

/// The cell values adjacent to index `cell`, in ascending index order.
pub open spec fn adjacents_seq(v: Seq<u8>, cell: int, w: int) -> Seq<u8>
    decreases v.len(),
{
    if v.len() == 0 {
        Seq::<u8>::empty()
    } else {
        adjacents_seq(v.drop_last(), cell, w) + if cell_adjacent(v.len() - 1, cell, w) {
            seq![v.last()]
        } else {
            Seq::<u8>::empty()
        }
    }
}

/// If no row above `r` wins, the row scan may start at `r` without changing
/// its verdict.
pub proof fn lemma_rows_winner_skip(v: Seq<u8>, w: nat, r: nat)
    requires
        r <= w,
        forall|r0: nat| r0 < r ==> line_winner(#[trigger] row_seq(v, w, r0)) is None,
    ensures
        rows_winner(v, w) == rows_winner_from(v, w, r),
    decreases r,
{
    if r > 0 {
        lemma_rows_winner_skip(v, w, (r - 1) as nat);
    }
}

/// If no column left of `c` wins, the column scan may start at `c` without
/// changing its verdict.
pub proof fn lemma_cols_winner_skip(v: Seq<u8>, w: nat, c: nat)
    requires
        c <= w,
        forall|c0: nat| c0 < c ==> line_winner(#[trigger] col_seq(v, w, c0)) is None,
    ensures
        cols_winner(v, w) == cols_winner_from(v, w, c),
    decreases c,
{
    if c > 0 {
        lemma_cols_winner_skip(v, w, (c - 1) as nat);
    }
}

impl Board {
    /// The side length of the board.
    pub closed spec fn width_spec(&self) -> nat {
        self.width as nat
    }

    /// The view of the board: its cells in row-major order.
    pub closed spec fn view(&self) -> Seq<u8> {
        self.data@
    }

    /// The board invariant: the backing storage holds exactly one cell per
    /// grid position.
    pub open spec fn wf(&self) -> bool {
        self@.len() == self.width_spec() * self.width_spec()
    }

    /// An all-empty standard board of side three.
    pub fn new() -> (r: Board)
        ensures
            r.wf(),
            r.width_spec() == 3,
            forall|i: int| 0 <= i < r@.len() ==> r@[i] == EMPTY_CELL_SYMBOL,
    {
        let mut data: Vec<u8> = Vec::new();
        let total: usize = 9;
        while data.len() < total
            invariant
                data@.len() <= total,
                forall|i: int| 0 <= i < data@.len() ==> data@[i] == EMPTY_CELL_SYMBOL,
            decreases total - data@.len(),
        {
            data.push(EMPTY_CELL_SYMBOL);
        }
        Board { data, width: 3 }
    }

    /// A board over the given cells. The cell count must fill a square grid
    /// exactly; the width becomes the square root of the count.
    pub fn new_from(data: Vec<u8>) -> (r: Board)
        requires
            crate::board::is_perfect_square(data@.len() as int),
        ensures
            r@ == data@,
            r.wf(),
    {
        let len = data.len();
        let ghost s: int = choose|w0: int| 0 <= w0 && #[trigger] (w0 * w0) == len as int;
        let mut w: usize = 0;
        loop
            invariant_except_break
                0 <= w as int,
                w as int <= s,
                s * s == len as int,
            ensures
                (w as int) * (w as int) == len as int,
            decreases s - w,
        {
            proof {
                assert((w as int) * (w as int) <= s * s) by (nonlinear_arith)
                    requires
                        0 <= w as int,
                        w as int <= s;
            }
            if w * w >= len {
                proof {
                    assert(w as int == s) by (nonlinear_arith)
                        requires
                            (w as int) * (w as int) >= s * s,
                            0 <= w as int,
                            w as int <= s;
                }
                break;
            }
            proof {
                assert((w as int) < s) by (nonlinear_arith)
                    requires
                        (w as int) * (w as int) < s * s,
                        0 <= w as int,
                        0 <= s;
                assert(s <= s * s) by (nonlinear_arith)
                    requires
                        1 <= s;
            }
            w = w + 1;
        }
        Board { data, width: w }
    }

    /// Writes `piece_to_place` at `index`, overwriting whatever the cell
    /// held; the index must lie on the board.
    pub fn place(&mut self, index: usize, piece_to_place: u8)
        requires
            index < old(self)@.len(),
        ensures
            final(self)@ == old(self)@.update(index as int, piece_to_place),
            final(self).width_spec() == old(self).width_spec(),
    {
        self.data.set(index, piece_to_place);
    }

    /// The winner along some axis, if any: all rows are tried first, then
    /// all columns, then the two diagonals, and the first winning axis
    /// decides.
    pub fn check_for_victory(&self) -> (r: Option<u8>)
        requires
            self.wf(),
        ensures
            r == victory_piece(self@, self.width_spec()),
    {
        match self.has_horizontal_victor() {
            Some(p) => Some(p),
            None => match self.has_vertical_victor() {
                Some(p) => Some(p),
                None => self.has_diagonal_victor(),
            },
        }
    }

    /// The winner of the topmost winning row, if any row wins.
    fn has_horizontal_victor(&self) -> (r: Option<u8>)
        requires
            self.wf(),
        ensures
            r == rows_winner(self@, self.width_spec()),
    {
        let rows = self.get_all_rows();
        let n = rows.len();
        for i in 0..n
            invariant
                self.wf(),
                n == self.width_spec(),
                rows@.len() == n,
                forall|k: int| 0 <= k < n ==> #[trigger] rows@[k]@ == row_seq(
                    self@,
                    self.width_spec(),
                    k as nat,
                ),
                forall|k: nat| k < i ==> line_winner(#[trigger] row_seq(
                    self@,
                    self.width_spec(),
                    k,
                )) is None,
        {
            let has_victor = self.has_victor(rows[i].as_slice());
            if has_victor.is_some() {
                proof {
                    lemma_rows_winner_skip(self@, self.width_spec(), i as nat);
                }
                return has_victor;
            }
        }
        proof {
            lemma_rows_winner_skip(self@, self.width_spec(), self.width_spec());
        }
        None
    }

    /// The winner of the leftmost winning column, if any column wins.
    fn has_vertical_victor(&self) -> (r: Option<u8>)
        requires
            self.wf(),
        ensures
            r == cols_winner(self@, self.width_spec()),
    {
        let columns = self.get_all_columns();
        let n = columns.len();
        for i in 0..n
            invariant
                self.wf(),
                n == self.width_spec(),
                columns@.len() == n,
                forall|k: int| 0 <= k < n ==> #[trigger] columns@[k]@ == col_seq(
                    self@,
                    self.width_spec(),
                    k as nat,
                ),
                forall|k: nat| k < i ==> line_winner(#[trigger] col_seq(
                    self@,
                    self.width_spec(),
                    k,
                )) is None,
        {
            let has_victor = self.has_victor(columns[i].as_slice());
            if has_victor.is_some() {
                proof {
                    lemma_cols_winner_skip(self@, self.width_spec(), i as nat);
                }
                return has_victor;
            }
        }
        proof {
            lemma_cols_winner_skip(self@, self.width_spec(), self.width_spec());
        }
        None
    }

    /// The winner of a diagonal, trying the major diagonal first.
    fn has_diagonal_victor(&self) -> (r: Option<u8>)
        requires
            self.wf(),
        ensures
            r == if line_winner(major_diag_seq(self@, self.width_spec())) is Some {
                line_winner(major_diag_seq(self@, self.width_spec()))
            } else {
                line_winner(minor_diag_seq(self@, self.width_spec()))
            },
    {
        let diagonal_1 = self.get_diagonal(0);
        match self.has_victor(diagonal_1.as_slice()) {
            Some(p) => Some(p),
            None => {
                let diagonal_2 = self.get_diagonal(1);
                self.has_victor(diagonal_2.as_slice())
            },
        }
    }

    /// The encoded piece that owns the whole line, if one occupied symbol
    /// fills every cell of it.
    fn has_victor(&self, vec: &[u8]) -> (r: Option<u8>)
        ensures
            r == line_winner(vec@),
    {
        if vec.len() == 0 {
            return None;
        }
        let first = vec[0];
        if first == EMPTY_CELL_SYMBOL {
            return None;
        }
        let n = vec.len();
        for i in 0..n
            invariant
                n == vec@.len(),
                n > 0,
                first == vec@[0],
                first != EMPTY_CELL_SYMBOL,
                forall|k: int| 0 <= k < i ==> (#[trigger] vec@[k]) == vec@[0],
        {
            if vec[i] != first {
                return None;
            }
        }
        Some(first)
    }

    /// The values of the up-to-four cells adjacent to `cell_number`, in
    /// ascending index order. Adjacency follows the flat storage, as
    /// `cell_adjacent` records.
    pub fn get_adjacents(&self, cell_number: usize) -> (r: Vec<u8>)
        ensures
            r@ == adjacents_seq(self@, cell_number as int, self.width_spec() as int),
    {
        let mut r: Vec<u8> = Vec::new();
        let n = self.data.len();
        let w = self.width;
        let c = cell_number;
        for i in 0..n
            invariant
                n == self@.len(),
                w == self.width,
                c == cell_number,
                r@ == adjacents_seq(self@.take(i as int), c as int, w as int),
        {
            proof {
                let pre = self@.take(i as int);
                let cur = self@.take(i + 1);
                assert(cur.drop_last() =~= pre);
                assert(cur.last() == self@[i as int]);
            }
            let adjacent = (c >= 1 && i == c - 1) || (i >= 1 && i - 1 == c) || (c >= w && i == c
                - w) || (i >= w && i - w == c);
            if adjacent {
                r.push(self.data[i]);
            }
        }
        proof {
            assert(self@.take(n as int) =~= self@);
        }
        r
    }

    /// Row `row_num` of the board, counted from zero at the top; a row
    /// number beyond the board yields an empty sequence.
    pub fn get_row(&self, row_num: usize) -> (r: Vec<u8>)
        requires
            self.wf(),
        ensures
            row_num < self.width_spec() ==> r@ == row_seq(self@, self.width_spec(), row_num as nat),
            row_num >= self.width_spec() ==> r@ == Seq::<u8>::empty(),
    {
        let mut r: Vec<u8> = Vec::new();
        if row_num >= self.width {
            return r;
        }
        let n = self.data.len();
        proof {
            assert((row_num as int) * (self.width as int) + (self.width as int) <= n as int)
                by (nonlinear_arith)
                requires
                    row_num < self.width,
                    (self.width as int) * (self.width as int) == n as int;
        }
        let start = row_num * self.width;
        for i in 0..self.width
            invariant
                self.wf(),
                n == self@.len(),
                row_num < self.width_spec(),
                start == row_num * self.width,
                start + self.width <= n,
                r@.len() == i,
                forall|k: int| 0 <= k < i ==> r@[k] == self@[row_num * self.width + k],
        {
            r.push(self.data[start + i]);
        }
        proof {
            assert(r@ =~= row_seq(self@, self.width_spec(), row_num as nat));
        }
        r
    }

    /// All rows of the board, top to bottom.
    pub(crate) fn get_all_rows(&self) -> (r: Vec<Vec<u8>>)
        requires
            self.wf(),
        ensures
            r@.len() == self.width_spec(),
            forall|k: int| 0 <= k < r@.len() ==> #[trigger] r@[k]@ == row_seq(
                self@,
                self.width_spec(),
                k as nat,
            ),
    {
        let mut r: Vec<Vec<u8>> = Vec::new();
        for k in 0..self.width
            invariant
                self.wf(),
                r@.len() == k,
                forall|j: int| 0 <= j < k ==> #[trigger] r@[j]@ == row_seq(
                    self@,
                    self.width_spec(),
                    j as nat,
                ),
        {
            r.push(self.get_row(k));
        }
        r
    }

    /// Column `col_num` of the board, counted from zero at the left; a
    /// column number beyond the board yields an empty sequence.
    pub fn get_column(&self, col_num: usize) -> (r: Vec<u8>)
        requires
            self.wf(),
        ensures
            col_num < self.width_spec() ==> r@ == col_seq(self@, self.width_spec(), col_num as nat),
            col_num >= self.width_spec() ==> r@ == Seq::<u8>::empty(),
    {
        let mut r: Vec<u8> = Vec::new();
        if col_num >= self.width {
            return r;
        }
        let n = self.data.len();
        for i in 0..self.width
            invariant
                self.wf(),
                n == self@.len(),
                col_num < self.width_spec(),
                r@.len() == i,
                forall|k: int| 0 <= k < i ==> r@[k] == self@[k * self.width + col_num],
        {
            proof {
                assert((i as int) * (self.width as int) + (col_num as int) < n as int)
                    by (nonlinear_arith)
                    requires
                        i < self.width,
                        col_num < self.width,
                        (self.width as int) * (self.width as int) == n as int;
            }
            r.push(self.data[i * self.width + col_num]);
        }
        proof {
            assert(r@ =~= col_seq(self@, self.width_spec(), col_num as nat));
        }
        r
    }

    /// All columns of the board, left to right.
    pub(crate) fn get_all_columns(&self) -> (r: Vec<Vec<u8>>)
        requires
            self.wf(),
        ensures
            r@.len() == self.width_spec(),
            forall|k: int| 0 <= k < r@.len() ==> #[trigger] r@[k]@ == col_seq(
                self@,
                self.width_spec(),
                k as nat,
            ),
    {
        let mut r: Vec<Vec<u8>> = Vec::new();
        for k in 0..self.width
            invariant
                self.wf(),
                r@.len() == k,
                forall|j: int| 0 <= j < k ==> #[trigger] r@[j]@ == col_seq(
                    self@,
                    self.width_spec(),
                    j as nat,
                ),
        {
            r.push(self.get_column(k));
        }
        r
    }

    /// Diagonal number `0` (major, top-left to bottom-right) or `1` (minor,
    /// top-right to bottom-left); any other number yields an empty sequence.
    pub fn get_diagonal(&self, diagonal_num: usize) -> (r: Vec<u8>)
        requires
            self.wf(),
        ensures
            diagonal_num == 0 ==> r@ == major_diag_seq(self@, self.width_spec()),
            diagonal_num == 1 ==> r@ == minor_diag_seq(self@, self.width_spec()),
            diagonal_num > 1 ==> r@ == Seq::<u8>::empty(),
    {
        let mut r: Vec<u8> = Vec::new();
        if diagonal_num > 1 {
            return r;
        }
        let w = self.width;
        let n = self.data.len();
        proof {
            if w >= 2 {
                assert((w as int) < (w as int) * (w as int)) by (nonlinear_arith)
                    requires
                        w as int >= 2;
            }
        }
        if diagonal_num == 0 {
            for i in 0..w
                invariant
                    self.wf(),
                    w == self.width,
                    n == self@.len(),
                    w < usize::MAX,
                    r@.len() == i,
                    forall|k: int| 0 <= k < i ==> r@[k] == self@[k * (w + 1)],
            {
                proof {
                    assert((i as int) * (w as int + 1) < n as int) by (nonlinear_arith)
                        requires
                            i < w,
                            (w as int) * (w as int) == n as int;
                }
                r.push(self.data[i * (w + 1)]);
            }
            proof {
                assert(r@ =~= major_diag_seq(self@, self.width_spec()));
            }
        } else {
            for i in 0..w
                invariant
                    self.wf(),
                    w == self.width,
                    n == self@.len(),
                    r@.len() == i,
                    forall|k: int| 0 <= k < i ==> r@[k] == self@[(k + 1) * (w - 1)],
            {
                proof {
                    assert((i as int + 1) * (w as int - 1) < n as int) by (nonlinear_arith)
                        requires
                            i < w,
                            (w as int) * (w as int) == n as int;
                }
                r.push(self.data[(i + 1) * (w - 1)]);
            }
            proof {
                assert(r@ =~= minor_diag_seq(self@, self.width_spec()));
            }
        }
        r
    }
}

} // verus!
