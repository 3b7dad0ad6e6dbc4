//! The grid of cells: storage, bounds-checked access, and the positions
//! around a cell.

use vstd::prelude::*;
use vstd::arithmetic::div_mod::{
    lemma_div_pos_is_pos, lemma_fundamental_div_mod, lemma_fundamental_div_mod_converse,
    lemma_mod_bound, lemma_multiply_divide_lt,
};
use vstd::seq_lib::{lemma_no_dup_in_concat, lemma_seq_concat_contains_all_elements};
use vstd::set_lib::{full_set_properties, lemma_set_subset_finite};
use vstd::std_specs::iter::IteratorSpec;
use crate::cell::CellKind;
use crate::pos::Pos;

verus! {

/// Why a board refused a request.
#[derive(Debug, PartialEq, Eq, Structural)]
pub enum BoardError {
    /// `pos` is not on the board, so `kind` was not stored.
    SetCellError { pos: Pos, kind: CellKind },
}

/// A rectangular grid of cells, `height` rows of `width` cells each.
pub struct Board {
    /// The rows, top to bottom, each from left to right.
    pub b: Vec<Vec<CellKind>>,
    /// The number of rows.
    pub height: u8,
    /// The number of cells in a row.
    pub width: u8,
}

/// The rows of a board, top to bottom, each from left to right.
pub type Grid = Seq<Seq<CellKind>>;

/// `grid` with the cell at `pos` replaced by `kind`.
pub open spec fn put(grid: Grid, pos: Pos, kind: CellKind) -> Grid {
    grid.update(pos.row as int, grid[pos.row as int].update(pos.col as int, kind))
}

impl View for Board {
    type V = Grid;

    open spec fn view(&self) -> Grid {
        Seq::new(self.b@.len(), |i: int| self.b@[i]@)
    }
}

impl Board {
    /// The board is a rectangle of `height` by `width` cells, and no open
    /// cell counts more mines than a cell has neighbours.
    pub open spec fn wf(&self) -> bool {
        &&& self@.len() == self.height
        &&& forall|i: int| 0 <= i < self@.len() ==> (#[trigger] self@[i]).len() == self.width
        &&& forall|p: Pos| self.holds(p) ==> (#[trigger] self.cell(p)).wf()
    }

    /// Whether `pos` lies within the board's dimensions.
    pub open spec fn in_bounds(&self, pos: Pos) -> bool {
        pos.row < self.height && pos.col < self.width
    }

    /// Whether the storage has a cell at `pos`. On a well-formed board this
    /// is `in_bounds`.
    pub open spec fn holds(&self, pos: Pos) -> bool {
        pos.row < self@.len() && pos.col < self@[pos.row as int].len()
    }

    /// The cell at `pos`.
    pub open spec fn cell(&self, pos: Pos) -> CellKind
        recommends
            self.holds(pos),
    {
        self@[pos.row as int][pos.col as int]
    }

    /// The position (`row`, `col`) as a sequence of one, or the empty
    /// sequence if it is not on the board.
    pub open spec fn spot(&self, row: int, col: int) -> Seq<Pos> {
        if 0 <= row < self.height && 0 <= col < self.width {
            seq![Pos { row: row as u8, col: col as u8 }]
        } else {
            Seq::empty()
        }
    }

    /// The positions on the board around `pos`, row by row and from left to
    /// right within a row.
    pub open spec fn neighbors(&self, pos: Pos) -> Seq<Pos> {
        let r = pos.row as int;
        let c = pos.col as int;
        self.spot(r - 1, c - 1) + self.spot(r - 1, c) + self.spot(r - 1, c + 1)
            + self.spot(r, c - 1) + self.spot(r, c + 1)
            + self.spot(r + 1, c - 1) + self.spot(r + 1, c) + self.spot(r + 1, c + 1)
    }

    /// The positions of the cells that hold a mine.
    pub open spec fn mines(&self) -> Set<Pos> {
        Set::new(|p: Pos| self.in_bounds(p) && self.cell(p) is Mine)
    }

    /// The positions of the cells that are closed and hold no mine.
    pub open spec fn closed(&self) -> Set<Pos> {
        Set::new(|p: Pos| self.in_bounds(p) && self.cell(p) is Closed)
    }

    /// A board of `height` by `width` closed cells without flags.
    pub fn new(height: u8, width: u8) -> (board: Self)
        ensures
            board.wf(),
            board.height == height,
            board.width == width,
            forall|p: Pos| board.in_bounds(p) ==> #[trigger] board.cell(p) == (CellKind::Closed {
                flagged: false,
            }),
            board.mines().is_empty(),
    {
        let mut b: Vec<Vec<CellKind>> = Vec::new();
        let mut i: u8 = 0;
        while i < height
            invariant
                i <= height,
                b@.len() == i,
                forall|k: int| 0 <= k < i ==> (#[trigger] b@[k])@.len() == width,
                forall|k: int, j: int|
                    0 <= k < i && 0 <= j < width ==> (#[trigger] b@[k]@[j]) == (CellKind::Closed {
                        flagged: false,
                    }),
            decreases height - i,
        {
            let mut row: Vec<CellKind> = Vec::new();
            let mut j: u8 = 0;
            while j < width
                invariant
                    j <= width,
                    row@.len() == j,
                    forall|k: int| 0 <= k < j ==> (#[trigger] row@[k]) == (CellKind::Closed {
                        flagged: false,
                    }),
                decreases width - j,
            {
                row.push(CellKind::new_closed());
                j += 1;
            }
            b.push(row);
            i += 1;
        }
        let board = Self { b, height, width };
        assert(board.mines() =~= Set::empty()) by {
            assert forall|p: Pos| !board.mines().contains(p) by {
                if board.in_bounds(p) {
                    assert(board.cell(p) == b@[p.row as int]@[p.col as int]);
                }
            }
        }
        board
    }

    /// A board with a mine wherever `matrix` is not zero and a closed cell
    /// wherever it is zero. The height is the number of rows and the width
    /// the length of the first row; a matrix without rows gives a board
    /// without cells.
    pub fn from_matrix(matrix: Vec<Vec<i32>>) -> (board: Self)
        requires
            matrix@.len() <= u8::MAX,
            matrix@.len() > 0 ==> matrix@[0]@.len() <= u8::MAX,
        ensures
            board.height == matrix@.len(),
            board.width == (if matrix@.len() > 0 {
                matrix@[0]@.len()
            } else {
                0
            }),
            board@.len() == matrix@.len(),
            forall|i: int| 0 <= i < matrix@.len() ==> (#[trigger] board@[i]).len() == matrix@[i]@.len(),
            forall|i: int, j: int|
                0 <= i < matrix@.len() && 0 <= j < matrix@[i]@.len() ==> (#[trigger] board@[i][j])
                    == (if matrix@[i]@[j] == 0 {
                    CellKind::Closed { flagged: false }
                } else {
                    CellKind::Mine { flagged: false }
                }),
            (forall|i: int| 0 <= i < matrix@.len() ==> (#[trigger] matrix@[i])@.len() == matrix@[0]@.len())
                ==> board.wf(),
    {
        let height = matrix.len() as u8;
        let width = if matrix.len() > 0 {
            matrix[0].len() as u8
        } else {
            0
        };
        let mut b: Vec<Vec<CellKind>> = Vec::new();
        let mut i: usize = 0;
        while i < matrix.len()
            invariant
                i <= matrix@.len(),
                b@.len() == i,
                forall|k: int| 0 <= k < i ==> (#[trigger] b@[k])@.len() == matrix@[k]@.len(),
                forall|k: int, j: int|
                    0 <= k < i && 0 <= j < matrix@[k]@.len() ==> (#[trigger] b@[k]@[j]) == (if matrix@[k]@[j]
                        == 0 {
                        CellKind::Closed { flagged: false }
                    } else {
                        CellKind::Mine { flagged: false }
                    }),
            decreases matrix@.len() - i,
        {
            let mut row: Vec<CellKind> = Vec::new();
            let mut j: usize = 0;
            while j < matrix[i].len()
                invariant
                    i < matrix@.len(),
                    j <= matrix@[i as int]@.len(),
                    row@.len() == j,
                    forall|k: int|
                        0 <= k < j ==> (#[trigger] row@[k]) == (if matrix@[i as int]@[k] == 0 {
                            CellKind::Closed { flagged: false }
                        } else {
                            CellKind::Mine { flagged: false }
                        }),
                decreases matrix@[i as int]@.len() - j,
            {
                if matrix[i][j] == 0 {
                    row.push(CellKind::new_closed());
                } else {
                    row.push(CellKind::new_mine());
                }
                j += 1;
            }
            b.push(row);
            i += 1;
        }
        Self { b, height, width }
    }

    /// Whether the board is well formed.
    pub fn is_wf(&self) -> (r: bool)
        ensures
            r == self.wf(),
    {
        if self.b.len() != self.height as usize {
            return false;
        }
        let mut i: usize = 0;
        while i < self.b.len()
            invariant
                self@.len() == self.height,
                self@.len() == self.b@.len(),
                i <= self@.len(),
                forall|k: int| 0 <= k < i ==> (#[trigger] self@[k]).len() == self.width,
                forall|k: int, j: int|
                    0 <= k < i && 0 <= j < self@[k].len() ==> (#[trigger] self@[k][j]).wf(),
            decreases self@.len() - i,
        {
            let row = &self.b[i];
            assert(row@ == self@[i as int]);
            if row.len() != self.width as usize {
                return false;
            }
            let mut j: usize = 0;
            while j < row.len()
                invariant
                    row@ == self@[i as int],
                    i < self@.len(),
                    self@.len() == self.height,
                    row@.len() == self.width,
                    j <= row@.len(),
                    forall|k: int| 0 <= k < j ==> (#[trigger] row@[k]).wf(),
                decreases row@.len() - j,
            {
                match row[j] {
                    CellKind::Open { neighbor_mines } => {
                        if neighbor_mines > 8 {
                            proof {
                                let p = Pos { row: i as u8, col: j as u8 };
                                assert(self.holds(p));
                                assert(!self.cell(p).wf());
                            }
                            return false;
                        }
                    },
                    _ => {},
                }
                j += 1;
            }
            i += 1;
        }
        assert forall|p: Pos| self.holds(p) implies (#[trigger] self.cell(p)).wf() by {
            assert(self@[p.row as int][p.col as int].wf());
        }
        true
    }

    /// Whether `matrix` describes a board: every row is as long as the
    /// first, and neither the rows nor the columns are more than 255.
    pub fn fits(matrix: &Vec<Vec<i32>>) -> (r: bool)
        ensures
            r == Self::describes_board(matrix@),
    {
        if matrix.len() > 255 {
            return false;
        }
        if matrix.len() == 0 {
            return true;
        }
        let width = matrix[0].len();
        if width > 255 {
            return false;
        }
        let mut i: usize = 0;
        while i < matrix.len()
            invariant
                i <= matrix@.len(),
                width == matrix@[0]@.len(),
                forall|k: int| 0 <= k < i ==> (#[trigger] matrix@[k])@.len() == width,
            decreases matrix@.len() - i,
        {
            if matrix[i].len() != width {
                return false;
            }
            i += 1;
        }
        true
    }

    /// Whether `matrix` describes a board: every row is as long as the
    /// first, and neither the rows nor the columns are more than 255.
    pub open spec fn describes_board(matrix: Seq<Vec<i32>>) -> bool {
        &&& matrix.len() <= u8::MAX
        &&& matrix.len() > 0 ==> matrix[0]@.len() <= u8::MAX
        &&& forall|i: int| 0 <= i < matrix.len() ==> (#[trigger] matrix[i])@.len() == matrix[0]@.len()
    }

    /// The cell at `pos`, or nothing if `pos` is not on the board.
    pub fn get(&self, pos: Pos) -> (r: Option<&CellKind>)
        ensures
            r is Some <==> self.holds(pos),
            r matches Some(kind) ==> *kind == self.cell(pos),
            self.wf() ==> (r is None <==> !self.in_bounds(pos)),
    {
        let row = pos.row as usize;
        let col = pos.col as usize;
        if row < self.b.len() {
            if col < self.b[row].len() {
                return Some(&self.b[row][col]);
            }
        }
        None
    }

    /// Stores `kind` at `pos`, or refuses if `pos` is not on the board and
    /// leaves the board as it was.
    pub fn set(&mut self, pos: Pos, kind: CellKind) -> (r: Result<(), BoardError>)
        ensures
            final(self).height == old(self).height,
            final(self).width == old(self).width,
            match r {
                Ok(_) => old(self).holds(pos) && final(self)@ == put(old(self)@, pos, kind),
                Err(e) => !old(self).holds(pos) && e == (BoardError::SetCellError { pos, kind })
                    && *final(self) == *old(self),
            },
            forall|p: Pos|
                old(self).holds(p) ==> final(self).holds(p) && #[trigger] final(self).cell(p) == (if p
                    == pos {
                    kind
                } else {
                    old(self).cell(p)
                }),
            old(self).wf() ==> (r is Err <==> !old(self).in_bounds(pos)),
            old(self).wf() && kind.wf() ==> final(self).wf(),
    {
        let row = pos.row as usize;
        let col = pos.col as usize;
        if row < self.b.len() {
            if col < self.b[row].len() {
                self.b[row][col] = kind;
                assert(self@ =~= put(old(self)@, pos, kind));
                proof {
                    if old(self).wf() && kind.wf() {
                        assert forall|p: Pos| self.holds(p) implies (#[trigger] self.cell(p)).wf() by {
                            if p != pos {
                                assert(self.cell(p) == old(self).cell(p));
                            }
                        }
                    }
                }
                return Ok(());
            }
        }
        Err(BoardError::SetCellError { pos, kind })
    }

    /// The rows of the board, top to bottom.
    pub fn iter(&self) -> (rows: std::slice::Iter<'_, Vec<CellKind>>)
        ensures
            rows.remaining() == self.b@.as_ref(),
    {
        self.b.iter()
    }
}

impl Board {
    /// Every position on the board, row by row and from left to right
    /// within a row.
    pub open spec fn positions(&self) -> Seq<Pos> {
        Seq::new(
            (self.height * self.width) as nat,
            |k: int| Pos { row: (k / self.width as int) as u8, col: (k % self.width as int) as u8 },
        )
    }

    /// The place of `pos` in `positions`.
    pub open spec fn index_of(&self, pos: Pos) -> int {
        pos.row * self.width + pos.col
    }

    /// `positions` lists each position on the board once, at its
    /// `index_of`, and nothing else.
    pub proof fn lemma_positions(&self)
        ensures
            self.positions().len() == self.height * self.width,
            self.positions().no_duplicates(),
            forall|k: int|
                0 <= k < self.positions().len() ==> self.in_bounds(#[trigger] self.positions()[k])
                    && self.index_of(self.positions()[k]) == k,
            forall|p: Pos|
                self.in_bounds(p) ==> 0 <= #[trigger] self.index_of(p) < self.positions().len()
                    && self.positions()[self.index_of(p)] == p,
            forall|p: Pos| #[trigger] self.positions().contains(p) <==> self.in_bounds(p),
    {
        let all = self.positions();
        let h = self.height as int;
        let w = self.width as int;
        assert forall|k: int| 0 <= k < all.len() implies self.in_bounds(#[trigger] all[k])
            && self.index_of(all[k]) == k by {
            assert(w > 0) by (nonlinear_arith)
                requires
                    0 <= k < h * w,
                    0 <= w,
            ;
            lemma_fundamental_div_mod(k, w);
            lemma_mod_bound(k, w);
            assert(h * w == w * h) by (nonlinear_arith);
            lemma_multiply_divide_lt(k, w, h);
            lemma_div_pos_is_pos(k, w);
            assert(w * (k / w) == (k / w) * w) by (nonlinear_arith);
        }
        assert forall|p: Pos| self.in_bounds(p) implies 0 <= #[trigger] self.index_of(p) < all.len()
            && all[self.index_of(p)] == p by {
            let k = self.index_of(p);
            assert(0 <= k < h * w) by (nonlinear_arith)
                requires
                    k == p.row * w + p.col,
                    0 <= p.col < w,
                    0 <= p.row < h,
            ;
            lemma_fundamental_div_mod_converse(k, w, p.row as int, p.col as int);
        }
        assert forall|p: Pos| self.in_bounds(p) implies #[trigger] all.contains(p) by {
            assert(all[self.index_of(p)] == p);
        }
        assert forall|i: int, j: int| 0 <= i < all.len() && 0 <= j < all.len() && i != j implies all[i]
            != all[j] by {
            assert(self.index_of(all[i]) == i);
            assert(self.index_of(all[j]) == j);
        }
    }

    /// Every position on the board, in the order of `positions`.
    pub fn iter_pos(&self) -> (r: Vec<Pos>)
        ensures
            r@ == self.positions(),
    {
        let mut out: Vec<Pos> = Vec::new();
        let mut row: u8 = 0;
        while row < self.height
            invariant
                row <= self.height,
                out@.len() == row * self.width,
                forall|k: int| 0 <= k < out@.len() ==> #[trigger] out@[k] == self.positions()[k],
            decreases self.height - row,
        {
            let mut col: u8 = 0;
            while col < self.width
                invariant
                    row < self.height,
                    col <= self.width,
                    out@.len() == row * self.width + col,
                    forall|k: int| 0 <= k < out@.len() ==> #[trigger] out@[k] == self.positions()[k],
                decreases self.width - col,
            {
                proof {
                    let k = row * self.width + col;
                    lemma_fundamental_div_mod_converse(k, self.width as int, row as int, col as int);
                    assert(k < self.height * self.width) by (nonlinear_arith)
                        requires
                            k == row * self.width + col,
                            0 <= col < self.width,
                            0 <= row < self.height,
                    ;
                }
                out.push(Pos { row, col });
                col += 1;
            }
            assert((row + 1) * self.width == row * self.width + self.width) by (nonlinear_arith);
            row += 1;
        }
        assert(out@.len() == self.height * self.width);
        assert(out@ =~= self.positions());
        out
    }

    /// The positions on the board around `pos`, in the order of `neighbors`.
    pub fn iter_neighbors(&self, pos: Pos) -> (r: Vec<Pos>)
        ensures
            r@ == self.neighbors(pos),
    {
        let row = pos.row as i16;
        let col = pos.col as i16;
        let mut out: Vec<Pos> = Vec::new();
        self.push_spot(&mut out, row - 1, col - 1);
        self.push_spot(&mut out, row - 1, col);
        self.push_spot(&mut out, row - 1, col + 1);
        self.push_spot(&mut out, row, col - 1);
        self.push_spot(&mut out, row, col + 1);
        self.push_spot(&mut out, row + 1, col - 1);
        self.push_spot(&mut out, row + 1, col);
        self.push_spot(&mut out, row + 1, col + 1);
        assert(out@ =~= self.neighbors(pos));
        out
    }

    /// Appends the position (`row`, `col`) to `out` if it is on the board.
    fn push_spot(&self, out: &mut Vec<Pos>, row: i16, col: i16)
        ensures
            final(out)@ == old(out)@ + self.spot(row as int, col as int),
    {
        if 0 <= row && row < self.height as i16 && 0 <= col && col < self.width as i16 {
            out.push(Pos { row: row as u8, col: col as u8 });
        }
        assert(out@ =~= old(out)@ + self.spot(row as int, col as int));
    }

    /// The positions of the cells that `what` looks for.
    pub open spec fn cells_with(&self, what: Census) -> Set<Pos> {
        Set::new(|p: Pos| self.in_bounds(p) && what.counts(self.cell(p)))
    }

    /// The positions of the cells that carry a flag.
    pub open spec fn flags(&self) -> Set<Pos> {
        Set::new(|p: Pos| self.in_bounds(p) && self.cell(p).flagged())
    }

    /// The number of cells that `what` looks for.
    pub fn count(&self, what: Census) -> (n: usize)
        requires
            self.wf(),
        ensures
            n == self.cells_with(what).len(),
            n <= u16::MAX,
    {
        let ghost mut seen: Set<Pos> = Set::empty();
        let mut n: usize = 0;
        let mut row: u8 = 0;
        while row < self.height
            invariant
                self.wf(),
                row <= self.height,
                n <= row * 256,
                n == seen.len(),
                seen.finite(),
                seen =~= Set::new(|p: Pos| self.cells_with(what).contains(p) && scanned(p, row as int, 0)),
            decreases self.height - row,
        {
            let mut col: u8 = 0;
            while col < self.width
                invariant
                    self.wf(),
                    row < self.height,
                    col <= self.width,
                    n <= row * 256 + col,
                    n == seen.len(),
                    seen.finite(),
                    seen =~= Set::new(
                        |p: Pos| self.cells_with(what).contains(p) && scanned(p, row as int, col as int),
                    ),
                decreases self.width - col,
            {
                let ghost here = Pos { row, col };
                assert(self.cell(here) == self.b@[row as int]@[col as int]);
                if what.test(&self.b[row as usize][col as usize]) {
                    proof {
                        seen = seen.insert(here);
                    }
                    n += 1;
                }
                col += 1;
            }
            row += 1;
        }
        assert(seen =~= self.cells_with(what));
        n
    }

    /// The number of cells that hold a mine.
    pub fn count_mines(&self) -> (n: usize)
        requires
            self.wf(),
        ensures
            n == self.mines().len(),
    {
        assert(self.mines() =~= self.cells_with(Census::Mines));
        self.count(Census::Mines)
    }

    /// The number of cells that are closed and hold no mine.
    pub fn count_closed(&self) -> (n: usize)
        requires
            self.wf(),
        ensures
            n == self.closed().len(),
    {
        assert(self.closed() =~= self.cells_with(Census::Closed));
        self.count(Census::Closed)
    }

    /// The number of cells that carry a flag.
    pub fn count_flagged(&self) -> (n: usize)
        requires
            self.wf(),
        ensures
            n == self.flags().len(),
    {
        assert(self.flags() =~= self.cells_with(Census::Flagged));
        self.count(Census::Flagged)
    }
}

/// What a count of the cells looks for.
#[derive(Debug, Clone, Copy, PartialEq, Eq, Structural)]
pub enum Census {
    /// Cells that hold a mine.
    Mines,
    /// Cells that are closed and hold no mine.
    Closed,
    /// Cells that carry a flag.
    Flagged,
}

impl Census {
    /// Whether a cell that holds `kind` is one that the count looks for.
    pub open spec fn counts(self, kind: CellKind) -> bool {
        match self {
            Census::Mines => kind is Mine,
            Census::Closed => kind is Closed,
            Census::Flagged => kind.flagged(),
        }
    }

    /// Whether a cell that holds `kind` is one that the count looks for.
    pub fn test(&self, kind: &CellKind) -> (r: bool)
        ensures
            r == self.counts(*kind),
    {
        match self {
            Census::Mines => kind.is_mine(),
            Census::Closed => kind.is_closed(),
            Census::Flagged => kind.is_flagged(),
        }
    }
}

/// Whether a scan that goes row by row has passed `p` when it stands at
/// (`row`, `col`).
spec fn scanned(p: Pos, row: int, col: int) -> bool {
    p.row < row || (p.row == row && p.col < col)
}

/// Every set of positions is finite.
pub proof fn lemma_positions_finite(s: Set<Pos>)
    ensures
        s.finite(),
{
    let all = Set::<u16>::full();
    let f = |k: u16| Pos { row: (k / 256) as u8, col: (k % 256) as u8 };
    broadcast use full_set_properties;
    assert(all.finite());
    all.lemma_map_finite(f);
    assert forall|p: Pos| s.contains(p) implies all.map(f).contains(p) by {
        let k = (p.row * 256 + p.col) as u16;
        assert(all.contains(k));
        assert(f(k) == p);
    }
    lemma_set_subset_finite(all.map(f), s);
}

impl Board {
    /// Whether `pos` lies in the first or the last row.
    pub open spec fn at_row_edge(&self, pos: Pos) -> bool {
        pos.row == 0 || pos.row == self.height - 1
    }

    /// Whether `pos` lies in the first or the last column.
    pub open spec fn at_col_edge(&self, pos: Pos) -> bool {
        pos.col == 0 || pos.col == self.width - 1
    }

    /// `spot` lists (`row`, `col`) if it is on the board, and nothing else.
    pub proof fn lemma_spot_contains(&self, row: int, col: int, q: Pos)
        ensures
            self.spot(row, col).contains(q) <==> 0 <= row < self.height && 0 <= col < self.width
                && q.row == row && q.col == col,
    {
        if 0 <= row < self.height && 0 <= col < self.width {
            let only = Pos { row: row as u8, col: col as u8 };
            assert(self.spot(row, col)[0] == only);
        }
    }

    /// The neighbours of `pos` are the positions on the board that are
    /// adjacent to it: one step away in a row, a column or a diagonal.
    pub proof fn lemma_neighbors_contains(&self, pos: Pos, q: Pos)
        ensures
            self.neighbors(pos).contains(q) <==> self.in_bounds(q) && pos.adjacent(q),
    {
        let r = pos.row as int;
        let c = pos.col as int;
        self.lemma_spot_contains(r - 1, c - 1, q);
        self.lemma_spot_contains(r - 1, c, q);
        self.lemma_spot_contains(r - 1, c + 1, q);
        self.lemma_spot_contains(r, c - 1, q);
        self.lemma_spot_contains(r, c + 1, q);
        self.lemma_spot_contains(r + 1, c - 1, q);
        self.lemma_spot_contains(r + 1, c, q);
        self.lemma_spot_contains(r + 1, c + 1, q);
        let s1 = self.spot(r - 1, c - 1);
        let s2 = s1 + self.spot(r - 1, c);
        let s3 = s2 + self.spot(r - 1, c + 1);
        let s4 = s3 + self.spot(r, c - 1);
        let s5 = s4 + self.spot(r, c + 1);
        let s6 = s5 + self.spot(r + 1, c - 1);
        let s7 = s6 + self.spot(r + 1, c);
        lemma_seq_concat_contains_all_elements(s1, self.spot(r - 1, c), q);
        lemma_seq_concat_contains_all_elements(s2, self.spot(r - 1, c + 1), q);
        lemma_seq_concat_contains_all_elements(s3, self.spot(r, c - 1), q);
        lemma_seq_concat_contains_all_elements(s4, self.spot(r, c + 1), q);
        lemma_seq_concat_contains_all_elements(s5, self.spot(r + 1, c - 1), q);
        lemma_seq_concat_contains_all_elements(s6, self.spot(r + 1, c), q);
        lemma_seq_concat_contains_all_elements(s7, self.spot(r + 1, c + 1), q);
    }

    /// No position is listed twice among the neighbours of `pos`, and `pos`
    /// itself is not listed.
    pub proof fn lemma_neighbors_distinct(&self, pos: Pos)
        ensures
            self.neighbors(pos).no_duplicates(),
            !self.neighbors(pos).contains(pos),
    {
        let r = pos.row as int;
        let c = pos.col as int;
        let s1 = self.spot(r - 1, c - 1);
        let s2 = s1 + self.spot(r - 1, c);
        let s3 = s2 + self.spot(r - 1, c + 1);
        let s4 = s3 + self.spot(r, c - 1);
        let s5 = s4 + self.spot(r, c + 1);
        let s6 = s5 + self.spot(r + 1, c - 1);
        let s7 = s6 + self.spot(r + 1, c);
        lemma_no_dup_in_concat(s1, self.spot(r - 1, c));
        lemma_no_dup_in_concat(s2, self.spot(r - 1, c + 1));
        lemma_no_dup_in_concat(s3, self.spot(r, c - 1));
        lemma_no_dup_in_concat(s4, self.spot(r, c + 1));
        lemma_no_dup_in_concat(s5, self.spot(r + 1, c - 1));
        lemma_no_dup_in_concat(s6, self.spot(r + 1, c));
        lemma_no_dup_in_concat(s7, self.spot(r + 1, c + 1));
        self.lemma_neighbors_contains(pos, pos);
    }

    /// A cell has at most eight neighbours. On a board with at least two
    /// rows and two columns, a corner has three, any other cell on an edge
    /// five, and a cell away from the edges eight.
    pub proof fn lemma_neighbors_len(&self, pos: Pos)
        ensures
            self.neighbors(pos).len() <= 8,
            self.in_bounds(pos) && self.height >= 2 && self.width >= 2 ==> self.neighbors(pos).len() == (
            if self.at_row_edge(pos) && self.at_col_edge(pos) {
                3nat
            } else if self.at_row_edge(pos) || self.at_col_edge(pos) {
                5nat
            } else {
                8nat
            }),
    {
    }
}

} // verus!
