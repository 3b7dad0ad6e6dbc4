//! The game: a board, a target number of mines, and the rules that place
//! the mines, flag and disclose cells, and decide when the game is won or
//! lost.

use vstd::prelude::*;
use crate::board::{put, Board};
use crate::cell::{Cell, CellKind};
use crate::pos::Pos;

verus! {

/// Where a game stands. `Win` and `Lose` are final.
#[derive(Debug, PartialEq, Eq, Clone, Copy, Structural)]
pub enum GameState {
    /// No mine has been placed yet.
    Unstarted,
    /// The mines are placed and the game goes on.
    Playing,
    /// Every cell without a mine is open.
    Win,
    /// A mine was disclosed.
    Lose,
}

impl GameState {
    /// Whether the game is over.
    pub open spec fn is_final(self) -> bool {
        self is Win || self is Lose
    }
}

/// What can go wrong in a game.
#[derive(Debug)]
pub enum MinesweeperError {
    /// Something is wrong with the game.
    GameError,
}

/// A game of minesweeper.
pub struct Minesweeper {
    /// The number of mines that the game places.
    pub mine_count: usize,
    /// The cells.
    pub board: Board,
    /// Where the game stands.
    pub state: GameState,
}

impl Minesweeper {
    /// Whether `after` is `self` with the flag of the cell at `pos` toggled:
    /// a game that is over, a position off the board and an open cell leave
    /// everything as it was.
    pub open spec fn flags_to(&self, pos: Pos, after: Minesweeper) -> bool {
        &&& after.mine_count == self.mine_count
        &&& after.state == self.state
        &&& after.board.height == self.board.height
        &&& after.board.width == self.board.width
        &&& after.board@ == (if !self.state.is_final() && self.board.holds(pos) {
            put(self.board@, pos, self.board.cell(pos).toggled())
        } else {
            self.board@
        })
    }

    /// Flagging a cell twice gives back the game as it was.
    pub proof fn lemma_flag_twice(&self, pos: Pos, once: Minesweeper, twice: Minesweeper)
        requires
            self.flags_to(pos, once),
            once.flags_to(pos, twice),
        ensures
            twice.board@ == self.board@,
            twice.board.height == self.board.height,
            twice.board.width == self.board.width,
            twice.state == self.state,
            twice.mine_count == self.mine_count,
    {
        if !self.state.is_final() && self.board.holds(pos) {
            let kind = self.board.cell(pos);
            let row = self.board@[pos.row as int];
            assert(kind.toggled().toggled() == kind);
            assert(once.board.holds(pos));
            assert(once.board.cell(pos) == kind.toggled());
            assert(once.board@[pos.row as int] == row.update(pos.col as int, kind.toggled()));
            assert(twice.board@[pos.row as int] =~= row);
            assert(twice.board@ =~= self.board@);
        }
    }

    /// Flagging an open cell changes nothing.
    pub proof fn lemma_flag_open(&self, pos: Pos, after: Minesweeper)
        requires
            self.flags_to(pos, after),
            self.board.holds(pos),
            self.board.cell(pos) is Open,
        ensures
            after.board@ == self.board@,
            after.state == self.state,
            after.mine_count == self.mine_count,
    {
        let row = self.board@[pos.row as int];
        assert(row.update(pos.col as int, self.board.cell(pos)) =~= row);
        assert(after.board@ =~= self.board@);
    }

    /// Flagging changes the flag of one cell and nothing else: a closed
    /// cell stays closed, a mine stays a mine, and every other cell is as it
    /// was.
    pub proof fn lemma_flag_one_cell(&self, pos: Pos, after: Minesweeper, p: Pos)
        requires
            self.flags_to(pos, after),
            self.board.holds(p),
        ensures
            after.board.holds(p),
            p != pos ==> after.board.cell(p) == self.board.cell(p),
            after.board.cell(p) is Closed <==> self.board.cell(p) is Closed,
            after.board.cell(p) is Mine <==> self.board.cell(p) is Mine,
            after.board.cell(p) is Open ==> after.board.cell(p) == self.board.cell(p),
    {
    }

    /// A game that has not started, on a board of `height` by `width`
    /// closed cells, that will place `mine_count` mines.
    pub fn new(height: u8, width: u8, mine_count: usize) -> (game: Self)
        ensures
            game.mine_count == mine_count,
            game.state is Unstarted,
            game.board.wf(),
            game.board.height == height,
            game.board.width == width,
            forall|p: Pos|
                game.board.in_bounds(p) ==> #[trigger] game.board.cell(p) == (CellKind::Closed {
                    flagged: false,
                }),
            game.board.mines().is_empty(),
    {
        Minesweeper { mine_count, board: Board::new(height, width), state: GameState::Unstarted }
    }

    /// A game in progress on the board that `matrix` describes: a mine
    /// wherever it is not zero. The number of mines is the number of those
    /// places.
    pub fn from_matrix(matrix: Vec<Vec<i32>>) -> (game: Self)
        requires
            Board::describes_board(matrix@),
        ensures
            game.state is Playing,
            game.board.wf(),
            game.board.height == matrix@.len(),
            game.board.width == (if matrix@.len() > 0 {
                matrix@[0]@.len()
            } else {
                0
            }),
            forall|p: Pos|
                game.board.in_bounds(p) ==> #[trigger] game.board.cell(p) == (if matrix@[p.row as int]@[p.col as int]
                    == 0 {
                    CellKind::Closed { flagged: false }
                } else {
                    CellKind::Mine { flagged: false }
                }),
            game.mine_count == game.board.mines().len(),
    {
        let board = Board::from_matrix(matrix);
        let mine_count = board.count_mines();
        Self { mine_count, board, state: GameState::Playing }
    }

    /// Sets the flag of the cell at `pos` if it has none and clears it if it
    /// has one. Nothing happens once the game is over, off the board, or to
    /// an open cell.
    pub fn flag_cell(&mut self, pos: Pos)
        ensures
            old(self).flags_to(pos, *final(self)),
            old(self).state.is_final() ==> *final(self) == *old(self),
            forall|p: Pos|
                old(self).board.holds(p) ==> final(self).board.holds(p)
                    && #[trigger] final(self).board.cell(p) == (if p == pos && !old(self).state.is_final() {
                    old(self).board.cell(p).toggled()
                } else {
                    old(self).board.cell(p)
                }),
            old(self).board.wf() ==> final(self).board.wf(),
            old(self).board.wf() ==> final(self).board.mines() == old(self).board.mines(),
    {
        if self.state == GameState::Win || self.state == GameState::Lose {
            return;
        }
        let kind = match self.board.get(pos) {
            Some(kind) => *kind,
            None => {
                return;
            },
        };
        match kind {
            CellKind::Closed { flagged } => {
                let _ = self.board.set(pos, CellKind::Closed { flagged: !flagged });
            },
            CellKind::Mine { flagged } => {
                let _ = self.board.set(pos, CellKind::Mine { flagged: !flagged });
            },
            _ => {
                let ghost row = self.board@[pos.row as int];
                assert(row.update(pos.col as int, kind) =~= row);
                assert(self.board@ =~= put(self.board@, pos, kind));
            },
        }
        assert(old(self).board.wf() ==> self.board.mines() =~= old(self).board.mines()) by {
            assert forall|p: Pos| old(self).board.wf() implies (self.board.mines().contains(p)
                <==> old(self).board.mines().contains(p)) by {
                if old(self).board.in_bounds(p) {
                    assert(self.board.cell(p) == (if p == pos {
                        old(self).board.cell(p).toggled()
                    } else {
                        old(self).board.cell(p)
                    }));
                }
            }
        }
    }

    /// Declares the game won if no closed cell without a mine is left.
    fn check_win_condition(&mut self)
        requires
            old(self).board.wf(),
        ensures
            final(self).board == old(self).board,
            final(self).mine_count == old(self).mine_count,
            final(self).state == (if old(self).board.closed().len() == 0 {
                GameState::Win
            } else {
                old(self).state
            }),
    {
        if self.board.count_closed() == 0 {
            self.state = GameState::Win;
        }
    }

    /// The number of mines that no flag accounts for yet, or nothing if
    /// there are more flags on the board than the game has mines.
    pub fn flags_remaining(&self) -> (r: Option<usize>)
        requires
            self.board.wf(),
        ensures
            r == (if self.board.flags().len() <= self.mine_count {
                Some((self.mine_count - self.board.flags().len()) as usize)
            } else {
                None
            }),
    {
        self.mine_count.checked_sub(self.board.count_flagged())
    }

    /// The snapshot of the cell at `pos`. A position off the board is shown
    /// as a closed cell.
    pub fn get(&self, pos: Pos) -> (cell: Cell)
        ensures
            cell.pos == pos,
            cell.kind == (if self.board.holds(pos) {
                self.board.cell(pos)
            } else {
                CellKind::Closed { flagged: false }
            }),
            cell.icon@ == cell.kind.icon(self.state),
            cell.class@ == cell.kind.class(self.state),
    {
        let kind = match self.board.get(pos) {
            Some(kind) => *kind,
            None => CellKind::Closed { flagged: false },
        };
        Cell::new(pos, kind, self.state)
    }

    /// The snapshots of all cells, row by row and from left to right within
    /// a row.
    pub fn iter_board(&self) -> (cells: Vec<Cell>)
        requires
            self.board.wf(),
        ensures
            cells@.len() == self.board.positions().len(),
            forall|i: int|
                0 <= i < cells@.len() ==> {
                    let cell = #[trigger] cells@[i];
                    &&& cell.pos == self.board.positions()[i]
                    &&& cell.kind == self.board.cell(cell.pos)
                    &&& cell.icon@ == cell.kind.icon(self.state)
                    &&& cell.class@ == cell.kind.class(self.state)
                },
    {
        let all = self.board.iter_pos();
        let mut cells: Vec<Cell> = Vec::new();
        let mut i: usize = 0;
        proof {
            self.board.lemma_positions();
        }
        while i < all.len()
            invariant
                self.board.wf(),
                all@ == self.board.positions(),
                forall|k: int| 0 <= k < all@.len() ==> self.board.in_bounds(#[trigger] all@[k]),
                i <= all@.len(),
                cells@.len() == i,
                forall|k: int|
                    0 <= k < i ==> {
                        let cell = #[trigger] cells@[k];
                        &&& cell.pos == all@[k]
                        &&& cell.kind == self.board.cell(cell.pos)
                        &&& cell.icon@ == cell.kind.icon(self.state)
                        &&& cell.class@ == cell.kind.class(self.state)
                    },
            decreases all@.len() - i,
        {
            let pos = all[i];
            match self.board.get(pos) {
                Some(kind) => {
                    cells.push(Cell::new(pos, *kind, self.state));
                },
                None => {},
            }
            i += 1;
        }
        cells
    }
}

impl Minesweeper {
    /// The state of a game in progress after a disclosure that left
    /// `board`: won if no closed cell without a mine is left, whatever the
    /// mines still hidden.
    pub open spec fn settled(board: Board) -> GameState {
        if board.closed().len() == 0 {
            GameState::Win
        } else {
            GameState::Playing
        }
    }

    /// Whether `after` is what disclosing `pos` makes of a game in progress
    /// on `before`: a mine without a flag loses the game; a cell that can be
    /// disclosed is opened, with all that its cascade reaches, and the game
    /// is won if that leaves no closed cell; anything else, flagged or open
    /// or off the board, changes nothing.
    pub open spec fn opens_to(before: Board, pos: Pos, after: Minesweeper) -> bool {
        &&& after.board.height == before.height
        &&& after.board.width == before.width
        &&& if before.in_bounds(pos) && before.cell(pos) == (CellKind::Mine { flagged: false }) {
            after.board@ == before@ && after.state is Lose
        } else if before.fresh(pos) {
            after.board@ == before.disclosed(seq![pos]) && after.state == Self::settled(after.board)
        } else {
            after.board@ == before@ && after.state is Playing
        }
    }

    /// Whether a chord at `pos` discloses anything: the game is in progress,
    /// the cell at `pos` is open, and a cell around it can be disclosed.
    pub open spec fn chords(&self, pos: Pos) -> bool {
        &&& self.state is Playing
        &&& self.board.in_bounds(pos)
        &&& self.board.cell(pos) is Open
        &&& exists|i: int|
            0 <= i < self.board.neighbors(pos).len() && self.board.fresh(
                #[trigger] self.board.neighbors(pos)[i],
            )
    }

    /// Discloses the cell at `pos`, which can be disclosed, with all that
    /// its cascade reaches, and declares the game won if that leaves no
    /// closed cell.
    fn check_neighbor(&mut self, pos: Pos)
        requires
            old(self).board.wf(),
            old(self).board.fresh(pos),
        ensures
            final(self).mine_count == old(self).mine_count,
            final(self).board.wf(),
            final(self).board.height == old(self).board.height,
            final(self).board.width == old(self).board.width,
            final(self).board@ == old(self).board.disclosed(seq![pos]),
            final(self).state == (if final(self).board.closed().len() == 0 {
                GameState::Win
            } else {
                old(self).state
            }),
    {
        let mut seeds: Vec<Pos> = Vec::new();
        seeds.push(pos);
        assert(seeds@ =~= seq![pos]);
        self.board.disclose(seeds);
        self.check_win_condition();
    }

    /// Discloses the cell at `pos`. In a game that has not started, the
    /// mines are placed first, away from `pos`, and the game starts. Then a
    /// mine without a flag loses the game. A closed cell without a flag is
    /// opened and shows the number of mines around it; if there is none, the
    /// cells around it are disclosed in turn, and the game is won if that
    /// leaves no closed cell without a mine. A flagged cell, an open cell
    /// and a position off the board are left alone, and once the game is
    /// over nothing happens at all.
    pub fn open_cell(&mut self, pos: Pos)
        requires
            old(self).board.wf(),
            old(self).state is Unstarted ==> old(self).mine_count <= old(self).board.free_count(
                Some(pos),
            ),
        ensures
            final(self).mine_count == old(self).mine_count,
            final(self).board.wf(),
            old(self).state.is_final() ==> *final(self) == *old(self),
            old(self).state is Playing ==> Self::opens_to(old(self).board, pos, *final(self)),
            old(self).state is Unstarted ==> exists|chosen: Set<Pos>, mined: Board|
                old(self).board.may_plant(Some(pos), old(self).mine_count as nat, chosen)
                    && #[trigger] old(self).board.planted(chosen, mined) && Self::opens_to(
                    mined,
                    pos,
                    *final(self),
                ),
            !old(self).state.is_final() && old(self).board.fresh(pos) ==> final(self).board.cell(pos)
                == (CellKind::Open { neighbor_mines: final(self).board.mine_neighbors(pos) as u8 }),
            !old(self).state.is_final() ==> (final(self).state is Win <==> old(self).board.fresh(pos)
                && final(self).board.closed().len() == 0),
            !old(self).state.is_final() ==> (final(self).state is Lose <==> old(self).board.in_bounds(pos)
                && old(self).board.cell(pos) == (CellKind::Mine { flagged: false })),
            old(self).state is Playing ==> final(self).board.mines() == old(self).board.mines(),
            old(self).state is Unstarted && old(self).board.mines().is_empty()
                ==> final(self).board.mines().len() == old(self).mine_count,
    {
        match self.state {
            GameState::Unstarted => self.create_mines(Some(pos)),
            GameState::Playing => {},
            _ => {
                return;
            },
        }
        let ghost mined = self.board;
        let kind = match self.board.get(pos) {
            Some(kind) => *kind,
            None => {
                return;
            },
        };
        if kind.is_flagged() {
            return;
        }
        match kind {
            CellKind::Mine { .. } => {
                self.state = GameState::Lose;
            },
            CellKind::Closed { .. } => {
                self.check_neighbor(pos);
                proof {
                    mined.lemma_disclosed_seed(seq![pos], 0);
                    mined.lemma_disclosed_mines(seq![pos], self.board);
                    self.board.lemma_mine_neighbors_frame(mined, pos);
                }
            },
            _ => {},
        }
    }

    /// A chord: discloses every cell around the open cell at `pos` that can
    /// be disclosed, each with all that its cascade reaches, and declares
    /// the game won if that leaves no closed cell. Nothing happens unless
    /// the game is in progress, the cell at `pos` is open, and a cell around
    /// it can be disclosed.
    pub fn chorded_open(&mut self, pos: Pos)
        requires
            old(self).board.wf(),
        ensures
            final(self).mine_count == old(self).mine_count,
            final(self).board.wf(),
            final(self).board.height == old(self).board.height,
            final(self).board.width == old(self).board.width,
            old(self).state.is_final() ==> *final(self) == *old(self),
            old(self).chords(pos) ==> final(self).board@ == old(self).board.disclosed(
                old(self).board.neighbors(pos),
            ) && final(self).state == Self::settled(final(self).board),
            final(self).board.mines() == old(self).board.mines(),
            !old(self).chords(pos) ==> *final(self) == *old(self),
    {
        if self.state != GameState::Playing {
            return;
        }
        match self.board.get(pos) {
            Some(CellKind::Open { .. }) => {},
            _ => {
                return;
            },
        }
        let around = self.board.iter_neighbors(pos);
        let mut found = false;
        let mut i: usize = 0;
        while i < around.len()
            invariant
                self.board.wf(),
                around@ == self.board.neighbors(pos),
                i <= around@.len(),
                found <==> exists|k: int| 0 <= k < i && self.board.fresh(#[trigger] around@[k]),
            decreases around@.len() - i,
        {
            let fresh = match self.board.get(around[i]) {
                Some(CellKind::Closed { flagged }) => !*flagged,
                _ => false,
            };
            if fresh {
                found = true;
            }
            i += 1;
        }
        if found {
            let ghost before = self.board;
            self.board.disclose(around);
            self.check_win_condition();
            proof {
                before.lemma_disclosed_mines(before.neighbors(pos), self.board);
            }
        }
    }
}

} // verus!
