//! Text: the rendering of a game, one character per cell, and the messages
//! of the errors.

use vstd::prelude::*;
use vstd::string::StringExecFns;
use crate::board::BoardError;
use crate::cell::CellKind;
use crate::game::{GameState, Minesweeper, MinesweeperError};
use crate::pos::Pos;
use crate::text::{decimal, push_decimal};

verus! {

impl Pos {
    /// The position written out with its fields.
    pub open spec fn describe(self) -> Seq<char> {
        "Pos { row: "@ + decimal(self.row as nat) + ", col: "@ + decimal(self.col as nat) + " }"@
    }

    /// Appends the position, written out with its fields, to `out`.
    pub fn write_to(&self, out: &mut String)
        ensures
            final(out)@ == old(out)@ + self.describe(),
    {
        out.append("Pos { row: ");
        push_decimal(out, self.row);
        out.append(", col: ");
        push_decimal(out, self.col);
        out.append(" }");
        assert(out@ =~= old(out)@ + self.describe());
    }
}

/// `true` or `false`, written out.
pub open spec fn bool_text(b: bool) -> Seq<char> {
    if b {
        "true"@
    } else {
        "false"@
    }
}

impl CellKind {
    /// The cell written out with its variant and field.
    pub open spec fn describe(self) -> Seq<char> {
        match self {
            CellKind::Open { neighbor_mines } => "Open { neighbor_mines: "@ + decimal(
                neighbor_mines as nat,
            ) + " }"@,
            CellKind::Closed { flagged } => "Closed { flagged: "@ + bool_text(flagged) + " }"@,
            CellKind::Mine { flagged } => "Mine { flagged: "@ + bool_text(flagged) + " }"@,
        }
    }

    /// Appends the cell, written out with its variant and field, to `out`.
    pub fn write_to(&self, out: &mut String)
        ensures
            final(out)@ == old(out)@ + self.describe(),
    {
        match self {
            CellKind::Open { neighbor_mines } => {
                out.append("Open { neighbor_mines: ");
                push_decimal(out, *neighbor_mines);
            },
            CellKind::Closed { flagged } => {
                out.append("Closed { flagged: ");
                if *flagged {
                    out.append("true");
                } else {
                    out.append("false");
                }
            },
            CellKind::Mine { flagged } => {
                out.append("Mine { flagged: ");
                if *flagged {
                    out.append("true");
                } else {
                    out.append("false");
                }
            },
        }
        out.append(" }");
        assert(out@ =~= old(out)@ + self.describe());
    }
}

impl BoardError {
    /// What the error says.
    pub open spec fn message(self) -> Seq<char> {
        match self {
            BoardError::SetCellError { pos, kind } => "failed to set "@ + kind.describe() + " at "@
                + pos.describe(),
        }
    }

    /// The error as text: the cell that was to be stored and the position
    /// that is not on the board.
    pub fn to_string(&self) -> (r: String)
        ensures
            r@ == self.message(),
    {
        match self {
            BoardError::SetCellError { pos, kind } => {
                let mut out = String::new();
                out.append("failed to set ");
                kind.write_to(&mut out);
                out.append(" at ");
                pos.write_to(&mut out);
                assert(out@ =~= self.message());
                out
            },
        }
    }
}

impl MinesweeperError {
    /// What the error says.
    pub open spec fn message(self) -> Seq<char> {
        match self {
            MinesweeperError::GameError => "Something's fucky"@,
        }
    }

    /// The error as text.
    pub fn to_string(&self) -> (r: String)
        ensures
            r@ == self.message(),
    {
        match self {
            MinesweeperError::GameError => "Something's fucky".to_owned(),
        }
    }
}

impl Minesweeper {
    /// The function that gives each cell its character in state `state`.
    pub open spec fn glyph_of(state: GameState) -> spec_fn(CellKind) -> char {
        |kind: CellKind| kind.glyph(state)
    }

    /// The function that gives each row its line of text in state `state`:
    /// one character per cell and a line feed.
    pub open spec fn line_of(state: GameState) -> spec_fn(Seq<CellKind>) -> Seq<char> {
        |row: Seq<CellKind>| row.map_values(Self::glyph_of(state)).push('\n')
    }

    /// The game as text: the rows from top to bottom, each one character per
    /// cell from left to right and a line feed.
    pub open spec fn text(&self) -> Seq<char> {
        self.board@.map_values(Self::line_of(self.state)).flatten()
    }

    /// Whether the game can be rendered as text: every open cell counts at
    /// most eight mines, and a game that is won shows no mine without a
    /// flag.
    pub open spec fn printable(&self) -> bool {
        forall|i: int, j: int|
            0 <= i < self.board@.len() && 0 <= j < self.board@[i].len() ==> (
            #[trigger] self.board@[i][j]).printable(self.state)
    }

    /// Whether the game can be rendered as text.
    pub fn is_printable(&self) -> (r: bool)
        ensures
            r == self.printable(),
    {
        let mut i: usize = 0;
        while i < self.board.b.len()
            invariant
                i <= self.board@.len(),
                self.board@.len() == self.board.b@.len(),
                forall|k: int, j: int|
                    0 <= k < i && 0 <= j < self.board@[k].len() ==> (
                    #[trigger] self.board@[k][j]).printable(self.state),
            decreases self.board@.len() - i,
        {
            let row = &self.board.b[i];
            assert(row@ == self.board@[i as int]);
            let mut j: usize = 0;
            while j < row.len()
                invariant
                    i < self.board@.len(),
                    row@ == self.board@[i as int],
                    j <= row@.len(),
                    forall|k: int| 0 <= k < j ==> (#[trigger] row@[k]).printable(self.state),
                decreases row@.len() - j,
            {
                if !row[j].is_printable(self.state) {
                    assert(!self.board@[i as int][j as int].printable(self.state));
                    return false;
                }
                j += 1;
            }
            i += 1;
        }
        true
    }

    /// The game as text.
    pub fn to_string(&self) -> (r: String)
        requires
            self.printable(),
        ensures
            r@ == self.text(),
    {
        let mut out = String::new();
        let mut i: usize = 0;
        assert(self.board@.take(0).map_values(Self::line_of(self.state)) =~= Seq::empty());
        while i < self.board.b.len()
            invariant
                self.printable(),
                i <= self.board@.len(),
                self.board@.len() == self.board.b@.len(),
                out@ == self.board@.take(i as int).map_values(Self::line_of(self.state)).flatten(),
            decreases self.board@.len() - i,
        {
            let row = &self.board.b[i];
            let ghost head = out@;
            let mut j: usize = 0;
            assert(row@ == self.board@[i as int]);
            assert(row@.take(0).map_values(Self::glyph_of(self.state)) =~= Seq::empty());
            while j < row.len()
                invariant
                    self.printable(),
                    i < self.board@.len(),
                    row@ == self.board@[i as int],
                    j <= row@.len(),
                    out@ == head + row@.take(j as int).map_values(Self::glyph_of(self.state)),
                decreases row@.len() - j,
            {
                let kind = row[j];
                proof {
                    assert(self.board@[i as int][j as int] == kind);
                    row@.lemma_map_take_succ(Self::glyph_of(self.state), j as int);
                }
                out.push(kind.as_char(self.state));
                j += 1;
            }
            out.push('\n');
            proof {
                row@.lemma_take_len();
                let lines = self.board@.take(i as int).map_values(Self::line_of(self.state));
                let line = (Self::line_of(self.state))(row@);
                self.board@.lemma_map_take_succ(Self::line_of(self.state), i as int);
                lines.lemma_flatten_push(line);
                assert(out@ =~= head + line);
            }
            i += 1;
        }
        proof {
            self.board@.lemma_take_len();
        }
        out
    }
}

} // verus!
