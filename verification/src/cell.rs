//! The state of one cell, and the snapshot of a cell that a renderer consumes.

use vstd::prelude::*;
use crate::game::GameState;
use crate::pos::Pos;
use crate::text::{digit, digit_char};

verus! {

/// What a cell holds. A cell starts `Closed`, may be given a mine, and once
/// it is `Open` it stays so.
#[derive(Debug, PartialEq, Eq, Clone, Copy, Structural)]
pub enum CellKind {
    /// A disclosed cell with the number of mines around it.
    Open { neighbor_mines: u8 },
    /// An undisclosed cell without a mine.
    Closed { flagged: bool },
    /// An undisclosed cell with a mine.
    Mine { flagged: bool },
}

impl CellKind {
    /// A cell has at most eight neighbours, so an open cell counts at most
    /// eight mines.
    pub open spec fn wf(self) -> bool {
        self matches CellKind::Open { neighbor_mines } ==> neighbor_mines <= 8
    }

    /// Whether the cell carries a flag. An open cell never does.
    pub open spec fn flagged(self) -> bool {
        match self {
            CellKind::Open { .. } => false,
            CellKind::Closed { flagged } => flagged,
            CellKind::Mine { flagged } => flagged,
        }
    }

    /// The cell with its flag set if it was clear and cleared if it was set.
    /// An open cell has no flag and stays as it is.
    pub open spec fn toggled(self) -> CellKind {
        match self {
            CellKind::Open { neighbor_mines } => CellKind::Open { neighbor_mines },
            CellKind::Closed { flagged } => CellKind::Closed { flagged: !flagged },
            CellKind::Mine { flagged } => CellKind::Mine { flagged: !flagged },
        }
    }

    /// The character that stands for the cell in the textual rendering of a
    /// game in state `state`: `!` for a flag, in every state and with or
    /// without a mine under it, and for a mine of a lost game; the count for
    /// an open cell; `x` for everything still hidden.
    pub open spec fn glyph(self, state: GameState) -> char {
        if self.flagged() {
            '!'
        } else {
            match self {
                CellKind::Open { neighbor_mines } => digit_char(neighbor_mines as int),
                CellKind::Closed { .. } => 'x',
                CellKind::Mine { .. } => if state is Lose {
                    '!'
                } else {
                    'x'
                },
            }
        }
    }

    /// Whether the textual rendering is defined for the cell in state
    /// `state`: the count of an open cell is a single digit, and a won game
    /// shows no mine without a flag.
    pub open spec fn printable(self, state: GameState) -> bool {
        &&& self.wf()
        &&& !(self == CellKind::Mine { flagged: false } && state is Win)
    }

    /// The icon a renderer shows for the cell in state `state`. A flagged
    /// cell shows its flag in every state, with or without a mine under it;
    /// the mines of a lost game show as mines and those of a won game as
    /// flags.
    pub open spec fn icon(self, state: GameState) -> Seq<char> {
        if self.flagged() {
            "🚩"@
        } else {
            match self {
                CellKind::Closed { .. } => ""@,
                CellKind::Mine { .. } => match state {
                    GameState::Lose => "💣"@,
                    GameState::Win => "🚩"@,
                    GameState::Playing | GameState::Unstarted => ""@,
                },
                CellKind::Open { neighbor_mines } => if 1 <= neighbor_mines <= 8 {
                    seq![digit_char(neighbor_mines as int)]
                } else {
                    ""@
                },
            }
        }
    }

    /// The style class a renderer gives the cell in state `state`.
    pub open spec fn class(self, state: GameState) -> Seq<char> {
        if self.flagged() {
            "flagged"@
        } else {
            match self {
                CellKind::Closed { .. } => "closed"@,
                CellKind::Mine { .. } => match state {
                    GameState::Lose => "mine"@,
                    GameState::Win => "flagged"@,
                    GameState::Playing | GameState::Unstarted => "closed"@,
                },
                CellKind::Open { neighbor_mines } => if 1 <= neighbor_mines <= 8 {
                    "open open-"@.push(digit_char(neighbor_mines as int))
                } else {
                    "open"@
                },
            }
        }
    }

    /// A closed cell without a flag.
    pub fn new_closed() -> (kind: Self)
        ensures
            kind == (CellKind::Closed { flagged: false }),
    {
        CellKind::Closed { flagged: false }
    }

    /// A mine without a flag.
    pub fn new_mine() -> (kind: Self)
        ensures
            kind == (CellKind::Mine { flagged: false }),
    {
        CellKind::Mine { flagged: false }
    }

    /// An open cell that counts `count` mines around it.
    pub fn new_open(count: u8) -> (kind: Self)
        ensures
            kind == (CellKind::Open { neighbor_mines: count }),
    {
        CellKind::Open { neighbor_mines: count }
    }

    pub fn is_flagged(&self) -> (r: bool)
        ensures
            r == self.flagged(),
    {
        match self {
            CellKind::Open { .. } => false,
            CellKind::Closed { flagged } => *flagged,
            CellKind::Mine { flagged } => *flagged,
        }
    }

    pub fn is_mine(&self) -> (r: bool)
        ensures
            r == (self is Mine),
    {
        matches!(self, Self::Mine { .. })
    }

    pub fn is_open(&self) -> (r: bool)
        ensures
            r == (self is Open),
    {
        matches!(self, Self::Open { .. })
    }

    pub fn is_closed(&self) -> (r: bool)
        ensures
            r == (self is Closed),
    {
        matches!(self, Self::Closed { .. })
    }

    /// Whether the textual rendering is defined for the cell in state
    /// `state`.
    pub fn is_printable(&self, state: GameState) -> (r: bool)
        ensures
            r == self.printable(state),
    {
        match self {
            CellKind::Open { neighbor_mines } => *neighbor_mines <= 8,
            CellKind::Closed { .. } => true,
            CellKind::Mine { flagged } => *flagged || state != GameState::Win,
        }
    }

    /// The character for the cell in the textual rendering.
    pub fn as_char(&self, state: GameState) -> (c: char)
        requires
            self.printable(state),
        ensures
            c == self.glyph(state),
    {
        if self.is_flagged() {
            return '!';
        }
        match self {
            CellKind::Open { neighbor_mines } => digit(*neighbor_mines),
            CellKind::Closed { .. } => 'x',
            CellKind::Mine { .. } => match state {
                GameState::Lose => '!',
                _ => 'x',
            },
        }
    }

    /// The icon and the style class for the cell.
    pub fn as_icon_and_hl(&self, state: GameState) -> (r: (&'static str, &'static str))
        ensures
            r.0@ == self.icon(state),
            r.1@ == self.class(state),
    {
        if self.is_flagged() {
            return ("🚩", "flagged");
        }
        proof {
            reveal_strlit("1");
            reveal_strlit("2");
            reveal_strlit("3");
            reveal_strlit("4");
            reveal_strlit("5");
            reveal_strlit("6");
            reveal_strlit("7");
            reveal_strlit("8");
            reveal_strlit("open open-");
            reveal_strlit("open open-1");
            reveal_strlit("open open-2");
            reveal_strlit("open open-3");
            reveal_strlit("open open-4");
            reveal_strlit("open open-5");
            reveal_strlit("open open-6");
            reveal_strlit("open open-7");
            reveal_strlit("open open-8");
        }
        match self {
            CellKind::Closed { .. } => ("", "closed"),
            CellKind::Mine { .. } => match state {
                GameState::Lose => ("💣", "mine"),
                GameState::Win => ("🚩", "flagged"),
                GameState::Playing | GameState::Unstarted => ("", "closed"),
            },
            CellKind::Open { neighbor_mines: count, .. } => {
                let r = match count {
                    1 => ("1", "open open-1"),
                    2 => ("2", "open open-2"),
                    3 => ("3", "open open-3"),
                    4 => ("4", "open open-4"),
                    5 => ("5", "open open-5"),
                    6 => ("6", "open open-6"),
                    7 => ("7", "open open-7"),
                    8 => ("8", "open open-8"),
                    _ => ("", "open"),
                };
                assert(r.0@ =~= self.icon(state));
                assert(r.1@ =~= self.class(state));
                r
            },
        }
    }
}

/// A snapshot of one cell for a renderer: where it is, what it holds, and the
/// icon and style class to show for it.
#[derive(Debug)]
pub struct Cell {
    pub pos: Pos,
    pub kind: CellKind,
    pub icon: String,
    pub class: String,
}

impl Cell {
    /// The snapshot of a cell at `pos` that holds `kind`, in a game in state
    /// `state`.
    pub fn new(pos: Pos, kind: CellKind, state: GameState) -> (cell: Self)
        ensures
            cell.pos == pos,
            cell.kind == kind,
            cell.icon@ == kind.icon(state),
            cell.class@ == kind.class(state),
    {
        let (icon, class) = kind.as_icon_and_hl(state);
        Self { pos, kind, icon: icon.to_owned(), class: class.to_owned() }
    }
}

} // verus!
