//! The sizes a game can be played at: three presets and a custom one.

use vstd::prelude::*;
use crate::cell::CellKind;
use crate::game::Minesweeper;
use crate::pos::Pos;

verus! {

/// How hard a game is.
#[derive(Debug, Clone, Copy, PartialEq, Eq, Hash, Structural)]
pub enum Difficulty {
    Beginner,
    Intermediate,
    Expert,
    Custom,
}

impl Difficulty {
    /// The name of the difficulty.
    pub open spec fn name(self) -> Seq<char> {
        match self {
            Difficulty::Beginner => "Beginner"@,
            Difficulty::Intermediate => "Intermediate"@,
            Difficulty::Expert => "Expert"@,
            Difficulty::Custom => "Custom"@,
        }
    }

    /// The name of the difficulty.
    pub fn to_string(&self) -> (r: String)
        ensures
            r@ == self.name(),
    {
        match self {
            Difficulty::Beginner => "Beginner".to_owned(),
            Difficulty::Intermediate => "Intermediate".to_owned(),
            Difficulty::Expert => "Expert".to_owned(),
            Difficulty::Custom => "Custom".to_owned(),
        }
    }

    /// The number under which scores of the difficulty are kept: one to
    /// four, from `Beginner` to `Custom`.
    pub fn id(&self) -> (r: u8)
        ensures
            r == match self {
                Difficulty::Beginner => 1u8,
                Difficulty::Intermediate => 2u8,
                Difficulty::Expert => 3u8,
                Difficulty::Custom => 4u8,
            },
    {
        match self {
            Difficulty::Beginner => 1,
            Difficulty::Intermediate => 2,
            Difficulty::Expert => 3,
            Difficulty::Custom => 4,
        }
    }
}

/// The size of a game and the number of its mines.
#[derive(Debug, Clone, Copy)]
pub struct Setting {
    pub difficulty: Difficulty,
    pub width: u8,
    pub height: u8,
    pub mine_count: usize,
}

impl Setting {
    /// A game of this size can start: the mines leave a cell free for the
    /// first disclosure.
    pub open spec fn playable(self) -> bool {
        self.mine_count < self.height * self.width
    }

    /// Nine by nine cells with ten mines.
    pub fn beginner() -> (r: Self)
        ensures
            r == (Setting { difficulty: Difficulty::Beginner, width: 9, height: 9, mine_count: 10 }),
            r.playable(),
    {
        Setting { difficulty: Difficulty::Beginner, width: 9, height: 9, mine_count: 10 }
    }

    /// Sixteen by sixteen cells with forty mines.
    pub fn intermediate() -> (r: Self)
        ensures
            r == (Setting {
                difficulty: Difficulty::Intermediate,
                width: 16,
                height: 16,
                mine_count: 40,
            }),
            r.playable(),
    {
        Setting { difficulty: Difficulty::Intermediate, width: 16, height: 16, mine_count: 40 }
    }

    /// Thirty cells wide and sixteen high, with ninety-nine mines.
    pub fn expert() -> (r: Self)
        ensures
            r == (Setting { difficulty: Difficulty::Expert, width: 30, height: 16, mine_count: 99 }),
            r.playable(),
    {
        Setting { difficulty: Difficulty::Expert, width: 30, height: 16, mine_count: 99 }
    }

    /// The custom size as it stands before anyone changes it: that of a
    /// beginner's game.
    pub fn custom() -> (r: Self)
        ensures
            r == (Setting { difficulty: Difficulty::Custom, width: 9, height: 9, mine_count: 10 }),
            r.playable(),
    {
        Setting { difficulty: Difficulty::Custom, width: 9, height: 9, mine_count: 10 }
    }

    /// The presets, from the easiest to the hardest.
    pub fn settings() -> (r: Vec<Self>)
        ensures
            r@.len() == 3,
            r@[0] == (Setting { difficulty: Difficulty::Beginner, width: 9, height: 9, mine_count: 10 }),
            r@[1] == (Setting {
                difficulty: Difficulty::Intermediate,
                width: 16,
                height: 16,
                mine_count: 40,
            }),
            r@[2] == (Setting { difficulty: Difficulty::Expert, width: 30, height: 16, mine_count: 99 }),
    {
        let mut all: Vec<Self> = Vec::new();
        all.push(Self::beginner());
        all.push(Self::intermediate());
        all.push(Self::expert());
        all
    }

    /// The setting with `width` for its width.
    pub fn with_width(self, width: u8) -> (r: Self)
        ensures
            r == (Setting { width, ..self }),
    {
        Setting { width, ..self }
    }

    /// The setting with `height` for its height.
    pub fn with_height(self, height: u8) -> (r: Self)
        ensures
            r == (Setting { height, ..self }),
    {
        Setting { height, ..self }
    }

    /// The setting with `mine_count` mines if the board has more cells than
    /// that, and the setting as it is if not.
    pub fn with_mine_count(self, mine_count: usize) -> (r: Self)
        ensures
            r == (if mine_count < self.height * self.width {
                Setting { mine_count, ..self }
            } else {
                self
            }),
            mine_count < self.height * self.width ==> r.playable(),
    {
        assert(0 <= self.width * self.height <= 255 * 255 && self.width * self.height == self.height
            * self.width) by (nonlinear_arith)
            requires
                0 <= self.width <= 255,
                0 <= self.height <= 255,
        ;
        let cells: u32 = self.width as u32 * self.height as u32;
        if (mine_count as u64) < cells as u64 {
            Setting { mine_count, ..self }
        } else {
            self
        }
    }
}

impl Minesweeper {
    /// A game that has not started, of the size and with the number of
    /// mines that `setting` gives.
    pub fn from_setting(setting: Setting) -> (game: Self)
        ensures
            game.mine_count == setting.mine_count,
            game.state is Unstarted,
            game.board.wf(),
            game.board.height == setting.height,
            game.board.width == setting.width,
            forall|p: Pos|
                game.board.in_bounds(p) ==> #[trigger] game.board.cell(p) == (CellKind::Closed {
                    flagged: false,
                }),
            game.board.mines().is_empty(),
            setting.playable() ==> game.mine_count < game.board.free_count(None),
    {
        Minesweeper::new(setting.height, setting.width, setting.mine_count)
    }
}

} // verus!
