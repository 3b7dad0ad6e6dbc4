//! A minesweeper engine: the board, the rules that change it, and a textual
//! rendering of a game, with the behaviour of each operation stated as a
//! contract and proved.

pub mod board;
pub mod cascade;
pub mod cell;
pub mod game;
pub mod input;
pub mod placement;
pub mod pos;
pub mod render;
pub mod settings;
pub mod text;

pub use board::Board;
pub use board::BoardError;
pub use cell::Cell;
pub use cell::CellKind;
pub use game::GameState;
pub use game::Minesweeper;
pub use game::MinesweeperError;
pub use input::MouseButtons;
pub use pos::Pos;
pub use settings::Difficulty;
pub use settings::Setting;
