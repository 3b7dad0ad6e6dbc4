//! What a player does with the mouse, and the face that the game shows.

use vstd::prelude::*;
use crate::game::GameState;

verus! {

/// The mouse buttons that are held down.
#[derive(Debug, PartialEq, Eq, Copy, Clone, Structural)]
pub enum MouseButtons {
    /// No button is held down.
    Idle,
    LClick,
    RClick,
    LRClick,
    Others(u16),
}

impl MouseButtons {
    /// The buttons that the bit mask `buttons` of a mouse event stands
    /// for: bit zero is the left button and bit one the right.
    pub fn from_buttons(buttons: u16) -> (r: Self)
        ensures
            r == (if buttons == 0 {
                MouseButtons::Idle
            } else if buttons == 1 {
                MouseButtons::LClick
            } else if buttons == 2 {
                MouseButtons::RClick
            } else if buttons == 3 {
                MouseButtons::LRClick
            } else {
                MouseButtons::Others(buttons)
            }),
    {
        match buttons {
            0 => Self::Idle,
            1 => Self::LClick,
            2 => Self::RClick,
            3 => Self::LRClick,
            x => Self::Others(x),
        }
    }
}

impl GameState {
    /// The face for the state.
    pub open spec fn emoji(self) -> Seq<char> {
        match self {
            GameState::Unstarted | GameState::Playing => "😇"@,
            GameState::Win => "😎"@,
            GameState::Lose => "💀"@,
        }
    }

    /// The face that the game shows in this state.
    pub fn as_emoji(&self) -> (r: &'static str)
        ensures
            r@ == self.emoji(),
    {
        match self {
            GameState::Unstarted | GameState::Playing => "😇",
            GameState::Win => "😎",
            GameState::Lose => "💀",
        }
    }
}

} // verus!
