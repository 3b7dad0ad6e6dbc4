//! Board coordinates.

use vstd::prelude::*;
use crate::text::{decimal, push_decimal};

verus! {

/// A coordinate on the board: `row` counts from the top, `col` from the left.
#[derive(Debug, PartialEq, Eq, Hash, Clone, Copy, Structural)]
pub struct Pos {
    pub row: u8,
    pub col: u8,
}

impl Pos {
    /// Whether `self` and `other` are distinct and at most one step apart in
    /// each direction, diagonals included.
    pub open spec fn adjacent(self, other: Pos) -> bool {
        &&& self != other
        &&& -1 <= self.row - other.row <= 1
        &&& -1 <= self.col - other.col <= 1
    }

    /// A key for the position: the decimal row followed by the decimal column.
    pub fn key(&self) -> (r: String)
        ensures
            r@ == decimal(self.row as nat) + decimal(self.col as nat),
    {
        let mut out = String::new();
        push_decimal(&mut out, self.row);
        push_decimal(&mut out, self.col);
        out
    }
}

} // verus!
