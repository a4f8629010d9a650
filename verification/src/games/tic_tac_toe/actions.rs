use vstd::prelude::*;

use crate::traits::SearchMove;

verus! {

/// A cell of the three-by-three board.
#[derive(Clone, Copy, PartialEq, Eq, Structural, Debug)]
pub struct Position {
    pub x: usize,
    pub y: usize,
}

/// Placing the mark of one side on a cell.
#[derive(Clone, Copy, PartialEq, Eq, Structural, Debug)]
pub struct Move {
    pub pos: Position,
    pub color: bool,
}

impl Default for Move {
    fn default() -> (r: Self)
        ensures
            r == (Move { pos: Position { x: 0, y: 0 }, color: true }),
    {
        Move { pos: Position { x: 0, y: 0 }, color: true }
    }
}

impl SearchMove for Move {
    open spec fn spec_sentinel() -> Self {
        Move { pos: Position { x: 0, y: 0 }, color: true }
    }

    fn eq_move(&self, other: &Self) -> (r: bool) {
        *self == *other
    }

    fn sentinel() -> (r: Self) {
        Move { pos: Position { x: 0, y: 0 }, color: true }
    }
}

} // verus!
