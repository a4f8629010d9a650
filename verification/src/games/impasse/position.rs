use vstd::prelude::*;

verus! {

/// One cell delta of a move: the cell and its sign before and after. A sign
/// of `3` marks an unused slot.
#[derive(PartialEq, Eq, Clone, Copy, Structural, Debug)]
pub struct Position {
    pub x: usize,
    pub y: usize,
    pub old_sign: i64,
    pub new_sign: i64,
}

impl Default for Position {
    fn default() -> (r: Self)
        ensures
            r == (Position { x: 0, y: 0, old_sign: 3, new_sign: 3 }),
    {
        Position { x: 0, y: 0, old_sign: 3, new_sign: 3 }
    }
}

impl Position {
    /// Whether this slot carries a cell delta.
    pub open spec fn is_active(self) -> bool {
        self.old_sign != 3 && self.new_sign != 3
    }
}

/// The file letter of a board column.
pub fn to_alphabet(y: usize) -> (r: char)
    requires
        y < 26,
    ensures
        r as int == y + 65,
{
    (y + 65) as u8 as char
}

} // verus!
