use vstd::prelude::*;

verus! {

/// Side length of the square board.
pub const BOARD_SIZE: u8 = 16;

/// A board coordinate. Valid coordinates lie in `[0, BOARD_SIZE)` on both
/// axes; the struct itself can hold any pair of bytes, and every operation
/// that needs validity checks it.
#[derive(Debug, Clone, Copy, PartialEq, Eq, Structural)]
pub struct Position {
    pub x: u8,
    pub y: u8,
}

/// Failure of reading a coordinate pair out of text.
#[derive(Debug, Clone, Copy, PartialEq, Eq, Structural)]
pub enum PositionError {
    /// A token was not an unsigned integer fitting the coordinate type.
    FormatError,
    /// The text did not hold exactly two tokens.
    IndexError,
}

impl Position {
    /// Both coordinates lie on the board.
    pub open spec fn valid(self) -> bool {
        self.x < BOARD_SIZE && self.y < BOARD_SIZE
    }

    /// The same square seen from the opposing player's frame.
    pub open spec fn spec_reverse(self) -> Position {
        Position { x: (15 - self.x) as u8, y: (15 - self.y) as u8 }
    }

    pub fn new(x: u8, y: u8) -> (r: Self)
        ensures
            r == (Position { x, y }),
    {
        Position { x, y }
    }

    /// Translate the position to the opposing side of the board.
    pub fn reverse(&self) -> (r: Position)
        requires
            self.valid(),
        ensures
            r == self.spec_reverse(),
            r.valid(),
    {
        Position { x: 15 - self.x, y: 15 - self.y }
    }

    pub fn is_valid(&self) -> (r: bool)
        ensures
            r == self.valid(),
    {
        self.x < BOARD_SIZE && self.y < BOARD_SIZE
    }

    /// Get the position's x.
    pub fn x(&self) -> (r: u8)
        ensures
            r == self.x,
    {
        self.x
    }

    /// Set the position's x.
    pub fn set_x(&mut self, x: u8)
        ensures
            *final(self) == (Position { x, y: old(self).y }),
    {
        self.x = x;
    }

    /// Get the position's y.
    pub fn y(&self) -> (r: u8)
        ensures
            r == self.y,
    {
        self.y
    }

    /// Set the position's y.
    pub fn set_y(&mut self, y: u8)
        ensures
            *final(self) == (Position { x: old(self).x, y }),
    {
        self.y = y;
    }
}

/// Reversing a valid position twice gives the position back.
pub proof fn lemma_reverse_involutive(p: Position)
    requires
        p.valid(),
    ensures
        p.spec_reverse().spec_reverse() == p,
{
}

} // verus!
