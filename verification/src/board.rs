//! Board squares and the side to move.

use vstd::prelude::*;
use crate::pieces::PieceColor;

verus! {

/// One coordinate pair of the 8x8 board: `x` and `y` each range over [0, 7].
/// A square is purely a coordinate; game state lives in the piece records.
#[derive(Clone, Copy, PartialEq, Eq, Structural, Debug)]
pub struct Square {
    pub x: u8,
    pub y: u8,
}

impl Square {
    /// Whether the square is one of the light ones of the alternating
    /// pattern: the parity of x + y + 1.
    pub fn is_white(&self) -> (r: bool)
        ensures
            r == ((self.x + self.y + 1) % 2 == 0),
    {
        (self.x as u16 + self.y as u16 + 1) % 2 == 0
    }
}

/// The side whose pieces may currently be selected and moved.
#[derive(Clone, Copy, PartialEq, Eq, Structural, Debug)]
pub struct PlayerTurn(pub PieceColor);

impl Default for PlayerTurn {
    /// White moves first.
    fn default() -> (r: Self)
        ensures
            r.0 == PieceColor::White,
    {
        PlayerTurn(PieceColor::White)
    }
}

impl PlayerTurn {
    /// Hands the turn to the other side.
    pub fn change(&mut self)
        ensures
            final(self).0 == old(self).0.spec_opposite(),
    {
        self.0 = self.0.opposite();
    }
}

} // verus!
