//! One square of the board: its occupancy and whether the side to move may
//! place a piece there.

use vstd::prelude::*;

verus! {

/// What occupies a square: nothing, or a piece of one of the two sides.
#[derive(Clone, Copy, Debug, PartialEq, Eq, Structural)]
pub enum Color {
    NONE,
    BLACK,
    WHITE,
}

/// A square of the board.
#[derive(Clone, Copy, Debug)]
pub struct Cell {
    pub color: Color,
    pub can_place: bool,
}

impl Cell {
    pub fn new(color: Color) -> (r: Cell)
        ensures
            r.color == color,
            !r.can_place,
    {
        Cell { color, can_place: false }
    }

    pub fn get_piece(&self) -> (r: Color)
        ensures
            r == self.color,
    {
        self.color
    }

    pub fn set_piece(&mut self, piece_color: Color)
        ensures
            final(self).color == piece_color,
            final(self).can_place == old(self).can_place,
    {
        self.color = piece_color;
    }

    pub fn set_can_place(&mut self, can_place: bool)
        ensures
            final(self).color == old(self).color,
            final(self).can_place == can_place,
    {
        self.can_place = can_place;
    }

    pub fn get_can_place(&self) -> (r: bool)
        ensures
            r == self.can_place,
    {
        self.can_place
    }
}

} // verus!
