//! The two sides of a match.

use crate::cell;
use vstd::prelude::*;

verus! {

/// A side: the first to move plays black.
#[derive(Clone, Copy, Debug, PartialEq, Eq, Structural)]
pub enum Color {
    BLACK,
    WHITE,
}

/// The pieces of `side` on the board.
pub open spec fn piece_of(side: Color) -> cell::Color {
    match side {
        Color::BLACK => cell::Color::BLACK,
        Color::WHITE => cell::Color::WHITE,
    }
}

/// The side that moves after `side`.
pub open spec fn other(side: Color) -> Color {
    match side {
        Color::BLACK => Color::WHITE,
        Color::WHITE => Color::BLACK,
    }
}

impl Color {
    /// The pieces this side places.
    pub fn piece(&self) -> (r: cell::Color)
        ensures
            r == piece_of(*self),
    {
        match self {
            Color::BLACK => cell::Color::BLACK,
            Color::WHITE => cell::Color::WHITE,
        }
    }

    /// The opposing side.
    pub fn opponent(&self) -> (r: Color)
        ensures
            r == other(*self),
    {
        match self {
            Color::BLACK => Color::WHITE,
            Color::WHITE => Color::BLACK,
        }
    }
}

} // verus!
