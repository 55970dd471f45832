//! Rules engine and turn flow for a two-player Othello (Reversi) match.
//!
//! `cell` holds the occupancy of one square, `board` the 8x8 grid with move
//! legality and the capture rule, `game` the turn state machine.

pub mod board;
pub mod cell;
pub mod game;
pub mod player;

use vstd::prelude::*;

verus! {

/// `x + y`, held to at most `max`.
pub fn test1(x: i32, y: i32, max: i32) -> (r: i32)
    requires
        i32::MIN <= x + y <= i32::MAX,
    ensures
        r == if x + y > max { max as int } else { x + y },
{
    let mut sum: i32 = x + y;
    if sum > max {
        sum = max;
    }
    sum = if sum > max {
        max
    } else {
        sum
    };
    sum
}

} // verus!
