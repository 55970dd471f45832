//! The turn state machine of a match: turn start, placement, turn end and
//! the end of the game.

use crate::board::{count, is_legal, legal_moves, placed, Board};
use crate::cell;
use crate::player::{self, other, piece_of};
use vstd::prelude::*;

verus! {

/// How a finished match ended.
#[derive(Clone, Copy, Debug, PartialEq, Eq, Structural)]
pub enum Outcome {
    Win(player::Color),
    Draw,
}

/// Where a match stands.
#[derive(Clone, Copy, Debug, PartialEq, Eq, Structural)]
pub enum State {
    /// The side to move is about to have its legal moves computed.
    TurnStart,
    /// The side to move has a legal move and awaits a placement request.
    TurnInProgress,
    /// The side to move has placed or passed.
    TurnResolved,
    /// The match is over.
    GameOver(Outcome),
}

/// The outcome by piece count: the side with more pieces wins, equal counts
/// draw.
pub open spec fn outcome_of(b: Seq<cell::Color>) -> Outcome {
    if count(b, cell::Color::BLACK) == count(b, cell::Color::WHITE) {
        Outcome::Draw
    } else if count(b, cell::Color::BLACK) < count(b, cell::Color::WHITE) {
        Outcome::Win(player::Color::WHITE)
    } else {
        Outcome::Win(player::Color::BLACK)
    }
}

/// A match: the board, the side to move, the run of passes and the state.
pub struct Game {
    state: State,
    player_num: player::Color,
    board: Board,
    skip_count: i32,
}

/// `h` is `g` after a turn start: the side to move gets its legal moves;
/// without one it passes, and a second pass in a row ends the match.
pub open spec fn start_step(g: Game, h: Game) -> bool {
    if g.current_state() == State::TurnStart {
        let piece = piece_of(g.active());
        &&& h.grid() == g.grid()
        &&& h.active() == g.active()
        &&& h.board_of().turn() == Some(piece)
        &&& if legal_moves(g.grid(), piece).len() > 0 {
            h.current_state() == State::TurnInProgress && h.passes() == 0
        } else {
            &&& h.passes() == g.passes() + 1
            &&& h.current_state() == if h.passes() >= 2 {
                State::GameOver(outcome_of(g.grid()))
            } else {
                State::TurnResolved
            }
        }
    } else {
        h == g
    }
}

/// `h` is `g` after the request to place at `(x, y)`, answered by `r`: it
/// succeeds exactly when the side to move awaits a placement and the square
/// is a legal target.
pub open spec fn placement_step(g: Game, h: Game, x: int, y: int, r: bool) -> bool {
    let piece = piece_of(g.active());
    &&& r == (g.current_state() == State::TurnInProgress && is_legal(g.grid(), x, y, piece))
    &&& if r {
        &&& h.grid() == placed(g.grid(), x, y, piece)
        &&& h.current_state() == State::TurnResolved
        &&& h.active() == g.active()
        &&& h.passes() == g.passes()
    } else {
        h == g
    }
}

/// `h` is `g` after a turn end: a full board ends the match, else the other
/// side is to move.
pub open spec fn finish_step(g: Game, h: Game) -> bool {
    if g.current_state() == State::TurnResolved {
        &&& h.board_of() == g.board_of()
        &&& h.passes() == g.passes()
        &&& if count(g.grid(), cell::Color::NONE) == 0 {
            h.current_state() == State::GameOver(outcome_of(g.grid())) && h.active() == g.active()
        } else {
            h.current_state() == State::TurnStart && h.active() == other(g.active())
        }
    } else {
        h == g
    }
}

impl Game {
    pub closed spec fn current_state(&self) -> State {
        self.state
    }

    /// The side to move.
    pub closed spec fn active(&self) -> player::Color {
        self.player_num
    }

    /// Passes in a row.
    pub closed spec fn passes(&self) -> int {
        self.skip_count as int
    }

    pub closed spec fn board_of(&self) -> Board {
        self.board
    }

    /// Occupancy of the squares.
    pub open spec fn grid(&self) -> Seq<cell::Color> {
        self.board_of().colors()
    }

    /// The match's invariant: a well-formed board; at most one pass in a row
    /// before the end, two at most; a placement is awaited only with the
    /// legal moves of the side to move held.
    pub closed spec fn wf(&self) -> bool {
        &&& self.board.wf()
        &&& 0 <= self.skip_count <= 2
        &&& !(self.state is GameOver) ==> self.skip_count <= 1
        &&& self.state == State::TurnInProgress ==> self.board.turn() == Some(piece_of(self.player_num))
    }

    /// A match at its opening position, black to move.
    pub fn new() -> (r: Game)
        ensures
            r.wf(),
            r.current_state() == State::TurnStart,
            r.active() == player::Color::BLACK,
            r.passes() == 0,
            r.grid() == crate::board::opening(),
    {
        let mut board = Board::new();
        board.init();
        Game { state: State::TurnStart, player_num: player::Color::BLACK, board, skip_count: 0 }
    }

    /// A match on the given board, `side` to move, no pass yet.
    pub fn from_board(board: Board, side: player::Color) -> (r: Game)
        requires
            board.wf(),
        ensures
            r.wf(),
            r.current_state() == State::TurnStart,
            r.active() == side,
            r.passes() == 0,
            r.grid() == board.colors(),
    {
        Game { state: State::TurnStart, player_num: side, board, skip_count: 0 }
    }

    /// Restarts the match: opening position, black to move, no pass.
    pub fn init(&mut self)
        ensures
            final(self).wf(),
            final(self).current_state() == State::TurnStart,
            final(self).active() == player::Color::BLACK,
            final(self).passes() == 0,
            final(self).grid() == crate::board::opening(),
    {
        self.player_num = player::Color::BLACK;
        self.skip_count = 0;
        self.board.init();
        self.state = State::TurnStart;
    }

    /// The restart that a reset request asks for.
    pub fn reset(&mut self)
        ensures
            final(self).wf(),
            final(self).current_state() == State::TurnStart,
            final(self).active() == player::Color::BLACK,
            final(self).passes() == 0,
            final(self).grid() == crate::board::opening(),
    {
        self.init();
    }

    /// The pieces of the side to move.
    pub fn transform_color(&self) -> (r: cell::Color)
        ensures
            r == piece_of(self.active()),
    {
        match self.player_num {
            player::Color::BLACK => cell::Color::BLACK,
            player::Color::WHITE => cell::Color::WHITE,
        }
    }

    /// Starts the turn of the side to move: computes its legal moves; with
    /// none, counts a pass, and a second pass in a row ends the match.
    /// Outside a turn start, changes nothing.
    pub fn turn_start(&mut self)
        requires
            old(self).wf(),
        ensures
            final(self).wf(),
            start_step(*old(self), *final(self)),
    {
        if self.state != State::TurnStart {
            return;
        }
        let piece = self.transform_color();
        self.board.init_turn(piece);
        if self.board.there_is_select_cells() {
            self.skip_count = 0;
            self.state = State::TurnInProgress;
            return;
        }
        if self.skip_count + 1 >= 2 {
            let outcome = self.result();
            self.skip_count = self.skip_count + 1;
            self.state = State::GameOver(outcome);
        } else {
            self.skip_count = self.skip_count + 1;
            self.state = State::TurnResolved;
        }
    }

    /// Forwards the request to place at `(x, y)` for the side to move; on
    /// success the turn is resolved. A rejected request changes nothing.
    pub fn turn_update(&mut self, x: i32, y: i32) -> (r: bool)
        requires
            old(self).wf(),
        ensures
            final(self).wf(),
            placement_step(*old(self), *final(self), x as int, y as int, r),
    {
        if self.state != State::TurnInProgress {
            return false;
        }
        let piece = self.transform_color();
        if self.board.set_piece(x, y, piece) {
            self.state = State::TurnResolved;
            true
        } else {
            false
        }
    }

    /// Ends a resolved turn: a full board ends the match, else the other side
    /// is to move. Outside a resolved turn, changes nothing.
    pub fn turn_finish(&mut self)
        requires
            old(self).wf(),
        ensures
            final(self).wf(),
            finish_step(*old(self), *final(self)),
    {
        if self.state != State::TurnResolved {
            return;
        }
        if self.board.get_piece_count(cell::Color::NONE) == 0 {
            self.state = State::GameOver(self.result());
            return;
        }
        match self.player_num {
            player::Color::BLACK => {
                self.player_num = player::Color::WHITE;
            },
            player::Color::WHITE => {
                self.player_num = player::Color::BLACK;
            },
        }
        self.state = State::TurnStart;
    }

    /// Advances the match by one step: starts a turn that is due, ends a turn
    /// that is resolved; a placement is awaited, or the match is over,
    /// otherwise.
    pub fn update(&mut self)
        requires
            old(self).wf(),
        ensures
            final(self).wf(),
            old(self).current_state() == State::TurnStart ==> start_step(*old(self), *final(self)),
            old(self).current_state() == State::TurnResolved ==> finish_step(*old(self), *final(self)),
            old(self).current_state() == State::TurnInProgress || old(self).current_state() is GameOver
                ==> *final(self) == *old(self),
    {
        match self.state {
            State::TurnStart => self.turn_start(),
            State::TurnResolved => self.turn_finish(),
            State::TurnInProgress => {},
            State::GameOver(_) => {},
        }
    }

    /// The outcome by the current piece counts.
    pub fn result(&self) -> (r: Outcome)
        requires
            self.wf(),
        ensures
            r == outcome_of(self.grid()),
    {
        let black_piece_num = self.board.get_piece_count(cell::Color::BLACK);
        let white_piece_num = self.board.get_piece_count(cell::Color::WHITE);
        if black_piece_num == white_piece_num {
            Outcome::Draw
        } else if black_piece_num < white_piece_num {
            Outcome::Win(player::Color::WHITE)
        } else {
            Outcome::Win(player::Color::BLACK)
        }
    }

    pub fn get_state(&self) -> (r: State)
        ensures
            r == self.current_state(),
    {
        self.state
    }

    /// The side to move.
    pub fn get_player(&self) -> (r: player::Color)
        ensures
            r == self.active(),
    {
        self.player_num
    }

    /// Passes in a row.
    pub fn get_skip_count(&self) -> (r: i32)
        ensures
            r == self.passes(),
    {
        self.skip_count
    }

    pub fn board(&self) -> (r: &Board)
        ensures
            *r == self.board_of(),
    {
        &self.board
    }
}

/// When neither side can move, two turn starts with a turn end between them
/// end the match, however many squares are empty, with the outcome of the
/// counts; on a board with an empty square the second pass is counted.
pub proof fn lemma_double_pass_ends(g0: Game, g1: Game, g2: Game, g3: Game)
    requires
        g0.wf(),
        g1.wf(),
        g2.wf(),
        g0.current_state() == State::TurnStart,
        legal_moves(g0.grid(), piece_of(g0.active())).len() == 0,
        legal_moves(g0.grid(), piece_of(other(g0.active()))).len() == 0,
        start_step(g0, g1),
        finish_step(g1, g2),
        start_step(g2, g3),
    ensures
        g3.current_state() == State::GameOver(outcome_of(g0.grid())),
        g3.grid() == g0.grid(),
        count(g0.grid(), cell::Color::NONE) > 0 ==> g3.passes() == 2,
{
}

/// A resolved turn on a full board ends the match with the outcome of the
/// counts, whatever legal moves are still held.
pub proof fn lemma_full_board_ends(g: Game, h: Game)
    requires
        g.wf(),
        g.current_state() == State::TurnResolved,
        count(g.grid(), cell::Color::NONE) == 0,
        finish_step(g, h),
    ensures
        h.current_state() == State::GameOver(outcome_of(g.grid())),
{
}

} // verus!
