//! The 8x8 grid, legality of a placement and the capture rule.
//!
//! Squares are addressed by column `x` and row `y`, each in `0..8`, and
//! stored at index `x * 8 + y`.

use crate::cell::{Cell, Color};
use vstd::prelude::*;

verus! {

pub const WIDTH_NUM: usize = 8;

pub const HEIGHT_NUM: usize = 8;

/// Number of squares on the board.
pub const CELL_NUM: usize = 64;

/// Whether `(x, y)` lies on the board.
pub open spec fn inside(x: int, y: int) -> bool {
    0 <= x < 8 && 0 <= y < 8
}

/// Occupancy of square `(x, y)` of the grid `b`.
pub open spec fn at(b: Seq<Color>, x: int, y: int) -> Color {
    b[x * 8 + y]
}

/// Column step of the `i`-th compass direction, clockwise from north.
pub open spec fn dir_x(i: int) -> int {
    if i == 0 || i == 4 {
        0
    } else if 1 <= i <= 3 {
        1
    } else {
        -1
    }
}

/// Row step of the `i`-th compass direction, clockwise from north.
pub open spec fn dir_y(i: int) -> int {
    if i == 2 || i == 6 {
        0
    } else if 3 <= i <= 5 {
        1
    } else {
        -1
    }
}

/// Walks from `(px, py)` by steps of `(dx, dy)`, at most `fuel` squares.
/// `Some(run)` when a piece of `side` is met after the run of other pieces
/// `run`; `None` when an empty square is met or the walk leaves the board.
pub open spec fn walk(
    b: Seq<Color>,
    px: int,
    py: int,
    dx: int,
    dy: int,
    side: Color,
    fuel: nat,
) -> Option<Seq<(usize, usize)>>
    decreases fuel,
{
    if fuel == 0 || !inside(px, py) {
        None
    } else if at(b, px, py) == Color::NONE {
        None
    } else if at(b, px, py) == side {
        Some(Seq::empty())
    } else {
        match walk(b, px + dx, py + dy, dx, dy, side, (fuel - 1) as nat) {
            Some(run) => Some(seq![(px as usize, py as usize)] + run),
            None => None,
        }
    }
}

/// The pieces that a piece of `side` at `(x, y)` brackets in direction `i`.
pub open spec fn dir_captures(b: Seq<Color>, x: int, y: int, side: Color, i: int) -> Seq<(usize, usize)> {
    match walk(b, x + dir_x(i), y + dir_y(i), dir_x(i), dir_y(i), side, 7) {
        Some(run) => run,
        None => Seq::empty(),
    }
}

/// The captures of the first `n` directions, in direction order.
pub open spec fn captures_upto(b: Seq<Color>, x: int, y: int, side: Color, n: int) -> Seq<(usize, usize)>
    decreases n,
{
    if n <= 0 {
        Seq::empty()
    } else {
        captures_upto(b, x, y, side, n - 1) + dir_captures(b, x, y, side, n - 1)
    }
}

/// Every piece that a piece of `side` placed at `(x, y)` would flip.
pub open spec fn captures(b: Seq<Color>, x: int, y: int, side: Color) -> Seq<(usize, usize)> {
    captures_upto(b, x, y, side, 8)
}

/// `side` may place at `(x, y)`: the square is on the board, empty, and the
/// placement flips at least one piece.
pub open spec fn is_legal(b: Seq<Color>, x: int, y: int, side: Color) -> bool {
    inside(x, y) && at(b, x, y) == Color::NONE && captures(b, x, y, side).len() > 0
}

/// The legal moves of `side` among the first `n` squares, in square order:
/// each is the target and the pieces it flips.
pub open spec fn legal_moves_upto(b: Seq<Color>, side: Color, n: int) -> Seq<(usize, usize, Seq<(usize, usize)>)>
    decreases n,
{
    if n <= 0 {
        Seq::empty()
    } else {
        let prev = legal_moves_upto(b, side, n - 1);
        let x = (n - 1) / 8;
        let y = (n - 1) % 8;
        if is_legal(b, x, y, side) {
            prev.push((x as usize, y as usize, captures(b, x, y, side)))
        } else {
            prev
        }
    }
}

/// All legal moves of `side` on `b`.
pub open spec fn legal_moves(b: Seq<Color>, side: Color) -> Seq<(usize, usize, Seq<(usize, usize)>)> {
    legal_moves_upto(b, side, 64)
}

/// Number of squares among the first `n` that hold `c`.
pub open spec fn count_upto(b: Seq<Color>, c: Color, n: int) -> nat
    decreases n,
{
    if n <= 0 {
        0
    } else {
        count_upto(b, c, n - 1) + if b[n - 1] == c { 1nat } else { 0nat }
    }
}

/// Number of squares that hold `c`.
pub open spec fn count(b: Seq<Color>, c: Color) -> nat {
    count_upto(b, c, 64)
}

/// A legal move: the target square and the pieces that placing there flips.
#[derive(Clone, Debug)]
pub struct LegalMove {
    pub x: usize,
    pub y: usize,
    pub captures: Vec<(usize, usize)>,
}

impl View for LegalMove {
    type V = (usize, usize, Seq<(usize, usize)>);

    open spec fn view(&self) -> Self::V {
        (self.x, self.y, self.captures@)
    }
}

/// The views of a list of moves.
pub open spec fn moves_view(v: Seq<LegalMove>) -> Seq<(usize, usize, Seq<(usize, usize)>)> {
    v.map_values(|m: LegalMove| m@)
}

/// The occupancy of each square of a list of cells.
pub open spec fn colors_of(cells: Seq<Cell>) -> Seq<Color> {
    cells.map_values(|c: Cell| c.color)
}

/// The run of other pieces that a walk from `(px, py)` by `(dx, dy)` meets
/// before a piece of `side`, as `walk` states; empty when the walk meets an
/// empty square or leaves the board first.
fn check_near_my_piece(cells: &Vec<Cell>, px: i32, py: i32, dx: i32, dy: i32, side: Color) -> (r: Vec<(usize, usize)>)
    requires
        cells@.len() == 64,
        -1 <= dx <= 1,
        -1 <= dy <= 1,
        -1 <= px <= 8,
        -1 <= py <= 8,
    ensures
        r@ == match walk(colors_of(cells@), px as int, py as int, dx as int, dy as int, side, 7) {
            Some(run) => run,
            None => Seq::<(usize, usize)>::empty(),
        },
{
    let ghost b = colors_of(cells@);
    let ghost target = walk(b, px as int, py as int, dx as int, dy as int, side, 7);
    let mut run: Vec<(usize, usize)> = Vec::new();
    let mut cx: i32 = px;
    let mut cy: i32 = py;
    let mut fuel: u32 = 7;
    proof {
        if let Some(rest) = target {
            assert(run@ + rest =~= rest);
        }
    }
    loop
        invariant
            cells@.len() == 64,
            b == colors_of(cells@),
            target == walk(b, px as int, py as int, dx as int, dy as int, side, 7),
            -1 <= dx <= 1,
            -1 <= dy <= 1,
            fuel <= 7,
            -(7 - fuel) <= cx - px <= 7 - fuel,
            -(7 - fuel) <= cy - py <= 7 - fuel,
            -1 <= px <= 8,
            -1 <= py <= 8,
            target == match walk(b, cx as int, cy as int, dx as int, dy as int, side, fuel as nat) {
                Some(rest) => Some(run@ + rest),
                None => None,
            },
        decreases fuel,
    {
        if fuel == 0 || cx < 0 || cy < 0 || cx >= 8 || cy >= 8 {
            assert(walk(b, cx as int, cy as int, dx as int, dy as int, side, fuel as nat) is None);
            return Vec::new();
        }
        let i: usize = (cx as usize) * 8 + (cy as usize);
        let piece = cells[i].color;
        assert(piece == at(b, cx as int, cy as int));
        if piece == Color::NONE {
            assert(walk(b, cx as int, cy as int, dx as int, dy as int, side, fuel as nat) is None);
            return Vec::new();
        }
        if piece == side {
            assert(run@ + Seq::<(usize, usize)>::empty() =~= run@);
            return run;
        }
        let ghost old_run = run@;
        run.push((cx as usize, cy as usize));
        proof {
            let rest = walk(b, cx + dx, cy + dy, dx as int, dy as int, side, (fuel - 1) as nat);
            if let Some(rest) = rest {
                assert(old_run + (seq![(cx as usize, cy as usize)] + rest) =~= run@ + rest);
            }
        }
        cx = cx + dx;
        cy = cy + dy;
        fuel = fuel - 1;
    }
}

/// Steps of the `i`-th compass direction.
fn direction(i: usize) -> (r: (i32, i32))
    requires
        i < 8,
    ensures
        r.0 == dir_x(i as int),
        r.1 == dir_y(i as int),
{
    let dir_x: [i32; 8] = [0, 1, 1, 1, 0, -1, -1, -1];
    let dir_y: [i32; 8] = [-1, -1, 0, 1, 1, 1, 0, -1];
    (dir_x[i], dir_y[i])
}

/// The pieces that a piece of `side` placed at `(x, y)` flips, direction
/// by direction.
fn check_enable_installation(cells: &Vec<Cell>, x: usize, y: usize, side: Color) -> (r: Vec<(usize, usize)>)
    requires
        cells@.len() == 64,
        x < 8,
        y < 8,
    ensures
        r@ == captures(colors_of(cells@), x as int, y as int, side),
{
    let ghost b = colors_of(cells@);
    let mut all: Vec<(usize, usize)> = Vec::new();
    let mut i: usize = 0;
    while i < 8
        invariant
            cells@.len() == 64,
            b == colors_of(cells@),
            x < 8,
            y < 8,
            i <= 8,
            all@ == captures_upto(b, x as int, y as int, side, i as int),
        decreases 8 - i,
    {
        let (dx, dy) = direction(i);
        let run = check_near_my_piece(cells, x as i32 + dx, y as i32 + dy, dx, dy, side);
        let mut j: usize = 0;
        let ghost before = all@;
        while j < run.len()
            invariant
                j <= run@.len(),
                all@ == before + run@.take(j as int),
            decreases run@.len() - j,
        {
            all.push(run[j]);
            assert(run@.take(j as int + 1) =~= run@.take(j as int).push(run@[j as int]));
            assert(all@ =~= before + run@.take(j as int + 1));
            j += 1;
        }
        assert(run@.take(run@.len() as int) =~= run@);
        i += 1;
    }
    all
}

/// Every legal move of `side` on the grid `cells`, in square order.
fn legal_moves_of(cells: &Vec<Cell>, side: Color) -> (r: Vec<LegalMove>)
    requires
        cells@.len() == 64,
    ensures
        moves_view(r@) == legal_moves(colors_of(cells@), side),
{
    let ghost b = colors_of(cells@);
    let mut moves: Vec<LegalMove> = Vec::new();
    let mut c: usize = 0;
    while c < CELL_NUM
        invariant
            cells@.len() == 64,
            b == colors_of(cells@),
            c <= 64,
            moves_view(moves@) == legal_moves_upto(b, side, c as int),
        decreases 64 - c,
    {
        let x: usize = c / 8;
        let y: usize = c % 8;
        assert(x * 8 + y == c);
        if cells[c].color == Color::NONE {
            let caps = check_enable_installation(cells, x, y, side);
            if caps.len() > 0 {
                let m = LegalMove { x, y, captures: caps };
                let ghost prev = moves@;
                moves.push(m);
                assert(moves_view(moves@) =~= moves_view(prev).push(m@));
            }
        }
        c += 1;
    }
    moves
}

/// Whether `caps` names the square of index `i`.
pub open spec fn flips(caps: Seq<(usize, usize)>, i: int) -> bool {
    exists|k: int| 0 <= k < caps.len() && #[trigger] caps[k].0 * 8 + caps[k].1 == i
}

/// The grid after `side` places at `(x, y)`: the target and every captured
/// square hold `side`, every other square is unchanged.
pub open spec fn placed(b: Seq<Color>, x: int, y: int, side: Color) -> Seq<Color> {
    Seq::new(64, |i: int| if i == x * 8 + y || flips(captures(b, x, y, side), i) { side } else { b[i] })
}

/// The grid of a new match: the four centre squares hold two pieces of each
/// side on the diagonals, every other square is empty.
pub open spec fn opening() -> Seq<Color> {
    Seq::new(
        64,
        |i: int|
            if i == 3 * 8 + 3 || i == 4 * 8 + 4 {
                Color::WHITE
            } else if i == 3 * 8 + 4 || i == 4 * 8 + 3 {
                Color::BLACK
            } else {
                Color::NONE
            },
    )
}

/// Each square that a walk collects lies on the board.
proof fn lemma_walk_inside(b: Seq<Color>, px: int, py: int, dx: int, dy: int, side: Color, fuel: nat)
    ensures
        walk(b, px, py, dx, dy, side, fuel) matches Some(run) ==> forall|k: int|
            0 <= k < run.len() ==> (#[trigger] run[k]).0 < 8 && run[k].1 < 8,
    decreases fuel,
{
    if fuel > 0 && inside(px, py) {
        lemma_walk_inside(b, px + dx, py + dy, dx, dy, side, (fuel - 1) as nat);
    }
}

/// Each square that a placement captures lies on the board.
proof fn lemma_captures_inside(b: Seq<Color>, x: int, y: int, side: Color, n: int)
    ensures
        forall|k: int|
            0 <= k < captures_upto(b, x, y, side, n).len() ==> (#[trigger] captures_upto(b, x, y, side, n)[k]).0 < 8
                && captures_upto(b, x, y, side, n)[k].1 < 8,
    decreases n,
{
    if n > 0 {
        lemma_captures_inside(b, x, y, side, n - 1);
        let i = n - 1;
        lemma_walk_inside(b, x + dir_x(i), y + dir_y(i), dir_x(i), dir_y(i), side, 7);
        let prev = captures_upto(b, x, y, side, n - 1);
        let d = dir_captures(b, x, y, side, n - 1);
        assert forall|k: int| 0 <= k < (prev + d).len() implies (#[trigger] (prev + d)[k]).0 < 8 && (prev
            + d)[k].1 < 8 by {
            if k >= prev.len() {
                assert((prev + d)[k] == d[k - prev.len()]);
            }
        }
    }
}

/// The moves among the first `n` squares are exactly the legal targets among
/// them, each with its captures.
proof fn lemma_legal_moves_upto(b: Seq<Color>, side: Color, n: int)
    requires
        0 <= n <= 64,
    ensures
        forall|k: int|
            0 <= k < legal_moves_upto(b, side, n).len() ==> {
                let m = #[trigger] legal_moves_upto(b, side, n)[k];
                &&& m.0 < 8
                &&& m.1 < 8
                &&& m.0 * 8 + m.1 < n
                &&& is_legal(b, m.0 as int, m.1 as int, side)
                &&& m.2 == captures(b, m.0 as int, m.1 as int, side)
            },
        forall|x: int, y: int|
            inside(x, y) && x * 8 + y < n && #[trigger] is_legal(b, x, y, side) ==> exists|k: int|
                0 <= k < legal_moves_upto(b, side, n).len() && (#[trigger] legal_moves_upto(b, side, n)[k]).0
                    == x && legal_moves_upto(b, side, n)[k].1 == y,
    decreases n,
{
    if n > 0 {
        lemma_legal_moves_upto(b, side, n - 1);
        let prev = legal_moves_upto(b, side, n - 1);
        let cur = legal_moves_upto(b, side, n);
        let cx = (n - 1) / 8;
        let cy = (n - 1) % 8;
        assert(cx * 8 + cy == n - 1);
        assert forall|x: int, y: int|
            inside(x, y) && x * 8 + y < n && #[trigger] is_legal(b, x, y, side) implies exists|k: int|
                0 <= k < cur.len() && (#[trigger] cur[k]).0 == x && cur[k].1 == y by {
            if x * 8 + y < n - 1 {
                let k = choose|k: int| 0 <= k < prev.len() && (#[trigger] prev[k]).0 == x && prev[k].1 == y;
                assert(cur[k] == prev[k]);
            } else {
                assert(x == cx && y == cy);
                assert(cur[prev.len() as int].0 == x);
            }
        }
    }
}

/// The grid `b`, 64 squares long, holds as many squares as there are
/// empty squares and pieces of each side together.
proof fn lemma_count_upto_sum(b: Seq<Color>, n: int)
    requires
        0 <= n <= b.len(),
    ensures
        count_upto(b, Color::NONE, n) + count_upto(b, Color::BLACK, n) + count_upto(b, Color::WHITE, n) == n,
        count_upto(b, Color::NONE, n) <= n,
        count_upto(b, Color::BLACK, n) <= n,
        count_upto(b, Color::WHITE, n) <= n,
    decreases n,
{
    if n > 0 {
        lemma_count_upto_sum(b, n - 1);
    }
}

/// Index of the move of `moves` that targets `(x, y)`.
fn get_enable_installation(moves: &Vec<LegalMove>, x: usize, y: usize) -> (r: Option<usize>)
    ensures
        r matches Some(k) ==> k < moves@.len() && moves@[k as int].x == x && moves@[k as int].y == y,
        r is None ==> forall|k: int| 0 <= k < moves@.len() ==> !(#[trigger] moves@[k].x == x && moves@[k].y == y),
{
    let mut k: usize = 0;
    while k < moves.len()
        invariant
            k <= moves@.len(),
            forall|j: int| 0 <= j < k ==> !(#[trigger] moves@[j].x == x && moves@[j].y == y),
        decreases moves@.len() - k,
    {
        if moves[k].x == x && moves[k].y == y {
            return Some(k);
        }
        k += 1;
    }
    None
}

/// A list of all legal moves holds one for `(x, y)` exactly when the square is
/// a legal target, and that one carries its captures.
proof fn lemma_lookup(b: Seq<Color>, side: Color, moves: Seq<LegalMove>, x: int, y: int)
    requires
        moves_view(moves) == legal_moves(b, side),
        inside(x, y),
    ensures
        (exists|k: int| 0 <= k < moves.len() && #[trigger] moves[k].x == x && moves[k].y == y) <==> is_legal(b, x, y, side),
        forall|k: int|
            0 <= k < moves.len() && #[trigger] moves[k].x == x && moves[k].y == y ==> moves[k].captures@ == captures(b, x, y, side),
        forall|k: int| 0 <= k < moves.len() ==> (#[trigger] moves[k]).captures@ == captures(b, moves[k].x as int, moves[k].y as int, side),
{
    lemma_legal_moves_upto(b, side, 64);
    let lm = legal_moves(b, side);
    assert(moves.len() == lm.len());
    assert forall|k: int| 0 <= k < moves.len() implies {
        &&& (#[trigger] moves[k])@ == lm[k]
        &&& is_legal(b, moves[k].x as int, moves[k].y as int, side)
        &&& moves[k].captures@ == captures(b, moves[k].x as int, moves[k].y as int, side)
    } by {
        assert(moves_view(moves)[k] == moves[k]@);
        let m = lm[k];
    }
    if is_legal(b, x, y, side) {
        let k = choose|k: int| 0 <= k < lm.len() && (#[trigger] lm[k]).0 == x && lm[k].1 == y;
        assert(moves[k]@ == lm[k]);
    }
}

/// Captures exist exactly when some direction among the first `n` yields
/// one.
proof fn lemma_captures_upto_nonempty(b: Seq<Color>, x: int, y: int, side: Color, n: int)
    requires
        0 <= n <= 8,
    ensures
        captures_upto(b, x, y, side, n).len() > 0 <==> exists|i: int|
            0 <= i < n && (#[trigger] dir_captures(b, x, y, side, i)).len() > 0,
    decreases n,
{
    if n > 0 {
        lemma_captures_upto_nonempty(b, x, y, side, n - 1);
        if dir_captures(b, x, y, side, n - 1).len() > 0 {
            assert(exists|i: int| 0 <= i < n && (#[trigger] dir_captures(b, x, y, side, i)).len() > 0);
        }
    }
}

/// No legal move targets an occupied square.
pub proof fn lemma_legal_targets_empty(b: Seq<Color>, side: Color)
    requires
        b.len() == 64,
    ensures
        forall|k: int|
            0 <= k < legal_moves(b, side).len() ==> {
                let m = #[trigger] legal_moves(b, side)[k];
                &&& inside(m.0 as int, m.1 as int)
                &&& at(b, m.0 as int, m.1 as int) == Color::NONE
            },
{
    lemma_legal_moves_upto(b, side, 64);
}

/// A square is a legal target exactly when it is on the board, empty, and
/// the walk in at least one of the eight directions captures; the legal
/// moves hold one for each such square and for no other.
pub proof fn lemma_legal_iff_capturing_direction(b: Seq<Color>, x: int, y: int, side: Color)
    requires
        b.len() == 64,
    ensures
        is_legal(b, x, y, side) <==> {
            &&& inside(x, y)
            &&& at(b, x, y) == Color::NONE
            &&& exists|i: int| 0 <= i < 8 && (#[trigger] dir_captures(b, x, y, side, i)).len() > 0
        },
        inside(x, y) ==> (is_legal(b, x, y, side) <==> exists|k: int|
            0 <= k < legal_moves(b, side).len() && (#[trigger] legal_moves(b, side)[k]).0 == x
                && legal_moves(b, side)[k].1 == y),
{
    lemma_captures_upto_nonempty(b, x, y, side, 8);
    lemma_legal_moves_upto(b, side, 64);
    if inside(x, y) {
        assert forall|k: int|
            0 <= k < legal_moves(b, side).len() && (#[trigger] legal_moves(b, side)[k]).0 == x
                && legal_moves(b, side)[k].1 == y implies is_legal(b, x, y, side) by {
            let m = legal_moves(b, side)[k];
            assert(is_legal(b, m.0 as int, m.1 as int, side));
        }
    }
}

/// On every well-formed board the empty squares and the pieces of the two
/// sides together number 64.
pub proof fn lemma_counts_total(board: &Board)
    requires
        board.wf(),
    ensures
        count(board.colors(), Color::NONE) + count(board.colors(), Color::BLACK) + count(
            board.colors(),
            Color::WHITE,
        ) == 64,
{
    lemma_count_upto_sum(board.colors(), 64);
}

/// The 8x8 board: the occupancy of each square, and the legal moves held for
/// the side to move.
pub struct Board {
    cells: Vec<Cell>,
    can_select_cells: Vec<LegalMove>,
    turn: Option<Color>,
}

impl Board {
    /// Occupancy of the squares, by index `x * 8 + y`.
    pub closed spec fn colors(&self) -> Seq<Color> {
        colors_of(self.cells@)
    }

    /// The side whose legal moves are held, if any are.
    pub closed spec fn turn(&self) -> Option<Color> {
        self.turn
    }

    /// Whether square `i` is marked as a legal target of the side to move.
    pub closed spec fn flag(&self, i: int) -> bool {
        self.cells@[i].can_place
    }

    /// The board's invariant: 64 squares; the held moves are all legal moves
    /// of their side on the current grid, or none are held; a square is
    /// marked exactly when it is one of their targets.
    pub closed spec fn wf(&self) -> bool {
        &&& self.cells@.len() == 64
        &&& match self.turn {
            Some(s) => moves_view(self.can_select_cells@) == legal_moves(self.colors(), s),
            None => self.can_select_cells@.len() == 0,
        }
        &&& forall|i: int|
            0 <= i < 64 ==> (#[trigger] self.cells@[i]).can_place == match self.turn {
                Some(s) => is_legal(self.colors(), i / 8, i % 8, s),
                None => false,
            }
    }

    /// A board whose squares are all empty.
    pub fn new() -> (r: Board)
        ensures
            r.wf(),
            r.colors() == Seq::new(64, |i: int| Color::NONE),
            r.turn() is None,
    {
        let mut cells: Vec<Cell> = Vec::new();
        let mut i: usize = 0;
        while i < CELL_NUM
            invariant
                i <= 64,
                cells@.len() == i,
                forall|k: int| 0 <= k < i ==> #[trigger] cells@[k] == (Cell { color: Color::NONE, can_place: false }),
            decreases 64 - i,
        {
            cells.push(Cell::new(Color::NONE));
            i += 1;
        }
        let r = Board { cells, can_select_cells: Vec::new(), turn: None };
        assert(r.colors() =~= Seq::new(64, |i: int| Color::NONE));
        r
    }

    /// A board holding the given occupancy, square `(x, y)` at index
    /// `x * 8 + y`; `None` unless there are exactly 64 squares.
    pub fn from_colors(colors: &Vec<Color>) -> (r: Option<Board>)
        ensures
            r is Some <==> colors@.len() == 64,
            r matches Some(b) ==> b.wf() && b.colors() == colors@ && b.turn() is None,
    {
        if colors.len() != CELL_NUM {
            return None;
        }
        let mut cells: Vec<Cell> = Vec::new();
        let mut i: usize = 0;
        while i < CELL_NUM
            invariant
                colors@.len() == 64,
                i <= 64,
                cells@.len() == i,
                forall|k: int|
                    0 <= k < i ==> #[trigger] cells@[k] == (Cell { color: colors@[k], can_place: false }),
            decreases 64 - i,
        {
            cells.push(Cell::new(colors[i]));
            i += 1;
        }
        let r = Board { cells, can_select_cells: Vec::new(), turn: None };
        assert(r.colors() =~= colors@);
        Some(r)
    }

    /// Sets up the opening position; no moves are held afterwards.
    pub fn init(&mut self)
        ensures
            final(self).wf(),
            final(self).colors() == opening(),
            final(self).turn() is None,
    {
        let mut cells: Vec<Cell> = Vec::new();
        let mut i: usize = 0;
        while i < CELL_NUM
            invariant
                i <= 64,
                cells@.len() == i,
                forall|k: int| 0 <= k < i ==> #[trigger] cells@[k] == (Cell { color: Color::NONE, can_place: false }),
            decreases 64 - i,
        {
            cells.push(Cell::new(Color::NONE));
            i += 1;
        }
        cells.set(3 * 8 + 3, Cell::new(Color::WHITE));
        cells.set(4 * 8 + 4, Cell::new(Color::WHITE));
        cells.set(3 * 8 + 4, Cell::new(Color::BLACK));
        cells.set(4 * 8 + 3, Cell::new(Color::BLACK));
        self.cells = cells;
        self.can_select_cells = Vec::new();
        self.turn = None;
        assert(self.colors() =~= opening());
    }

    /// Every legal move of `side` on the current grid, in square order.
    pub fn compute_legal_moves(&self, side: Color) -> (r: Vec<LegalMove>)
        requires
            self.wf(),
        ensures
            moves_view(r@) == legal_moves(self.colors(), side),
            forall|k: int|
                0 <= k < r@.len() ==> #[trigger] r@[k].x < 8 && r@[k].y < 8 && at(
                    self.colors(),
                    r@[k].x as int,
                    r@[k].y as int,
                ) == Color::NONE,
    {
        let r = legal_moves_of(&self.cells, side);
        proof {
            lemma_legal_targets_empty(self.colors(), side);
            assert forall|k: int| 0 <= k < r@.len() implies #[trigger] r@[k].x < 8 && r@[k].y < 8 && at(
                self.colors(),
                r@[k].x as int,
                r@[k].y as int,
            ) == Color::NONE by {
                assert(moves_view(r@)[k] == r@[k]@);
            }
        }
        r
    }

    /// Computes the legal moves of `color`, holds them for the coming
    /// placement and marks their targets.
    pub fn init_turn(&mut self, color: Color) -> (r: bool)
        requires
            old(self).wf(),
        ensures
            r,
            final(self).wf(),
            final(self).colors() == old(self).colors(),
            final(self).turn() == Some(color),
    {
        let moves = legal_moves_of(&self.cells, color);
        self.can_select_cells = moves;
        self.turn = Some(color);
        let ghost b = self.colors();
        let mut c: usize = 0;
        while c < CELL_NUM
            invariant
                self.cells@.len() == 64,
                self.colors() == b,
                self.turn == Some(color),
                moves_view(self.can_select_cells@) == legal_moves(b, color),
                c <= 64,
                forall|i: int|
                    0 <= i < c ==> (#[trigger] self.cells@[i]).can_place == is_legal(b, i / 8, i % 8, color),
            decreases 64 - c,
        {
            let x: usize = c / 8;
            let y: usize = c % 8;
            assert(x * 8 + y == c);
            let found = get_enable_installation(&self.can_select_cells, x, y);
            proof {
                lemma_lookup(b, color, self.can_select_cells@, x as int, y as int);
            }
            let mut cell = self.cells[c];
            cell.set_can_place(found.is_some());
            self.cells.set(c, cell);
            assert(self.colors() =~= b);
            c += 1;
        }
        true
    }

    /// Whether any legal move is held.
    pub fn there_is_select_cells(&self) -> (r: bool)
        requires
            self.wf(),
        ensures
            r == (self.turn() matches Some(s) && legal_moves(self.colors(), s).len() > 0),
    {
        self.can_select_cells.len() > 0
    }

    /// Whether `(x, y)` lies on the board.
    pub fn is_inside(&self, x: i32, y: i32) -> (r: bool)
        ensures
            r == inside(x as int, y as int),
    {
        if x < 0 || y < 0 {
            return false;
        }
        if x as usize >= WIDTH_NUM || y as usize >= HEIGHT_NUM {
            return false;
        }
        true
    }

    /// Whether square `(x, y)` is empty.
    pub fn is_open(&self, x: i32, y: i32) -> (r: bool)
        requires
            self.wf(),
            inside(x as int, y as int),
        ensures
            r == (at(self.colors(), x as int, y as int) == Color::NONE),
    {
        match self.cells[(x as usize) * 8 + (y as usize)].color {
            Color::NONE => true,
            Color::BLACK => false,
            Color::WHITE => false,
        }
    }

    /// The occupancy of square `(x, y)`.
    pub fn get_piece(&self, x: usize, y: usize) -> (r: Color)
        requires
            self.wf(),
            x < 8,
            y < 8,
        ensures
            r == at(self.colors(), x as int, y as int),
    {
        self.cells[x * 8 + y].color
    }

    /// Whether square `(x, y)` is marked as a target of a held legal move.
    pub fn can_place(&self, x: usize, y: usize) -> (r: bool)
        requires
            self.wf(),
            x < 8,
            y < 8,
        ensures
            r == (self.turn() matches Some(s) && is_legal(self.colors(), x as int, y as int, s)),
    {
        let c: usize = x * 8 + y;
        assert(c / 8 == x && c % 8 == y);
        self.cells[c].can_place
    }

    /// The pieces of the side opposed to `self_piece`; empty for empty.
    pub fn get_enemy_piece(&self, self_piece: Color) -> (r: Color)
        ensures
            r == match self_piece {
                Color::NONE => Color::NONE,
                Color::BLACK => Color::WHITE,
                Color::WHITE => Color::BLACK,
            },
    {
        match self_piece {
            Color::NONE => Color::NONE,
            Color::BLACK => Color::WHITE,
            Color::WHITE => Color::BLACK,
        }
    }

    /// Number of squares that hold `color`.
    pub fn get_piece_count(&self, color: Color) -> (r: i32)
        requires
            self.wf(),
        ensures
            r == count(self.colors(), color),
    {
        let ghost b = self.colors();
        let mut n: i32 = 0;
        let mut c: usize = 0;
        while c < CELL_NUM
            invariant
                self.cells@.len() == 64,
                b == self.colors(),
                c <= 64,
                n == count_upto(b, color, c as int),
            decreases 64 - c,
        {
            proof {
                lemma_count_upto_sum(b, c as int + 1);
            }
            if self.cells[c].color == color {
                n += 1;
            }
            c += 1;
        }
        n
    }

    /// Whether `self_piece` may place at `(x, y)`: its legal moves are held
    /// and one of them targets that square.
    pub fn can_piece(&self, x: i32, y: i32, self_piece: Color) -> (r: bool)
        requires
            self.wf(),
        ensures
            r == (self.turn() == Some(self_piece) && is_legal(self.colors(), x as int, y as int, self_piece)),
    {
        if !self.is_inside(x, y) {
            return false;
        }
        if !self.is_open(x, y) {
            return false;
        }
        if self.turn != Some(self_piece) {
            return false;
        }
        proof {
            lemma_lookup(self.colors(), self_piece, self.can_select_cells@, x as int, y as int);
        }
        get_enable_installation(&self.can_select_cells, x as usize, y as usize).is_some()
    }

    /// Places a piece of `self_piece` at `(x, y)` and flips every piece it
    /// captures, when a held legal move of that side targets the square;
    /// else changes nothing. The held moves are spent by a placement.
    pub fn set_piece(&mut self, x: i32, y: i32, self_piece: Color) -> (r: bool)
        requires
            old(self).wf(),
        ensures
            final(self).wf(),
            r == (old(self).turn() == Some(self_piece) && is_legal(old(self).colors(), x as int, y as int, self_piece)),
            r ==> final(self).colors() == placed(old(self).colors(), x as int, y as int, self_piece),
            r ==> final(self).turn() is None,
            !r ==> *final(self) == *old(self),
    {
        if !self.can_piece(x, y, self_piece) {
            return false;
        }
        let ghost b = self.colors();
        let xu = x as usize;
        let yu = y as usize;
        proof {
            lemma_lookup(b, self_piece, self.can_select_cells@, x as int, y as int);
            lemma_captures_inside(b, x as int, y as int, self_piece, 8);
        }
        let k = match get_enable_installation(&self.can_select_cells, xu, yu) {
            Some(k) => k,
            None => {
                return false;
            },
        };
        let ghost caps = captures(b, x as int, y as int, self_piece);
        assert(self.can_select_cells@[k as int].captures@ == caps);
        let n = self.can_select_cells[k].captures.len();
        let mut j: usize = 0;
        while j < n
            invariant
                self.cells@.len() == 64,
                b.len() == 64,
                j <= n,
                n == caps.len(),
                k < self.can_select_cells@.len(),
                self.can_select_cells@[k as int].captures@ == caps,
                forall|p: int| 0 <= p < caps.len() ==> (#[trigger] caps[p]).0 < 8 && caps[p].1 < 8,
                forall|i: int|
                    0 <= i < 64 ==> #[trigger] colors_of(self.cells@)[i] == if flips(caps.take(j as int), i) {
                        self_piece
                    } else {
                        b[i]
                    },
            decreases n - j,
        {
            let (cx, cy) = self.can_select_cells[k].captures[j];
            let c: usize = cx * 8 + cy;
            let ghost prev = colors_of(self.cells@);
            let mut cell = self.cells[c];
            cell.set_piece(self_piece);
            self.cells.set(c, cell);
            assert forall|i: int| 0 <= i < 64 implies #[trigger] colors_of(self.cells@)[i] == if flips(
                caps.take(j as int + 1),
                i,
            ) {
                self_piece
            } else {
                b[i]
            } by {
                let t0 = caps.take(j as int);
                let t1 = caps.take(j as int + 1);
                assert(t1[j as int] == caps[j as int]);
                assert(prev[i] == if flips(t0, i) {
                    self_piece
                } else {
                    b[i]
                });
                assert(colors_of(self.cells@)[i] == self.cells@[i].color);
                if flips(t0, i) {
                    let q = choose|q: int| 0 <= q < t0.len() && #[trigger] t0[q].0 * 8 + t0[q].1 == i;
                    assert(t1[q] == t0[q]);
                }
                if flips(t1, i) && i != c {
                    let q = choose|q: int| 0 <= q < t1.len() && #[trigger] t1[q].0 * 8 + t1[q].1 == i;
                    assert(t0[q] == t1[q]);
                }
                if i == c {
                    assert(t1[j as int].0 * 8 + t1[j as int].1 == i);
                }
            }
            j += 1;
        }
        assert(caps.take(n as int) =~= caps);
        let mut cell = self.cells[xu * 8 + yu];
        cell.set_piece(self_piece);
        let ghost pre = colors_of(self.cells@);
        self.cells.set(xu * 8 + yu, cell);
        assert forall|i: int| 0 <= i < 64 implies #[trigger] self.colors()[i] == placed(b, x as int, y as int, self_piece)[i] by {
            assert(self.colors()[i] == self.cells@[i].color);
            assert(pre[i] == if flips(caps, i) {
                self_piece
            } else {
                b[i]
            });
        }
        assert(self.colors() =~= placed(b, x as int, y as int, self_piece));
        let ghost after = self.colors();
        let mut c: usize = 0;
        while c < CELL_NUM
            invariant
                self.cells@.len() == 64,
                colors_of(self.cells@) == after,
                c <= 64,
                forall|i: int| 0 <= i < c ==> !(#[trigger] self.cells@[i]).can_place,
            decreases 64 - c,
        {
            let mut cell = self.cells[c];
            cell.set_can_place(false);
            self.cells.set(c, cell);
            assert(colors_of(self.cells@) =~= after);
            c += 1;
        }
        self.can_select_cells = Vec::new();
        self.turn = None;
        true
    }
}

} // verus!
