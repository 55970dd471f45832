use othello::board::Board;
use othello::cell::{Cell, Color};
use othello::game::{Game, Outcome, State};
use othello::player;
use othello::test1;

fn grid(pieces: &[(usize, usize, Color)], fill: Color) -> Vec<Color> {
    let mut colors = vec![fill; 64];
    for &(x, y, c) in pieces {
        colors[x * 8 + y] = c;
    }
    colors
}

fn board_of(pieces: &[(usize, usize, Color)], fill: Color) -> Board {
    Board::from_colors(&grid(pieces, fill)).unwrap()
}

#[test]
fn fresh_reset_counts() {
    let g = Game::new();
    assert_eq!(g.board().get_piece_count(Color::BLACK), 2);
    assert_eq!(g.board().get_piece_count(Color::WHITE), 2);
    assert_eq!(g.board().get_piece_count(Color::NONE), 60);
    assert_eq!(g.get_state(), State::TurnStart);
    assert_eq!(g.get_player(), player::Color::BLACK);
    assert_eq!(g.get_skip_count(), 0);
    assert_eq!(g.board().get_piece(3, 3), Color::WHITE);
    assert_eq!(g.board().get_piece(4, 4), Color::WHITE);
    assert_eq!(g.board().get_piece(3, 4), Color::BLACK);
    assert_eq!(g.board().get_piece(4, 3), Color::BLACK);
}

#[test]
fn opening_move_flips_one_piece() {
    let mut g = Game::new();
    g.update();
    assert_eq!(g.get_state(), State::TurnInProgress);
    assert!(g.turn_update(2, 3));
    assert_eq!(g.get_state(), State::TurnResolved);
    assert_eq!(g.board().get_piece(2, 3), Color::BLACK);
    assert_eq!(g.board().get_piece(3, 3), Color::BLACK);
    assert_eq!(g.board().get_piece_count(Color::BLACK), 4);
    assert_eq!(g.board().get_piece_count(Color::WHITE), 1);
    g.update();
    assert_eq!(g.get_state(), State::TurnStart);
    assert_eq!(g.get_player(), player::Color::WHITE);
}

#[test]
fn first_side_passes_second_moves() {
    let b = board_of(&[(0, 0, Color::WHITE), (0, 1, Color::BLACK)], Color::NONE);
    assert!(b.compute_legal_moves(Color::BLACK).is_empty());
    assert!(!b.compute_legal_moves(Color::WHITE).is_empty());
    let mut g = Game::from_board(b, player::Color::BLACK);
    g.update();
    assert_eq!(g.get_state(), State::TurnResolved);
    assert_eq!(g.get_skip_count(), 1);
    g.update();
    assert_eq!(g.get_state(), State::TurnStart);
    assert_eq!(g.get_player(), player::Color::WHITE);
    g.update();
    assert_eq!(g.get_state(), State::TurnInProgress);
    assert_eq!(g.get_skip_count(), 0);
    assert!(g.turn_update(0, 2));
    assert_eq!(g.board().get_piece(0, 1), Color::WHITE);
}

#[test]
fn neither_side_moves_ends_in_draw() {
    let b = board_of(&[(0, 0, Color::BLACK), (7, 7, Color::WHITE)], Color::NONE);
    let mut g = Game::from_board(b, player::Color::BLACK);
    g.update();
    assert_eq!(g.get_state(), State::TurnResolved);
    g.update();
    assert_eq!(g.get_state(), State::TurnStart);
    g.update();
    assert_eq!(g.get_skip_count(), 2);
    assert_eq!(g.get_state(), State::GameOver(Outcome::Draw));
    assert_eq!(g.result(), Outcome::Draw);
}

#[test]
fn neither_side_moves_black_wins() {
    let b = board_of(
        &[(0, 0, Color::BLACK), (7, 0, Color::BLACK), (7, 7, Color::WHITE)],
        Color::NONE,
    );
    let mut g = Game::from_board(b, player::Color::BLACK);
    g.update();
    g.update();
    g.update();
    assert_eq!(g.get_skip_count(), 2);
    assert_eq!(g.get_state(), State::GameOver(Outcome::Win(player::Color::BLACK)));
    g.update();
    assert_eq!(g.get_state(), State::GameOver(Outcome::Win(player::Color::BLACK)));
}

#[test]
fn full_board_ends_match() {
    let b = board_of(&[(0, 0, Color::NONE), (0, 2, Color::BLACK)], Color::WHITE);
    let mut g = Game::from_board(b, player::Color::BLACK);
    g.update();
    assert_eq!(g.get_state(), State::TurnInProgress);
    assert!(g.turn_update(0, 0));
    assert_eq!(g.board().get_piece_count(Color::NONE), 0);
    assert_eq!(g.board().get_piece_count(Color::BLACK), 3);
    assert_eq!(g.board().get_piece_count(Color::WHITE), 61);
    g.update();
    assert_eq!(g.get_state(), State::GameOver(Outcome::Win(player::Color::WHITE)));
    assert_eq!(g.get_skip_count(), 0);
}

#[test]
fn full_board_after_pass_ends_match() {
    let b = board_of(&[(0, 0, Color::WHITE)], Color::BLACK);
    let mut g = Game::from_board(b, player::Color::WHITE);
    g.update();
    assert_eq!(g.get_state(), State::TurnResolved);
    g.update();
    assert_eq!(g.get_state(), State::GameOver(Outcome::Win(player::Color::BLACK)));
    assert_eq!(g.get_skip_count(), 1);
}

#[test]
fn counts_sum_to_sixty_four() {
    let mut g = Game::new();
    let moves = [(2, 3), (2, 2), (3, 2)];
    for &(x, y) in moves.iter() {
        g.update();
        assert!(g.turn_update(x, y));
        g.update();
        let b = g.board();
        let total = b.get_piece_count(Color::BLACK)
            + b.get_piece_count(Color::WHITE)
            + b.get_piece_count(Color::NONE);
        assert_eq!(total, 64);
    }
    assert_eq!(g.board().get_piece_count(Color::NONE), 57);
}

#[test]
fn opening_legal_moves() {
    let mut b = Board::new();
    b.init();
    let moves = b.compute_legal_moves(Color::BLACK);
    let targets: Vec<(usize, usize)> = moves.iter().map(|m| (m.x, m.y)).collect();
    assert_eq!(targets, vec![(2, 3), (3, 2), (4, 5), (5, 4)]);
    assert_eq!(moves[0].captures, vec![(3, 3)]);
    assert_eq!(moves[1].captures, vec![(3, 3)]);
    assert_eq!(moves[2].captures, vec![(4, 4)]);
    assert_eq!(moves[3].captures, vec![(4, 4)]);
    for m in moves.iter() {
        assert_eq!(b.get_piece(m.x, m.y), Color::NONE);
    }
    let white: Vec<(usize, usize)> = b
        .compute_legal_moves(Color::WHITE)
        .iter()
        .map(|m| (m.x, m.y))
        .collect();
    assert_eq!(white, vec![(2, 4), (3, 5), (4, 2), (5, 3)]);
}

fn brute_force_legal(b: &Board, x: usize, y: usize, side: Color) -> bool {
    if b.get_piece(x, y) != Color::NONE {
        return false;
    }
    let dirs: [(i32, i32); 8] = [(0, -1), (1, -1), (1, 0), (1, 1), (0, 1), (-1, 1), (-1, 0), (-1, -1)];
    for &(dx, dy) in dirs.iter() {
        let (mut cx, mut cy) = (x as i32 + dx, y as i32 + dy);
        let mut seen = 0;
        while (0..8).contains(&cx) && (0..8).contains(&cy) {
            let c = b.get_piece(cx as usize, cy as usize);
            if c == Color::NONE {
                break;
            }
            if c == side {
                if seen > 0 {
                    return true;
                }
                break;
            }
            seen += 1;
            cx += dx;
            cy += dy;
        }
    }
    false
}

#[test]
fn legal_moves_match_brute_force_scan() {
    let mut g = Game::new();
    for _ in 0..20 {
        for side in [Color::BLACK, Color::WHITE] {
            let b = g.board();
            let moves = b.compute_legal_moves(side);
            for x in 0..8usize {
                for y in 0..8usize {
                    let listed = moves.iter().any(|m| m.x == x && m.y == y);
                    assert_eq!(listed, brute_force_legal(b, x, y, side));
                }
            }
        }
        g.update();
        if g.get_state() == State::TurnInProgress {
            let side = g.transform_color();
            let m = g.board().compute_legal_moves(side).last().unwrap().clone();
            assert!(g.board().can_place(m.x, m.y));
            assert!(g.turn_update(m.x as i32, m.y as i32));
            for &(cx, cy) in m.captures.iter() {
                assert_eq!(g.board().get_piece(cx, cy), side);
            }
            g.update();
        }
    }
}

#[test]
fn capture_in_several_directions() {
    let b = board_of(
        &[
            (3, 2, Color::WHITE),
            (3, 1, Color::WHITE),
            (3, 0, Color::WHITE),
            (4, 3, Color::WHITE),
            (5, 3, Color::BLACK),
            (4, 4, Color::BLACK),
            (3, 4, Color::WHITE),
            (3, 5, Color::BLACK),
            (2, 3, Color::WHITE),
            (2, 2, Color::WHITE),
            (1, 1, Color::BLACK),
        ],
        Color::NONE,
    );
    let moves = b.compute_legal_moves(Color::BLACK);
    let m = moves.iter().find(|m| m.x == 3 && m.y == 3).unwrap();
    assert_eq!(m.captures, vec![(4, 3), (3, 4), (2, 2)]);
    let mut g = Game::from_board(b, player::Color::BLACK);
    g.update();
    assert!(g.turn_update(3, 3));
    let b = g.board();
    for &(x, y) in [(3, 3), (4, 3), (3, 4), (2, 2)].iter() {
        assert_eq!(b.get_piece(x, y), Color::BLACK);
    }
    for &(x, y) in [(3, 2), (3, 1), (3, 0), (2, 3)].iter() {
        assert_eq!(b.get_piece(x, y), Color::WHITE);
    }
    assert_eq!(b.get_piece_count(Color::BLACK), 8);
    assert_eq!(b.get_piece_count(Color::WHITE), 4);
}

#[test]
fn rejected_placements_change_nothing() {
    let mut g = Game::new();
    assert!(!g.turn_update(2, 3));
    assert_eq!(g.get_state(), State::TurnStart);
    g.update();
    for &(x, y) in [(3, 3), (4, 3), (-1, 0), (0, -1), (8, 0), (0, 8), (0, 0), (2, 2)].iter() {
        assert!(!g.turn_update(x, y));
        assert_eq!(g.get_state(), State::TurnInProgress);
        assert_eq!(g.board().get_piece_count(Color::BLACK), 2);
        assert_eq!(g.board().get_piece_count(Color::WHITE), 2);
        assert_eq!(g.board().get_piece(3, 3), Color::WHITE);
    }
    assert!(g.board().can_place(2, 3));
    assert!(!g.board().can_place(0, 0));
    assert!(g.turn_update(2, 3));
    assert!(!g.turn_update(3, 2));
    assert!(!g.board().can_place(3, 2));
}

#[test]
fn board_rejects_other_side_and_spent_moves() {
    let mut b = Board::new();
    b.init();
    assert!(!b.set_piece(2, 3, Color::BLACK));
    assert!(b.init_turn(Color::BLACK));
    assert!(b.there_is_select_cells());
    assert!(!b.set_piece(2, 4, Color::WHITE));
    assert!(b.can_piece(2, 3, Color::BLACK));
    assert!(!b.can_piece(2, 3, Color::WHITE));
    assert!(b.set_piece(2, 3, Color::BLACK));
    assert!(!b.there_is_select_cells());
    assert!(!b.set_piece(2, 2, Color::WHITE));
    assert!(b.init_turn(Color::WHITE));
    assert!(b.set_piece(2, 2, Color::WHITE));
    assert_eq!(b.get_piece(3, 3), Color::WHITE);
}

#[test]
fn reset_restores_opening() {
    let mut g = Game::new();
    g.update();
    assert!(g.turn_update(2, 3));
    g.update();
    g.reset();
    assert_eq!(g.get_state(), State::TurnStart);
    assert_eq!(g.get_player(), player::Color::BLACK);
    assert_eq!(g.get_skip_count(), 0);
    assert_eq!(g.board().get_piece_count(Color::BLACK), 2);
    assert_eq!(g.board().get_piece_count(Color::WHITE), 2);
    assert_eq!(g.board().get_piece(2, 3), Color::NONE);
    let mut h = Game::new();
    h.update();
    h.init();
    assert_eq!(h.get_state(), State::TurnStart);
}

#[test]
fn board_construction_and_queries() {
    assert!(Board::from_colors(&vec![Color::NONE; 63]).is_none());
    assert!(Board::from_colors(&vec![Color::NONE; 65]).is_none());
    let b = Board::new();
    assert_eq!(b.get_piece_count(Color::NONE), 64);
    assert!(b.compute_legal_moves(Color::BLACK).is_empty());
    assert!(b.is_inside(0, 0));
    assert!(b.is_inside(7, 7));
    assert!(!b.is_inside(8, 7));
    assert!(!b.is_inside(-1, 3));
    assert!(b.is_open(4, 4));
    assert_eq!(b.get_enemy_piece(Color::BLACK), Color::WHITE);
    assert_eq!(b.get_enemy_piece(Color::WHITE), Color::BLACK);
    assert_eq!(b.get_enemy_piece(Color::NONE), Color::NONE);
}

#[test]
fn sides_and_cells() {
    assert_eq!(player::Color::BLACK.piece(), Color::BLACK);
    assert_eq!(player::Color::WHITE.piece(), Color::WHITE);
    assert_eq!(player::Color::BLACK.opponent(), player::Color::WHITE);
    assert_eq!(player::Color::WHITE.opponent(), player::Color::BLACK);
    let mut c = Cell::new(Color::NONE);
    assert!(!c.get_can_place());
    c.set_piece(Color::WHITE);
    c.set_can_place(true);
    assert_eq!(c.get_piece(), Color::WHITE);
    assert!(c.get_can_place());
    let g = Game::new();
    assert_eq!(g.transform_color(), Color::BLACK);
}

#[test]
fn clamped_sum() {
    assert_eq!(test1(1, 2, 10), 3);
    assert_eq!(test1(5, 6, 10), 10);
    assert_eq!(test1(-5, 2, 0), -3);
}
