//! The move-resolution engine and game state, exercised on concrete boards.

use rs48_lib::controller::Move;
use rs48_lib::game::{Displacement, Game, GameError, Rules, would_overflow};
use rs48_lib::grid::{Grid, Tile};

fn game_with(size: usize, spawn: usize, tiles: &[(usize, usize, usize)]) -> Game {
    let mut game = Game::new(Rules::default().size(size).spawn_per_turn(spawn));
    for &(x, y, v) in tiles {
        game.set_tile((x, y), Some(v));
    }
    game
}

fn value_at(game: &Game, x: usize, y: usize) -> Option<usize> {
    game.get_board().get_val((x, y))
}

fn count_tiles(game: &Game) -> usize {
    let board = game.get_board();
    let n = board.size();
    let mut count = 0;
    for x in 0..n {
        for y in 0..n {
            if board.get_val((x, y)).is_some() {
                count += 1;
            }
        }
    }
    count
}

#[test]
fn tile_basics() {
    let t = Tile::new_with_value(8);
    assert_eq!(t.value(), Some(8));
    assert!(!t.is_empty());
    let e = Tile::new_empty();
    assert_eq!(e.value(), None);
    assert!(e.is_empty());
}

#[test]
fn grid_starts_empty() {
    let g = Grid::new(4);
    assert_eq!(g.size(), 4);
    for x in 0..4 {
        for y in 0..4 {
            assert_eq!(g.get_val((x, y)), None);
        }
    }
    assert!(g.get((4, 0)).is_none());
    assert!(g.get((0, 4)).is_none());
}

#[test]
fn grid_set_get_move() {
    let mut g = Grid::new(3);
    g.set((1, 2), Some(8));
    assert_eq!(g.get_val((1, 2)), Some(8));
    g.move_tile((1, 2), (0, 0));
    assert_eq!(g.get_val((0, 0)), Some(8));
    assert_eq!(g.get_val((1, 2)), None);
    g.set((0, 0), None);
    assert_eq!(g.get_val((0, 0)), None);
}

#[test]
fn grid_biggest_and_sum() {
    let mut g = Grid::new(3);
    assert_eq!(g.biggest_value(), 0);
    assert_eq!(g.checked_sum(), Some(0));
    g.set((0, 0), Some(2));
    g.set((2, 1), Some(16));
    g.set((1, 2), Some(4));
    assert_eq!(g.biggest_value(), 16);
    assert_eq!(g.checked_sum(), Some(22));
}

#[test]
fn would_overflow_edges() {
    assert!(would_overflow(0, -1, 3));
    assert!(would_overflow(3, 1, 3));
    assert!(!would_overflow(0, 1, 3));
    assert!(!would_overflow(3, -1, 3));
    assert!(!would_overflow(2, 0, 3));
}

#[test]
fn displacement_slides_to_edge() {
    let mut g = Grid::new(4);
    g.set((3, 0), Some(2));
    let mut d = Displacement::new((3, 0), (-1, 0));
    d.move_all(&mut g);
    assert_eq!(g.get_val((0, 0)), Some(2));
    assert_eq!(g.get_val((3, 0)), None);
    assert_eq!(d.pop_score(), 0);
}

#[test]
fn single_tile_left_is_noop() {
    // one tile already on the target edge: the move changes nothing
    let mut game = game_with(4, 1, &[(0, 0, 2)]);
    let score = game.perform_move(Move::LEFT);
    assert_eq!(score, 0);
    assert_eq!(value_at(&game, 0, 0), Some(2));
    for x in 1..4 {
        for y in 0..4 {
            assert_eq!(value_at(&game, x, y), None);
        }
    }
    assert_eq!(game.get_score(), 0);
}

#[test]
fn adjacent_pair_merges_left() {
    let mut game = game_with(4, 1, &[(0, 0, 2), (1, 0, 2)]);
    let score = game.perform_move(Move::LEFT);
    assert_eq!(score, 4);
    assert_eq!(value_at(&game, 0, 0), Some(4));
    assert_eq!(value_at(&game, 1, 0), None);
    assert_eq!(value_at(&game, 2, 0), None);
    assert_eq!(value_at(&game, 3, 0), None);
}

#[test]
fn full_row_merges_in_pairs() {
    // [2, 2, 2, 2] pushed left becomes [4, 4, _, _] and scores twice four;
    // the two fresh fours do not merge again within the turn
    let mut game = game_with(4, 1, &[(0, 0, 2), (1, 0, 2), (2, 0, 2), (3, 0, 2)]);
    let score = game.perform_move(Move::LEFT);
    assert_eq!(score, 8);
    assert_eq!(value_at(&game, 0, 0), Some(4));
    assert_eq!(value_at(&game, 1, 0), Some(4));
    assert_eq!(value_at(&game, 2, 0), None);
    assert_eq!(value_at(&game, 3, 0), None);
}

#[test]
fn blocked_tile_does_not_merge() {
    // [4, 2, 2, _]: the four stays, the first two is blocked by it, the
    // second two merges onto the first; no tile quadruples
    let mut game = game_with(4, 1, &[(0, 0, 4), (1, 0, 2), (2, 0, 2)]);
    let score = game.perform_move(Move::LEFT);
    assert_eq!(score, 4);
    assert_eq!(value_at(&game, 0, 0), Some(4));
    assert_eq!(value_at(&game, 1, 0), Some(4));
    assert_eq!(value_at(&game, 2, 0), None);
}

#[test]
fn all_directions_resolve() {
    let mut game = game_with(4, 1, &[(0, 3, 2), (0, 0, 2)]);
    let score = game.perform_move(Move::DOWN);
    assert_eq!(score, 4);
    assert_eq!(value_at(&game, 0, 3), Some(4));
    assert_eq!(value_at(&game, 0, 0), None);

    let mut game = game_with(4, 1, &[(1, 1, 8), (3, 1, 8)]);
    let score = game.perform_move(Move::RIGHT);
    assert_eq!(score, 16);
    assert_eq!(value_at(&game, 3, 1), Some(16));

    let mut game = game_with(4, 1, &[(2, 1, 8), (2, 3, 4)]);
    let score = game.perform_move(Move::UP);
    assert_eq!(score, 0);
    assert_eq!(value_at(&game, 2, 0), Some(8));
    assert_eq!(value_at(&game, 2, 1), Some(4));
}

#[test]
fn merge_conserves_tile_sum() {
    let mut game = game_with(4, 1, &[(0, 0, 2), (1, 0, 2), (3, 0, 4), (2, 2, 8), (2, 3, 8)]);
    let before = game.get_board().checked_sum().unwrap();
    game.perform_move(Move::LEFT);
    let after_left = game.get_board().checked_sum().unwrap();
    assert_eq!(before, after_left);
    game.perform_move(Move::DOWN);
    let after_down = game.get_board().checked_sum().unwrap();
    assert_eq!(before, after_down);
}

#[test]
fn full_blocked_board_is_unchanged() {
    // alternating values admit no merge in any direction
    let mut tiles = Vec::new();
    for x in 0..4 {
        for y in 0..4 {
            let v = if (x + y) % 2 == 0 { 2 } else { 4 };
            tiles.push((x, y, v));
        }
    }
    let mut game = game_with(4, 1, &tiles);
    for movement in [Move::LEFT, Move::RIGHT, Move::UP, Move::DOWN] {
        let score = game.perform_move(movement);
        assert_eq!(score, 0);
        for &(x, y, v) in &tiles {
            assert_eq!(value_at(&game, x, y), Some(v));
        }
    }
    assert_eq!(game.get_score(), 0);
}

#[test]
fn turn_spawns_one_value_one_tile() {
    let mut game = Game::new(Rules::default().size(4).spawn_per_turn(1));
    let result = game.turn(Move::LEFT);
    assert!(result.is_ok());
    assert_eq!(game.get_turn_index(), 1);
    assert_eq!(game.get_score(), 0);
    assert_eq!(count_tiles(&game), 1);
    assert_eq!(game.get_board().checked_sum(), Some(1));
    assert_eq!(game.get_board().biggest_value(), 1);
}

#[test]
fn turn_spawns_configured_count() {
    let mut game = Game::new(Rules::default().size(4).spawn_per_turn(3));
    game.turn(Move::UP).unwrap();
    assert_eq!(count_tiles(&game), 3);
    game.turn(Move::UP).unwrap();
    assert!(count_tiles(&game) <= 6);
    assert_eq!(game.get_board().checked_sum(), Some(6));
}

#[test]
fn turn_on_full_blocked_board_fails() {
    let mut tiles = Vec::new();
    for x in 0..4 {
        for y in 0..4 {
            let v = if (x + y) % 2 == 0 { 2 } else { 4 };
            tiles.push((x, y, v));
        }
    }
    let mut game = game_with(4, 1, &tiles);
    let result = game.turn(Move::RIGHT);
    assert_eq!(result, Err(GameError::GridIsFull));
    assert_eq!(game.get_turn_index(), 0);
    assert_eq!(game.get_score(), 0);
    for &(x, y, v) in &tiles {
        assert_eq!(value_at(&game, x, y), Some(v));
    }
}

#[test]
fn failed_turn_keeps_partial_spawns() {
    // one empty cell but two spawns owed: the first spawn lands, the second
    // fails, and the turn is not rolled back
    let mut tiles = Vec::new();
    for x in 0..4 {
        for y in 0..4 {
            if (x, y) != (3, 3) {
                let v = if (x + y) % 2 == 0 { 2 } else { 4 };
                tiles.push((x, y, v));
            }
        }
    }
    let mut game = game_with(4, 2, &tiles);
    let result = game.turn(Move::LEFT);
    assert_eq!(result, Err(GameError::GridIsFull));
    assert_eq!(value_at(&game, 3, 3), Some(1));
    assert_eq!(count_tiles(&game), 16);
    assert_eq!(game.get_turn_index(), 0);
}

#[test]
fn spawn_random_fills_then_fails() {
    let mut game = Game::new(Rules::default().size(1).spawn_per_turn(1));
    assert!(game.spawn_random().is_ok());
    assert_eq!(value_at(&game, 0, 0), Some(1));
    assert_eq!(game.spawn_random(), Err(GameError::GridIsFull));
}

#[test]
fn clone_is_a_deep_copy() {
    let game = game_with(4, 1, &[(2, 2, 32)]);
    let mut copy = game.clone();
    copy.set_tile((0, 0), Some(64));
    copy.perform_move(Move::LEFT);
    assert_eq!(value_at(&game, 0, 0), None);
    assert_eq!(value_at(&game, 2, 2), Some(32));
    assert_eq!(value_at(&copy, 0, 0), Some(64));
}

#[test]
fn score_accumulates_over_turns() {
    let mut game = game_with(2, 0, &[(0, 0, 2), (1, 0, 2)]);
    game.turn(Move::LEFT).unwrap();
    assert_eq!(game.get_score(), 4);
    assert_eq!(game.get_turn_index(), 1);
    // with no spawns the lone four cannot merge again
    game.turn(Move::LEFT).unwrap();
    assert_eq!(game.get_score(), 4);
    assert_eq!(game.get_turn_index(), 2);
}

#[test]
fn rules_builders_configure_the_game() {
    let game = Game::new(Rules::default().size(6).spawn_per_turn(2));
    assert_eq!(game.get_board().size(), 6);
    let mut game = game;
    game.turn(Move::LEFT).unwrap();
    assert_eq!(count_tiles(&game), 2);
}
