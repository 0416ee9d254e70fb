//! The text renderer and the run manager's bookkeeping.

use rs48_lib::controller::RandomController;
use rs48_lib::game::{GameError, Rules as GameRules};
use rs48_lib::game_manager::{GameManager, Rules as ManagerRules};
use rs48_lib::grid::{Grid, Tile};
use rs48_lib::grid_displayer::{GridDisplayer, TileDisplayer};
use rs48_lib::text::{decimal_string, pad_both, pad_left};

#[test]
fn decimal_rendering() {
    assert_eq!(decimal_string(0), "0");
    assert_eq!(decimal_string(7), "7");
    assert_eq!(decimal_string(10), "10");
    assert_eq!(decimal_string(12345), "12345");
    assert_eq!(decimal_string(1000000), "1000000");
}

#[test]
fn padding_left() {
    assert_eq!(pad_left("7".to_string(), 4), "   7");
    assert_eq!(pad_left("12345".to_string(), 4), "12345");
    assert_eq!(pad_left("".to_string(), 2), "  ");
}

#[test]
fn padding_both_centres_and_cuts() {
    assert_eq!(pad_both("2".to_string(), 7), "   2   ");
    assert_eq!(pad_both("16".to_string(), 7), "   16  ");
    assert_eq!(pad_both("128".to_string(), 7), "  128  ");
    assert_eq!(pad_both("abcdefgh".to_string(), 7), "abcdefg");
}

#[test]
fn tile_text() {
    assert_eq!(
        Tile::new_empty().display(),
        "       \n       \n       "
    );
    assert_eq!(
        Tile::new_with_value(2).display(),
        "┌─   ─┐\n   2   \n└─   ─┘"
    );
    let displayer = TileDisplayer::new(35);
    assert_eq!(
        displayer.display(&Tile::new_with_value(16)),
        "┌─   ─┐\n   16  \n└─   ─┘"
    );
}

#[test]
fn grid_text_two_by_two() {
    let mut grid = Grid::new(2);
    grid.set((0, 0), Some(2));
    grid.set((1, 1), Some(4));
    let expected = "┌───────┬───────┐\n│┌─   ─┐│       │\n│   2   │       │\n│└─   ─┘│       │\n├───────┼───────┤\n│       │┌─   ─┐│\n│       │   4   │\n│       │└─   ─┘│\n└───────┴───────┘\n";
    let displayer = GridDisplayer::new(0);
    assert_eq!(displayer.display(&grid), expected);
    assert_eq!(grid.display(), expected);
}

#[test]
fn manager_headline() {
    let manager = GameManager::new(
        GameRules::default(),
        ManagerRules::default(),
        RandomController::new(),
    );
    let headline = manager.get_headline_display();
    assert_eq!(
        headline,
        format!(
            "score: {:>12} | biggest tile: {:>12} | turn: {:>12}",
            0, 0, 0
        )
    );
}

#[test]
fn manager_display_skip_counter() {
    let mut manager = GameManager::new(
        GameRules::default(),
        ManagerRules::default().display_skips(2),
        RandomController::new(),
    );
    assert!(manager.display_conditionnally());
    assert!(!manager.display_conditionnally());
    assert!(!manager.display_conditionnally());
    assert!(manager.display_conditionnally());
}

#[test]
fn manager_display_disabled() {
    let mut manager = GameManager::new(
        GameRules::default(),
        ManagerRules::default().display(false),
        RandomController::new(),
    );
    assert!(!manager.display_conditionnally());
    assert!(!manager.display_conditionnally());
}

#[test]
fn manager_runs_a_tiny_game_to_the_end() {
    // a one-cell board fills after one turn; the run always ends in an error
    let mut manager = GameManager::new(
        GameRules::default().size(1).spawn_per_turn(1),
        ManagerRules::default().display(false),
        RandomController::new(),
    );
    let result = manager.play_all();
    assert_eq!(result, Err(GameError::GridIsFull));
    assert_eq!(manager.game().get_turn_index(), 1);
}

#[test]
fn manager_turns_advance_the_game() {
    let mut manager = GameManager::new(
        GameRules::default().size(4).spawn_per_turn(1),
        ManagerRules::default(),
        RandomController::new(),
    );
    for _ in 0..3 {
        manager.game_turn().unwrap();
    }
    assert_eq!(manager.game().get_turn_index(), 3);
    let text = manager.grid_display();
    assert!(text.contains('┌'));
}

#[test]
fn turn_safe_guards_machine_bounds() {
    // a board whose doubled sum cannot fit a machine word makes the next
    // turn unaccountable, and the guard says so
    let mut game = rs48_lib::game::Game::new(GameRules::default());
    assert!(game.turn_safe());
    game.set_tile((0, 0), Some(usize::MAX));
    assert!(!game.turn_safe());
    game.set_tile((0, 0), Some(2));
    assert!(game.turn_safe());
}
