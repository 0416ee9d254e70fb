//! The controllers: uniform random choice, the rollout agent and its
//! tie-break, and the command-line parameter mapping.

use rand::{Rng, SeedableRng};

use rs48_lib::cli::{Arguments, ControllerParam};
use rs48_lib::controller::{Controller, ControllerError, Move, PlayerController, RandomController,
    SimulatedController};
use rs48_lib::game::{Game, GameError, Rules};

#[test]
fn move_all_enumerates_in_order() {
    assert_eq!(
        Move::all(),
        [Move::LEFT, Move::RIGHT, Move::UP, Move::DOWN]
    );
}

#[test]
fn move_from_index_mapping() {
    assert_eq!(Move::from_index(0), Move::DOWN);
    assert_eq!(Move::from_index(1), Move::LEFT);
    assert_eq!(Move::from_index(2), Move::RIGHT);
    assert_eq!(Move::from_index(3), Move::UP);
}

#[test]
fn random_controller_never_fails() {
    let game = Game::new(Rules::default());
    let mut controller = RandomController::new();
    for _ in 0..100 {
        assert!(controller.next_move(&game).is_ok());
    }
}

#[test]
fn seeded_draws_spread_over_all_moves() {
    // a fixed-seed uniform source pushed through the index-to-move mapping
    // gives an approximately uniform move distribution
    let mut rng = rand::rngs::StdRng::seed_from_u64(42);
    let mut counts = [0usize; 4];
    for _ in 0..10_000 {
        let movement = Move::from_index(rng.gen_range(0..4));
        let slot = match movement {
            Move::LEFT => 0,
            Move::RIGHT => 1,
            Move::UP => 2,
            Move::DOWN => 3,
        };
        counts[slot] += 1;
    }
    assert_eq!(counts.iter().sum::<usize>(), 10_000);
    for &c in &counts {
        assert!(c > 2200 && c < 2800, "move counts far from uniform: {counts:?}");
    }
}

#[test]
fn random_controller_distribution_roughly_uniform() {
    let game = Game::new(Rules::default());
    let mut controller = RandomController::new();
    let mut counts = [0usize; 4];
    for _ in 0..10_000 {
        let slot = match controller.next_move(&game).unwrap() {
            Move::LEFT => 0,
            Move::RIGHT => 1,
            Move::UP => 2,
            Move::DOWN => 3,
        };
        counts[slot] += 1;
    }
    for &c in &counts {
        assert!(c > 2100 && c < 2900, "move counts far from uniform: {counts:?}");
    }
}

#[test]
fn best_move_prefers_earliest_maximum() {
    // ties go to the first candidate in enumeration order
    assert_eq!(SimulatedController::best_move([5, 5, 3, 1]), Move::LEFT);
    assert_eq!(SimulatedController::best_move([1, 5, 5, 5]), Move::RIGHT);
    assert_eq!(SimulatedController::best_move([0, 0, 0, 0]), Move::LEFT);
    assert_eq!(SimulatedController::best_move([1, 2, 3, 4]), Move::DOWN);
    assert_eq!(SimulatedController::best_move([1, 2, 9, 4]), Move::UP);
}

#[test]
fn simulated_controller_produces_a_move() {
    let mut game = Game::new(Rules::default().size(4).spawn_per_turn(1));
    game.set_tile((0, 0), Some(2));
    game.set_tile((1, 0), Some(2));
    let mut controller = SimulatedController::new(5, 4);
    let result = controller.next_move(&game);
    assert!(result.is_ok());
}

#[test]
fn simulated_controller_plays_full_turns() {
    let mut game = Game::new(Rules::default().size(4).spawn_per_turn(1));
    let mut controller = SimulatedController::new(3, 3);
    for _ in 0..5 {
        let movement = controller.next_move(&game).unwrap();
        game.turn(movement).unwrap();
    }
    assert_eq!(game.get_turn_index(), 5);
}

#[test]
fn player_controller_is_constructible() {
    let _ = PlayerController::new();
}

#[test]
fn controller_errors_compare() {
    assert_eq!(ControllerError::ExitSignal, ControllerError::ExitSignal);
    assert_eq!(
        GameError::ControllerError(ControllerError::ExitSignal),
        GameError::ControllerError(ControllerError::ExitSignal)
    );
    assert_ne!(
        GameError::GridIsFull,
        GameError::ControllerError(ControllerError::ExitSignal)
    );
}

#[test]
fn controller_param_parses_known_names() {
    assert_eq!("player".parse::<ControllerParam>(), Ok(ControllerParam::Player));
    assert_eq!("random".parse::<ControllerParam>(), Ok(ControllerParam::Random));
    assert_eq!("simulated".parse::<ControllerParam>(), Ok(ControllerParam::Simulated));
    let err = "bogus".parse::<ControllerParam>().unwrap_err();
    assert_eq!(err, "failed to parse 'bogus' into a 'ControllerParam'");
}

#[test]
fn controller_param_names_round_trip() {
    for param in [
        ControllerParam::Player,
        ControllerParam::Random,
        ControllerParam::Simulated,
    ] {
        assert_eq!(param.name().parse::<ControllerParam>(), Ok(param));
    }
}

#[test]
fn arguments_defaults() {
    let args = Arguments::default();
    assert_eq!(args.size, 4);
    assert_eq!(args.spawn, 1);
    assert!(!args.no_clear);
    assert_eq!(args.display_skips, 0);
    assert_eq!(args.delay, 0);
    assert_eq!(args.controller, ControllerParam::Player);
    assert_eq!(args.color_seed, 35);
}
