//! Moves and the controller capability: something that can produce the next
//! move for a game in progress.

use vstd::prelude::*;

use crate::game::Game;

pub mod player;
pub mod random;
pub mod simulated;

pub use player::PlayerController;
pub use random::RandomController;
pub use simulated::SimulatedController;

verus! {

/// One of the four directions a turn can push the board in.
#[allow(non_camel_case_types)]
#[derive(Clone, Copy, Debug, PartialEq, Eq, Structural)]
pub enum Move {
    LEFT,
    RIGHT,
    UP,
    DOWN,
}

impl Move {
    /// The unit step this move pushes tiles by.
    pub open spec fn spec_dir(self) -> (int, int) {
        match self {
            Move::LEFT => (-1, 0),
            Move::RIGHT => (1, 0),
            Move::UP => (0, -1),
            Move::DOWN => (0, 1),
        }
    }

    /// The move drawn for a uniform index in `0..4`.
    pub open spec fn spec_from_index(i: int) -> Move {
        if i == 0 {
            Move::DOWN
        } else if i == 1 {
            Move::LEFT
        } else if i == 2 {
            Move::RIGHT
        } else {
            Move::UP
        }
    }

    /// Every move, in the order candidate moves are enumerated.
    pub fn all() -> (r: [Move; 4])
        ensures
            r@.len() == 4,
            r@[0] == Move::LEFT,
            r@[1] == Move::RIGHT,
            r@[2] == Move::UP,
            r@[3] == Move::DOWN,
    {
        [Move::LEFT, Move::RIGHT, Move::UP, Move::DOWN]
    }

    /// The move for a uniformly drawn index: how a random draw in `0..4` is
    /// turned into a direction.
    pub fn from_index(i: usize) -> (r: Move)
        requires
            i < 4,
        ensures
            r == Move::spec_from_index(i as int),
    {
        match i {
            0 => Move::DOWN,
            1 => Move::LEFT,
            2 => Move::RIGHT,
            _ => Move::UP,
        }
    }
}

/// The one way a controller can fail: the player asked to quit.
#[derive(Clone, Copy, Debug, PartialEq, Eq, Structural)]
pub enum ControllerError {
    ExitSignal,
}

/// A decision-making agent: produces a move for the current game, or an
/// exit signal when it wants the run to end.
pub trait Controller {
    fn next_move(&mut self, game: &Game) -> Result<Move, ControllerError>
        requires
            game.wf(),
    ;
}

} // verus!
