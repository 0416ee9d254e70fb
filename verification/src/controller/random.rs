//! The uniformly random agent.

use vstd::prelude::*;

use crate::controller::{Controller, ControllerError, Move};
use crate::game::Game;
use crate::rng::random_below;

verus! {

/// Picks each of the four moves with probability one quarter; never fails.
#[derive(Clone, Copy, Debug)]
pub struct RandomController;

impl RandomController {
    pub fn new() -> (c: Self) {
        Self
    }
}

impl Default for RandomController {
    fn default() -> (c: Self) {
        Self
    }
}

impl Controller for RandomController {
    /// Uniform choice never fails.
    fn next_move(&mut self, _game: &Game) -> (r: Result<Move, ControllerError>)
        ensures
            r is Ok,
    {
        Ok(Move::from_index(random_below(4)))
    }
}

} // verus!
