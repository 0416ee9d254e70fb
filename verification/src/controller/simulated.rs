//! The Monte-Carlo rollout agent: estimates each candidate move by the
//! average score gained over many randomized playouts, then plays the best
//! candidate, ties going to the earliest candidate in enumeration order.

use vstd::prelude::*;

use rayon::prelude::{IntoParallelIterator, ParallelIterator};

use crate::controller::{Controller, ControllerError, Move};
use crate::game::Game;

verus! {

/// Sum of the first `i` recorded playout deltas.
pub open spec fn deltas_sum_to(s: Seq<usize>, i: int) -> int
    decreases i,
{
    if i <= 0 {
        0
    } else {
        deltas_sum_to(s, i - 1) + s[i - 1]
    }
}

/// Sum of all recorded playout deltas.
pub open spec fn deltas_sum(s: Seq<usize>) -> int {
    deltas_sum_to(s, s.len() as int)
}

/// The candidate move evaluated in position `i`: the enumeration order of
/// `Move::all`, which also breaks ties (the earliest maximal average wins).
pub open spec fn candidate(i: int) -> Move {
    if i == 0 {
        Move::LEFT
    } else if i == 1 {
        Move::RIGHT
    } else if i == 2 {
        Move::UP
    } else {
        Move::DOWN
    }
}

/// The rollout agent's configuration: how many playouts to run per candidate
/// move, and how many turns each playout lasts.
pub struct SimulatedController {
    simulations_per_move: usize,
    length_of_simulation: usize,
}

impl SimulatedController {
    /// The average over zero playouts is undefined, so a zero playout count
    /// is rejected at construction.
    #[verifier::type_invariant]
    pub closed spec fn inv(&self) -> bool {
        self.simulations_per_move >= 1
    }

    pub closed spec fn spec_simulations_per_move(&self) -> usize {
        self.simulations_per_move
    }

    pub closed spec fn spec_length_of_simulation(&self) -> usize {
        self.length_of_simulation
    }

    pub fn new(simulations_per_move: usize, length_of_simulation: usize) -> (c: Self)
        requires
            simulations_per_move >= 1,
        ensures
            c.spec_simulations_per_move() == simulations_per_move,
            c.spec_length_of_simulation() == length_of_simulation,
    {
        Self { simulations_per_move, length_of_simulation }
    }

    /// The winning candidate for the four averages: the first one no other
    /// average exceeds, in the order `Move::all` enumerates.
    pub fn best_move(averages: [usize; 4]) -> (m: Move)
        ensures
            exists|i: int|
                {
                    &&& 0 <= i < 4
                    &&& m == #[trigger] candidate(i)
                    &&& forall|j: int| 0 <= j < 4 ==> averages@[j] <= averages@[i]
                    &&& forall|j: int| 0 <= j < i ==> averages@[j] < averages@[i]
                },
    {
        let mut best: usize = averages[0];
        let mut m = Move::LEFT;
        let ghost mut bi: int = 0;
        if averages[1] > best {
            best = averages[1];
            m = Move::RIGHT;
            proof {
                bi = 1;
            }
        }
        if averages[2] > best {
            best = averages[2];
            m = Move::UP;
            proof {
                bi = 2;
            }
        }
        if averages[3] > best {
            best = averages[3];
            m = Move::DOWN;
            proof {
                bi = 3;
            }
        }
        proof {
            assert(0 <= bi < 4 && m == candidate(bi) && best == averages@[bi]);
        }
        m
    }
}

/// One randomized continuation of the game: apply the candidate move (a
/// failed application merely leaves the copy as it was), then keep playing
/// uniformly random moves until the playout length is exhausted or a turn
/// fails, and report how much the score grew. A turn that could overflow the
/// score or turn counters also stops the playout early.
fn playout(game: &Game, initial_move: Move, length: usize) -> (delta: usize)
    requires
        game.wf(),
{
    let initial_score = game.get_score();
    let mut sim = game.clone();
    if sim.turn_safe() {
        let _ = sim.turn(initial_move);
    }
    let mut controller = crate::controller::RandomController::new();
    let mut step: usize = 1;
    while step < length
        invariant
            sim.wf(),
            initial_score == game@.score,
            sim@.score >= initial_score,
        ensures
            sim.wf(),
            sim@.score >= initial_score,
        decreases length - step,
    {
        let movement = match controller.next_move(&sim) {
            Ok(m) => m,
            Err(_) => {
                break ;
            },
        };
        if !sim.turn_safe() {
            break ;
        }
        match sim.turn(movement) {
            Ok(()) => {},
            Err(_) => {
                break ;
            },
        }
        step += 1;
    }
    sim.get_score() - initial_score
}

/// Relies on rayon's parallel iterators (`into_par_iter`, `map`, `collect`):
/// runs `count` independent playouts, possibly concurrently, and collects
/// their score deltas. Each element is the result of one `playout` call.
#[verifier::external_body]
fn run_playouts(game: &Game, initial_move: Move, length: usize, count: usize) -> (r: Vec<usize>)
    requires
        game.wf(),
    ensures
        r@.len() == count,
{
    (0..count).into_par_iter().map(|_| playout(game, initial_move, length)).collect()
}

/// The integer average of the recorded playout deltas.
fn average_delta(deltas: &Vec<usize>) -> (avg: usize)
    requires
        deltas@.len() >= 1,
    ensures
        avg == deltas_sum(deltas@) / (deltas@.len() as int),
{
    let mut total: u128 = 0;
    let mut i: usize = 0;
    while i < deltas.len()
        invariant
            i <= deltas@.len(),
            total == deltas_sum_to(deltas@, i as int),
            total <= i * (usize::MAX as int),
        decreases deltas@.len() - i,
    {
        let d = deltas[i];
        proof {
            assert((i + 1) * (usize::MAX as int) == i * (usize::MAX as int) + usize::MAX as int)
                by (nonlinear_arith);
        }
        total = total + (d as u128);
        i += 1;
    }
    let count = deltas.len() as u128;
    let avg = total / count;
    proof {
        vstd::arithmetic::div_mod::lemma_div_is_ordered(
            total as int,
            deltas@.len() * (usize::MAX as int),
            deltas@.len() as int,
        );
        vstd::arithmetic::div_mod::lemma_div_by_multiple(
            usize::MAX as int,
            deltas@.len() as int,
        );
    }
    avg as usize
}

impl Controller for SimulatedController {
    /// Estimate all four candidate moves by their average playout gain and
    /// play the best one; the rollout agent itself never fails, and its
    /// configuration is left untouched (playouts run on private copies of
    /// the game).
    fn next_move(&mut self, game: &Game) -> (r: Result<Move, ControllerError>)
        ensures
            r is Ok,
            final(self).spec_simulations_per_move() == old(self).spec_simulations_per_move(),
            final(self).spec_length_of_simulation() == old(self).spec_length_of_simulation(),
    {
        proof {
            use_type_invariant(&*self);
        }
        let a0 = average_delta(
            &run_playouts(game, Move::LEFT, self.length_of_simulation, self.simulations_per_move),
        );
        let a1 = average_delta(
            &run_playouts(game, Move::RIGHT, self.length_of_simulation, self.simulations_per_move),
        );
        let a2 = average_delta(
            &run_playouts(game, Move::UP, self.length_of_simulation, self.simulations_per_move),
        );
        let a3 = average_delta(
            &run_playouts(game, Move::DOWN, self.length_of_simulation, self.simulations_per_move),
        );
        Ok(Self::best_move([a0, a1, a2, a3]))
    }
}

} // verus!
