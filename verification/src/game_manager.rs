//! Orchestration of a whole run: a game, the controller that steers it, and
//! the pacing and display bookkeeping around turns. Printing, clearing the
//! terminal and sleeping are the embedding program's work; the manager
//! decides when a frame is due and what one turn does.

use vstd::prelude::*;

use crate::controller::{Controller, Move};
use crate::game::{Game, GameError};
use crate::grid::{cell, in_bounds, is_full, tile_val, Cells};
use crate::grid_displayer::GridDisplayer;
use crate::text::{decimal_string, pad_left, spec_decimal, spec_pad_left};

verus! {

/// Presentation and pacing settings of a managed run.
pub struct Rules {
    display: bool,
    display_skips: usize,
    clear_term: bool,
    color_seed: u16,
    turn_duration_ms: u64,
}

impl Rules {
    pub closed spec fn spec_display(&self) -> bool {
        self.display
    }

    pub closed spec fn spec_display_skips(&self) -> usize {
        self.display_skips
    }

    pub closed spec fn spec_clear_term(&self) -> bool {
        self.clear_term
    }

    pub closed spec fn spec_color_seed(&self) -> u16 {
        self.color_seed
    }

    pub closed spec fn spec_turn_duration(&self) -> u64 {
        self.turn_duration_ms
    }

    /// Whether to display the game at all.
    pub fn display(self, display: bool) -> (r: Self)
        ensures
            r.spec_display() == display,
            r.spec_display_skips() == self.spec_display_skips(),
            r.spec_clear_term() == self.spec_clear_term(),
            r.spec_color_seed() == self.spec_color_seed(),
            r.spec_turn_duration() == self.spec_turn_duration(),
    {
        Self { display, ..self }
    }

    /// How many turns to skip the display of, between drawn frames.
    pub fn display_skips(self, display_skips: usize) -> (r: Self)
        ensures
            r.spec_display() == self.spec_display(),
            r.spec_display_skips() == display_skips,
            r.spec_clear_term() == self.spec_clear_term(),
            r.spec_color_seed() == self.spec_color_seed(),
            r.spec_turn_duration() == self.spec_turn_duration(),
    {
        Self { display_skips, ..self }
    }

    /// Whether to clear the terminal between displays.
    pub fn clear_term(self, clear_term: bool) -> (r: Self)
        ensures
            r.spec_display() == self.spec_display(),
            r.spec_display_skips() == self.spec_display_skips(),
            r.spec_clear_term() == clear_term,
            r.spec_color_seed() == self.spec_color_seed(),
            r.spec_turn_duration() == self.spec_turn_duration(),
    {
        Self { clear_term, ..self }
    }

    /// Seed for the procedural colouring of tiles.
    pub fn color_seed(self, color_seed: u16) -> (r: Self)
        ensures
            r.spec_display() == self.spec_display(),
            r.spec_display_skips() == self.spec_display_skips(),
            r.spec_clear_term() == self.spec_clear_term(),
            r.spec_color_seed() == color_seed,
            r.spec_turn_duration() == self.spec_turn_duration(),
    {
        Self { color_seed, ..self }
    }

    /// Duration of the pause between turns, in milliseconds.
    pub fn turn_duration(self, turn_duration_ms: u64) -> (r: Self)
        ensures
            r.spec_display() == self.spec_display(),
            r.spec_display_skips() == self.spec_display_skips(),
            r.spec_clear_term() == self.spec_clear_term(),
            r.spec_color_seed() == self.spec_color_seed(),
            r.spec_turn_duration() == turn_duration_ms,
    {
        Self { turn_duration_ms, ..self }
    }
}

impl Default for Rules {
    fn default() -> (r: Self)
        ensures
            r.spec_display() == true,
            r.spec_display_skips() == 0,
            r.spec_clear_term() == true,
            r.spec_color_seed() == 35,
            r.spec_turn_duration() == 0,
    {
        Self {
            display: true,
            display_skips: 0,
            clear_term: true,
            color_seed: 35,
            turn_duration_ms: 0,
        }
    }
}

/// `b` is the largest tile value on the board (zero when it is empty).
pub open spec fn is_biggest(g: Cells, b: int) -> bool {
    &&& forall|x: int, y: int| in_bounds(g, x, y) ==> tile_val(#[trigger] cell(g, x, y)) <= b
    &&& (b == 0 || exists|x: int, y: int|
        in_bounds(g, x, y) && tile_val(#[trigger] cell(g, x, y)) == b)
}

/// The one-line header above the board.
pub open spec fn spec_headline(score: int, biggest: int, turn: int) -> Seq<char> {
    "score: "@ + spec_pad_left(spec_decimal(score), 12) + " | biggest tile: "@ + spec_pad_left(
        spec_decimal(biggest),
        12,
    ) + " | turn: "@ + spec_pad_left(spec_decimal(turn), 12)
}

/// A game together with its controller and display pacing state.
pub struct GameManager<C: Controller> {
    game: Game,
    controller: C,
    grid_displayer: GridDisplayer,
    display_to_skip: usize,
    display: bool,
    display_skips: usize,
    clear_term: bool,
    turn_duration_ms: u64,
}

impl<C: Controller> GameManager<C> {
    /// The managed game's board is well formed.
    pub closed spec fn wf(&self) -> bool {
        self.game.wf()
    }

    pub closed spec fn spec_game(&self) -> Game {
        self.game
    }

    pub closed spec fn spec_display(&self) -> bool {
        self.display
    }

    pub closed spec fn spec_display_skips(&self) -> usize {
        self.display_skips
    }

    pub closed spec fn spec_display_to_skip(&self) -> usize {
        self.display_to_skip
    }

    pub closed spec fn spec_clear_term(&self) -> bool {
        self.clear_term
    }

    pub closed spec fn spec_turn_duration(&self) -> u64 {
        self.turn_duration_ms
    }

    pub closed spec fn spec_controller(&self) -> C {
        self.controller
    }

    pub closed spec fn spec_color_seed(&self) -> u16 {
        self.grid_displayer.spec_color_seed()
    }

    pub fn new(game_rules: crate::game::Rules, manager_rules: Rules, controller: C) -> (m: Self)
        ensures
            m.wf(),
            m.spec_game()@.score == 0,
            m.spec_game()@.turn_index == 0,
            m.spec_game()@.board.len() == game_rules.spec_size(),
            m.spec_game()@.spawn_per_turn == game_rules.spec_spawn_per_turn(),
            forall|x: int, y: int|
                in_bounds(m.spec_game()@.board, x, y) ==> cell(m.spec_game()@.board, x, y) is None,
            m.spec_controller() == controller,
            m.spec_color_seed() == manager_rules.spec_color_seed(),
            m.spec_display() == manager_rules.spec_display(),
            m.spec_display_skips() == manager_rules.spec_display_skips(),
            m.spec_display_to_skip() == 0,
            m.spec_clear_term() == manager_rules.spec_clear_term(),
            m.spec_turn_duration() == manager_rules.spec_turn_duration(),
    {
        let game = Game::new(game_rules);
        let Rules { clear_term, color_seed, display, display_skips, turn_duration_ms } =
            manager_rules;
        let grid_displayer = GridDisplayer::new(color_seed);
        Self {
            game,
            controller,
            grid_displayer,
            display_to_skip: 0,
            display,
            display_skips,
            clear_term,
            turn_duration_ms,
        }
    }

    /// The managed game, for rendering and inspection.
    pub fn game(&self) -> (r: &Game)
        ensures
            r == self.spec_game(),
    {
        &self.game
    }

    /// Count down the skip budget: true exactly when this turn's frame is
    /// due. A drawn frame resets the budget to `display_skips`; a skipped
    /// one consumes one unit of it.
    pub fn display_conditionnally(&mut self) -> (show: bool)
        ensures
            show == (old(self).spec_display() && old(self).spec_display_to_skip() == 0),
            final(self).spec_game() == old(self).spec_game(),
            final(self).spec_controller() == old(self).spec_controller(),
            final(self).wf() == old(self).wf(),
            final(self).spec_display() == old(self).spec_display(),
            final(self).spec_display_skips() == old(self).spec_display_skips(),
            final(self).spec_clear_term() == old(self).spec_clear_term(),
            final(self).spec_turn_duration() == old(self).spec_turn_duration(),
            final(self).spec_display_to_skip() == (if !old(self).spec_display() {
                old(self).spec_display_to_skip()
            } else if old(self).spec_display_to_skip() == 0 {
                old(self).spec_display_skips()
            } else {
                (old(self).spec_display_to_skip() - 1) as usize
            }),
    {
        if self.display {
            if self.display_to_skip == 0 {
                self.display_to_skip = self.display_skips;
                true
            } else {
                self.display_to_skip = self.display_to_skip - 1;
                false
            }
        } else {
            false
        }
    }

    /// One game step driven by the controller: ask it for the next move,
    /// then apply the turn. A game whose counters have reached the machine's
    /// limits (which no real run approaches) is treated as finished and
    /// fails like a full board.
    pub fn game_turn(&mut self) -> (r: Result<(), GameError>)
        requires
            old(self).wf(),
        ensures
            final(self).wf(),
            final(self).spec_game()@.spawn_per_turn == old(self).spec_game()@.spawn_per_turn,
            final(self).spec_game()@.board.len() == old(self).spec_game()@.board.len(),
            final(self).spec_game()@.score >= old(self).spec_game()@.score,
            r is Ok ==> final(self).spec_game()@.turn_index == old(
                self,
            ).spec_game()@.turn_index + 1,
            (r matches Err(GameError::ControllerError(_))) ==> final(self).spec_game()@ == old(
                self,
            ).spec_game()@,
            !old(self).spec_game().spec_turn_safe() ==> r == Err::<(), GameError>(
                GameError::GridIsFull,
            ) && final(self).spec_game()@ == old(self).spec_game()@,
            old(self).spec_game().spec_turn_safe() && r == Err::<(), GameError>(
                GameError::GridIsFull,
            ) ==> is_full(final(self).spec_game()@.board),
            final(self).spec_display() == old(self).spec_display(),
            final(self).spec_display_skips() == old(self).spec_display_skips(),
            final(self).spec_display_to_skip() == old(self).spec_display_to_skip(),
            final(self).spec_clear_term() == old(self).spec_clear_term(),
            final(self).spec_turn_duration() == old(self).spec_turn_duration(),
    {
        if !self.game.turn_safe() {
            return Err(GameError::GridIsFull);
        }
        let movement: Move = match self.controller.next_move(&self.game) {
            Ok(m) => m,
            Err(e) => {
                return Err(GameError::ControllerError(e));
            },
        };
        self.game.turn(movement)
    }

    /// The header above the board: the score, the biggest tile, and the
    /// number of completed turns, each right-aligned to twelve columns.
    pub fn get_headline_display(&self) -> (r: String)
        requires
            self.wf(),
        ensures
            exists|b: int|
                is_biggest(self.spec_game()@.board, b) && r@ == spec_headline(
                    self.spec_game()@.score,
                    b,
                    self.spec_game()@.turn_index,
                ),
    {
        let score = self.game.get_score();
        let turn = self.game.get_turn_index();
        let biggest_tile = self.game.get_board().biggest_value();
        let mut out = "score: ".to_owned();
        out.append(pad_left(decimal_string(score), 12).as_str());
        out.append(" | biggest tile: ");
        out.append(pad_left(decimal_string(biggest_tile), 12).as_str());
        out.append(" | turn: ");
        out.append(pad_left(decimal_string(turn), 12).as_str());
        proof {
            let g = self.spec_game()@.board;
            if biggest_tile != 0 {
                let (wx, wy) = choose|x: int, y: int|
                    in_bounds(g, x, y) && #[trigger] cell(g, x, y) == Some(biggest_tile);
                assert(tile_val(cell(g, wx, wy)) == biggest_tile as int);
            }
            assert(is_biggest(g, biggest_tile as int));
            assert(out@ =~= spec_headline(
                self.spec_game()@.score,
                biggest_tile as int,
                self.spec_game()@.turn_index,
            ));
        }
        out
    }

    /// The current board as box-drawn text.
    pub fn grid_display(&self) -> (r: String)
        requires
            self.wf(),
        ensures
            r@ == crate::grid_displayer::spec_grid_display(self.spec_game()@.board),
    {
        self.grid_displayer.display(self.game.get_board())
    }

    /// Play turn after turn until the game fills up or the controller quits;
    /// the run always ends with the error that stopped it. A `GridIsFull`
    /// ending means the board really filled up, unless the game's counters
    /// had reached the machine's limits.
    #[verifier::loop_isolation(false)]
    pub fn play_all(&mut self) -> (r: Result<(), GameError>)
        requires
            old(self).wf(),
        ensures
            final(self).wf(),
            r is Err,
            final(self).spec_game()@.score >= old(self).spec_game()@.score,
            final(self).spec_game()@.spawn_per_turn == old(self).spec_game()@.spawn_per_turn,
            final(self).spec_game()@.board.len() == old(self).spec_game()@.board.len(),
            !old(self).spec_game().spec_turn_safe() ==> r == Err::<(), GameError>(
                GameError::GridIsFull,
            ) && final(self).spec_game()@ == old(self).spec_game()@,
            r == Err::<(), GameError>(GameError::GridIsFull) ==> (is_full(
                final(self).spec_game()@.board,
            ) || !final(self).spec_game().spec_turn_safe()),
    {
        loop
            invariant
                self.wf(),
                self.spec_game()@.score >= old(self).spec_game()@.score,
                self.spec_game()@.spawn_per_turn == old(self).spec_game()@.spawn_per_turn,
                self.spec_game()@.board.len() == old(self).spec_game()@.board.len(),
                !old(self).spec_game().spec_turn_safe() ==> self.spec_game()@ == old(
                    self,
                ).spec_game()@,
            decreases usize::MAX - self.spec_game()@.turn_index,
        {
            proof {
                crate::game::lemma_view_bounds(&self.game);
            }
            let step = self.game_turn();
            match step {
                Ok(()) => {},
                Err(e) => {
                    return Err(e);
                },
            }
            proof {
                crate::game::lemma_view_bounds(&self.game);
            }
        }
    }
}

} // verus!
