//! Game state and the move-resolution engine: applying a move slides and
//! merges every tile, the score grows by the merge values, and each turn
//! spawns fresh tiles on random empty cells.

use vstd::prelude::*;

use crate::controller::{ControllerError, Move};
use crate::grid::{
    cell, cell_set, grid_count, grid_sum, in_bounds, is_full, square, tile_val, Cells, Grid,
};
use crate::grid::{lemma_cell_le_grid_sum, lemma_cells_equal};
use crate::resolution::{
    lemma_cell_set_square, lemma_resolve, lemma_resolve_blocked, lemma_resolve_line_to,
    lemma_resolve_lines_to, lemma_pass_partial_bound, line_cell, next_in_bounds, no_merge_step,
    pos_in_line, resolve, resolve_line_to, resolve_lines_to, resolve_tile, slide, steps_left,
    valid_dir,
};
use crate::rng::random_below;

verus! {

/// Construction-time settings of a game: board size and the number of tiles
/// spawned after each move.
pub struct Rules {
    size: usize,
    spawn_per_turn: usize,
}

impl Rules {
    pub closed spec fn spec_size(&self) -> usize {
        self.size
    }

    pub closed spec fn spec_spawn_per_turn(&self) -> usize {
        self.spawn_per_turn
    }

    pub fn size(self, size: usize) -> (r: Self)
        ensures
            r.spec_size() == size,
            r.spec_spawn_per_turn() == self.spec_spawn_per_turn(),
    {
        Self { size, ..self }
    }

    pub fn spawn_per_turn(self, spawn_per_turn: usize) -> (r: Self)
        ensures
            r.spec_size() == self.spec_size(),
            r.spec_spawn_per_turn() == spawn_per_turn,
    {
        Self { spawn_per_turn, ..self }
    }
}

impl Default for Rules {
    /// The customary game: a four-by-four board, one tile spawned per turn.
    fn default() -> (r: Self)
        ensures
            r.spec_size() == 4,
            r.spec_spawn_per_turn() == 1,
    {
        Self { size: 4, spawn_per_turn: 1 }
    }
}

/// Why a turn or a whole run ends: the board has no room left for a spawn,
/// or the controller asked to quit.
#[derive(Clone, Copy, Debug, PartialEq, Eq, Structural)]
pub enum GameError {
    GridIsFull,
    ControllerError(ControllerError),
}

/// The mathematical state of a game.
pub ghost struct GameView {
    pub board: Cells,
    pub score: int,
    pub turn_index: int,
    pub spawn_per_turn: int,
}

/// A game in progress: a board, the score earned so far, the number of
/// completed turns, and the spawn count per turn.
#[derive(Debug)]
pub struct Game {
    board: Grid,
    score: usize,
    turn_index: usize,
    spawn_per_turn: usize,
}

impl View for Game {
    type V = GameView;

    closed spec fn view(&self) -> GameView {
        GameView {
            board: self.board@,
            score: self.score as int,
            turn_index: self.turn_index as int,
            spawn_per_turn: self.spawn_per_turn as int,
        }
    }
}

impl Clone for Game {
    /// A deep copy: rollouts simulate on private copies of the game.
    fn clone(&self) -> (res: Self)
        ensures
            res@ == self@,
            self.wf() ==> res.wf(),
    {
        Self {
            board: self.board.clone(),
            score: self.score,
            turn_index: self.turn_index,
            spawn_per_turn: self.spawn_per_turn,
        }
    }
}

impl Game {
    /// The board is well formed: square, with its declared size.
    pub closed spec fn wf(&self) -> bool {
        self.board.wf()
    }

    pub fn new(rules: Rules) -> (g: Game)
        ensures
            g.wf(),
            g@.score == 0,
            g@.turn_index == 0,
            g@.spawn_per_turn == rules.spec_spawn_per_turn(),
            g@.board.len() == rules.spec_size(),
            square(g@.board),
            forall|x: int, y: int| in_bounds(g@.board, x, y) ==> cell(g@.board, x, y) is None,
            grid_sum(g@.board) == 0,
            grid_count(g@.board) == 0,
    {
        let Rules { size, spawn_per_turn } = rules;
        let g = Game { board: Grid::new(size), score: 0, turn_index: 0, spawn_per_turn };
        proof {
            crate::grid::lemma_empty_grid(g@.board);
        }
        g
    }

    pub fn get_board(&self) -> (r: &Grid)
        requires
            self.wf(),
        ensures
            r.wf(),
            r@ == self@.board,
    {
        &self.board
    }

    pub fn get_score(&self) -> (r: usize)
        ensures
            r == self@.score,
    {
        self.score
    }

    pub fn get_turn_index(&self) -> (r: usize)
        ensures
            r == self@.turn_index,
    {
        self.turn_index
    }

    /// Overwrite one cell of the board, for setting up positions.
    pub fn set_tile(&mut self, pos: (usize, usize), value: Option<usize>)
        requires
            old(self).wf(),
            pos.0 < old(self)@.board.len(),
            pos.1 < old(self)@.board.len(),
        ensures
            final(self).wf(),
            final(self)@.board == cell_set(old(self)@.board, pos.0 as int, pos.1 as int, value),
            final(self)@.board.len() == old(self)@.board.len(),
            final(self)@.score == old(self)@.score,
            final(self)@.turn_index == old(self)@.turn_index,
            final(self)@.spawn_per_turn == old(self)@.spawn_per_turn,
    {
        self.board.set(pos, value);
        proof {
            lemma_cell_set_square(old(self)@.board, pos.0 as int, pos.1 as int, value);
        }
    }
}

/// Whether stepping a coordinate by `delta` (one of `-1`, `0`, `1`) would
/// leave the closed range `[0, max]`.
pub fn would_overflow(number: usize, delta: isize, max: usize) -> (r: bool)
    ensures
        r == ((number == 0 && delta == -1) || (number == max && delta == 1)),
{
    let too_little = number == 0 && delta == -1;
    let too_big = number == max && delta == 1;
    too_little || too_big
}

/// One tile's journey across the board: a position, a travel direction, and
/// the score its merge (if any) earned.
pub struct Displacement {
    position: (usize, usize),
    direction: (isize, isize),
    score: usize,
}

impl Displacement {
    pub closed spec fn spec_position(&self) -> (usize, usize) {
        self.position
    }

    pub closed spec fn spec_direction(&self) -> (isize, isize) {
        self.direction
    }

    pub closed spec fn spec_score(&self) -> usize {
        self.score
    }

    pub fn new(position: (usize, usize), direction: (isize, isize)) -> (d: Self)
        ensures
            d.spec_position() == position,
            d.spec_direction() == direction,
            d.spec_score() == 0,
    {
        Self { position, direction, score: 0 }
    }

    /// Hand out the score this tile earned.
    pub fn pop_score(self) -> (r: usize)
        ensures
            r == self.spec_score(),
    {
        let Displacement { score, .. } = self;
        score
    }

    fn set_pos(&mut self, pos: (usize, usize))
        ensures
            final(self).spec_position() == pos,
            final(self).spec_direction() == old(self).spec_direction(),
            final(self).spec_score() == old(self).spec_score(),
    {
        self.position = pos;
    }

    /// The cell one step onward in the travel direction, or nothing at the
    /// board's edge.
    fn get_next_pos(&self, grid: &Grid) -> (r: Option<(usize, usize)>)
        requires
            grid.wf(),
            self.spec_position().0 < grid.spec_size(),
            self.spec_position().1 < grid.spec_size(),
            valid_dir(self.spec_direction().0 as int, self.spec_direction().1 as int),
        ensures
            ({
                let x = self.spec_position().0 as int;
                let y = self.spec_position().1 as int;
                let dx = self.spec_direction().0 as int;
                let dy = self.spec_direction().1 as int;
                match r {
                    Some(np) => {
                        &&& next_in_bounds(grid.spec_size() as int, x, y, dx, dy)
                        &&& np.0 == x + dx
                        &&& np.1 == y + dy
                    },
                    None => !next_in_bounds(grid.spec_size() as int, x, y, dx, dy),
                }
            }),
    {
        let (current_x, current_y) = self.position;
        let (dx, dy) = self.direction;
        if would_overflow(current_x, dx, grid.size() - 1) || would_overflow(
            current_y,
            dy,
            grid.size() - 1,
        ) {
            None
        } else {
            let next_x = if dx == -1 {
                current_x - 1
            } else if dx == 1 {
                current_x + 1
            } else {
                current_x
            };
            let next_y = if dy == -1 {
                current_y - 1
            } else if dy == 1 {
                current_y + 1
            } else {
                current_y
            };
            Some((next_x, next_y))
        }
    }

    /// One step of the journey: move into an empty neighbour (and report that
    /// the journey continues), merge into an equal neighbour, or stop.
    fn move_once(&mut self, grid: &mut Grid) -> (more: bool)
        requires
            old(grid).wf(),
            valid_dir(
                old(self).spec_direction().0 as int,
                old(self).spec_direction().1 as int,
            ),
            old(self).spec_position().0 < old(grid).spec_size(),
            old(self).spec_position().1 < old(grid).spec_size(),
            cell(
                old(grid)@,
                old(self).spec_position().0 as int,
                old(self).spec_position().1 as int,
            ) is Some,
            old(self).spec_score() == 0,
            2 * grid_sum(old(grid)@) <= usize::MAX,
        ensures
            final(grid).wf(),
            final(grid).spec_size() == old(grid).spec_size(),
            grid_sum(final(grid)@) == grid_sum(old(grid)@),
            final(self).spec_direction() == old(self).spec_direction(),
            ({
                let x = old(self).spec_position().0 as int;
                let y = old(self).spec_position().1 as int;
                let dx = old(self).spec_direction().0 as int;
                let dy = old(self).spec_direction().1 as int;
                let n = old(grid).spec_size() as int;
                if more {
                    &&& final(self).spec_position().0 < old(grid).spec_size()
                    &&& final(self).spec_position().1 < old(grid).spec_size()
                    &&& final(self).spec_score() == 0
                    &&& cell(
                        final(grid)@,
                        final(self).spec_position().0 as int,
                        final(self).spec_position().1 as int,
                    ) == cell(old(grid)@, x, y)
                    &&& slide(final(grid)@, final(self).spec_position().0 as int,
                        final(self).spec_position().1 as int, dx, dy) == slide(old(grid)@, x, y, dx, dy)
                    &&& steps_left(n, final(self).spec_position().0 as int,
                        final(self).spec_position().1 as int, dx, dy) == steps_left(n, x, y, dx, dy) - 1
                } else {
                    &&& final(grid)@ == slide(old(grid)@, x, y, dx, dy).0
                    &&& final(self).spec_score() as int == slide(old(grid)@, x, y, dx, dy).1
                }
            }),
    {
        let current_pos = self.position;
        let ghost g0 = grid@;
        let ghost ox = current_pos.0 as int;
        let ghost oy = current_pos.1 as int;
        let ghost dxi = self.direction.0 as int;
        let ghost dyi = self.direction.1 as int;
        let current_value = match grid.get_val(current_pos) {
            Some(v) => v,
            None => 0,
        };
        if let Some(next_pos) = self.get_next_pos(grid) {
            let ghost nx = next_pos.0 as int;
            let ghost ny = next_pos.1 as int;
            match grid.get_val(next_pos) {
                None => {
                    grid.move_tile(current_pos, next_pos);
                    self.set_pos(next_pos);
                    proof {
                        let moved = cell_set(
                            cell_set(g0, ox, oy, None),
                            nx,
                            ny,
                            cell(g0, ox, oy),
                        );
                        lemma_cell_set_square(g0, nx, ny, cell(g0, ox, oy));
                        lemma_cell_set_square(
                            cell_set(g0, nx, ny, cell(g0, ox, oy)),
                            ox,
                            oy,
                            None,
                        );
                        lemma_cell_set_square(g0, ox, oy, None);
                        lemma_cell_set_square(cell_set(g0, ox, oy, None), nx, ny, cell(g0, ox, oy));
                        lemma_cells_equal(grid@, moved);
                        crate::grid::lemma_grid_sum_cell_set(g0, ox, oy, None);
                        crate::grid::lemma_grid_sum_cell_set(
                            cell_set(g0, ox, oy, None),
                            nx,
                            ny,
                            cell(g0, ox, oy),
                        );
                        assert(slide(g0, ox, oy, dxi, dyi) == slide(grid@, nx, ny, dxi, dyi));
                    }
                    true
                },
                Some(value) => {
                    if value == current_value {
                        proof {
                            lemma_cell_le_grid_sum(g0, nx, ny);
                        }
                        grid.move_tile(current_pos, next_pos);
                        let doubled = value * 2;
                        grid.set(next_pos, Some(doubled));
                        self.score = doubled;
                        proof {
                            let merged = cell_set(
                                cell_set(g0, ox, oy, None),
                                nx,
                                ny,
                                Some(((value + value) as usize)),
                            );
                            lemma_cell_set_square(g0, nx, ny, cell(g0, ox, oy));
                            lemma_cell_set_square(
                                cell_set(g0, nx, ny, cell(g0, ox, oy)),
                                ox,
                                oy,
                                None,
                            );
                            lemma_cell_set_square(
                                cell_set(cell_set(g0, nx, ny, cell(g0, ox, oy)), ox, oy, None),
                                nx,
                                ny,
                                Some(doubled),
                            );
                            lemma_cell_set_square(g0, ox, oy, None);
                            lemma_cell_set_square(
                                cell_set(g0, ox, oy, None),
                                nx,
                                ny,
                                Some(((value + value) as usize)),
                            );
                            lemma_cells_equal(grid@, merged);
                            crate::grid::lemma_grid_sum_cell_set(g0, ox, oy, None);
                            crate::grid::lemma_grid_sum_cell_set(
                                cell_set(g0, ox, oy, None),
                                nx,
                                ny,
                                Some(((value + value) as usize)),
                            );
                            assert(grid_sum(grid@) == grid_sum(g0));
                        }
                        false
                    } else {
                        false
                    }
                },
            }
        } else {
            false
        }
    }

    /// Run the whole journey: keep stepping until the tile reaches the edge,
    /// a blocking neighbour, or a merge.
    pub fn move_all(&mut self, grid: &mut Grid)
        requires
            old(grid).wf(),
            valid_dir(
                old(self).spec_direction().0 as int,
                old(self).spec_direction().1 as int,
            ),
            old(self).spec_position().0 < old(grid).spec_size(),
            old(self).spec_position().1 < old(grid).spec_size(),
            cell(
                old(grid)@,
                old(self).spec_position().0 as int,
                old(self).spec_position().1 as int,
            ) is Some,
            old(self).spec_score() == 0,
            2 * grid_sum(old(grid)@) <= usize::MAX,
        ensures
            final(grid).wf(),
            final(grid).spec_size() == old(grid).spec_size(),
            grid_sum(final(grid)@) == grid_sum(old(grid)@),
            final(grid)@ == slide(
                old(grid)@,
                old(self).spec_position().0 as int,
                old(self).spec_position().1 as int,
                old(self).spec_direction().0 as int,
                old(self).spec_direction().1 as int,
            ).0,
            final(self).spec_score() as int == slide(
                old(grid)@,
                old(self).spec_position().0 as int,
                old(self).spec_position().1 as int,
                old(self).spec_direction().0 as int,
                old(self).spec_direction().1 as int,
            ).1,
    {
        let ghost g0 = grid@;
        let ghost p0 = old(self).spec_position();
        let ghost dxi = old(self).spec_direction().0 as int;
        let ghost dyi = old(self).spec_direction().1 as int;
        let ghost target = slide(g0, p0.0 as int, p0.1 as int, dxi, dyi);
        loop
            invariant_except_break
                grid.wf(),
                grid.spec_size() == old(grid).spec_size(),
                grid_sum(grid@) == grid_sum(g0),
                2 * grid_sum(grid@) <= usize::MAX,
                self.spec_direction() == old(self).spec_direction(),
                self.spec_score() == 0,
                self.spec_position().0 < grid.spec_size(),
                self.spec_position().1 < grid.spec_size(),
                cell(grid@, self.spec_position().0 as int, self.spec_position().1 as int) is Some,
                valid_dir(dxi, dyi),
                dxi == self.spec_direction().0 as int,
                dyi == self.spec_direction().1 as int,
                slide(grid@, self.spec_position().0 as int, self.spec_position().1 as int, dxi, dyi)
                    == target,
            ensures
                grid.wf(),
                grid.spec_size() == old(grid).spec_size(),
                grid_sum(grid@) == grid_sum(g0),
                grid@ == target.0,
                self.spec_score() as int == target.1,
            decreases steps_left(
                grid.spec_size() as int,
                self.spec_position().0 as int,
                self.spec_position().1 as int,
                dxi,
                dyi,
            ),
        {
            let more = self.move_once(grid);
            if !more {
                break ;
            }
        }
    }
}

impl Game {
    /// Process a single position of the pass: an empty cell contributes
    /// nothing, a tile runs its full journey and reports its score.
    fn perform_linear_move(&mut self, direction: (isize, isize), tile_pos: (usize, usize)) -> (r:
        usize)
        requires
            old(self).wf(),
            valid_dir(direction.0 as int, direction.1 as int),
            tile_pos.0 < old(self)@.board.len(),
            tile_pos.1 < old(self)@.board.len(),
            2 * grid_sum(old(self)@.board) <= usize::MAX,
        ensures
            final(self).wf(),
            final(self)@.score == old(self)@.score,
            final(self)@.turn_index == old(self)@.turn_index,
            final(self)@.spawn_per_turn == old(self)@.spawn_per_turn,
            final(self)@.board == resolve_tile(
                old(self)@.board,
                tile_pos.0 as int,
                tile_pos.1 as int,
                direction.0 as int,
                direction.1 as int,
            ).0,
            r as int == resolve_tile(
                old(self)@.board,
                tile_pos.0 as int,
                tile_pos.1 as int,
                direction.0 as int,
                direction.1 as int,
            ).1,
            grid_sum(final(self)@.board) == grid_sum(old(self)@.board),
    {
        let empty = match self.board.get(tile_pos) {
            Some(tile) => tile.is_empty(),
            None => true,
        };
        if empty {
            0
        } else {
            proof {
                crate::resolution::lemma_slide(
                    self@.board,
                    tile_pos.0 as int,
                    tile_pos.1 as int,
                    direction.0 as int,
                    direction.1 as int,
                );
            }
            let mut displacement = Displacement::new(tile_pos, direction);
            displacement.move_all(&mut self.board);
            displacement.pop_score()
        }
    }

    /// One full pass of the board in the direction of `movement`: every line
    /// is processed from the near edge onward, and the merge scores add up to
    /// the move's score. The board is left exactly as the resolution model
    /// describes, with its total tile value unchanged.
    pub fn perform_move(&mut self, movement: Move) -> (move_score: usize)
        requires
            old(self).wf(),
            2 * grid_sum(old(self)@.board) <= usize::MAX,
        ensures
            final(self).wf(),
            final(self)@.board.len() == old(self)@.board.len(),
            final(self)@.score == old(self)@.score,
            final(self)@.turn_index == old(self)@.turn_index,
            final(self)@.spawn_per_turn == old(self)@.spawn_per_turn,
            final(self)@.board == resolve(
                old(self)@.board,
                movement.spec_dir().0,
                movement.spec_dir().1,
            ).0,
            move_score as int == resolve(
                old(self)@.board,
                movement.spec_dir().0,
                movement.spec_dir().1,
            ).1,
            grid_sum(final(self)@.board) == grid_sum(old(self)@.board),
            0 <= 2 * grid_sum(old(self)@.board) - move_score,
    {
        let ghost g0 = self@.board;
        let ghost s0 = self@.score;
        let ghost t0 = self@.turn_index;
        let ghost sp0 = self@.spawn_per_turn;
        let (dx, dy): (isize, isize) = match movement {
            Move::LEFT => (-1, 0),
            Move::RIGHT => (1, 0),
            Move::UP => (0, -1),
            Move::DOWN => (0, 1),
        };
        let ghost dxi = dx as int;
        let ghost dyi = dy as int;
        let n = self.board.size();
        let mut move_score: usize = 0;
        let mut line: usize = 0;
        while line < n
            invariant
                self.wf(),
                self@.score == s0,
                self@.turn_index == t0,
                self@.spawn_per_turn == sp0,
                n == self@.board.len(),
                n as int == g0.len(),
                square(g0),
                line <= n,
                valid_dir(dxi, dyi),
                movement.spec_dir() == (dxi, dyi),
                dx as int == dxi,
                dy as int == dyi,
                2 * grid_sum(g0) <= usize::MAX,
                self@.board == resolve_lines_to(g0, dxi, dyi, line as int).0,
                move_score as int == resolve_lines_to(g0, dxi, dyi, line as int).1,
            decreases n - line,
        {
            let ghost lines_prev = resolve_lines_to(g0, dxi, dyi, line as int);
            proof {
                lemma_resolve_lines_to(g0, dxi, dyi, line as int);
            }
            let mut i: usize = 0;
            while i < n
                invariant
                    self.wf(),
                    self@.score == s0,
                    self@.turn_index == t0,
                    self@.spawn_per_turn == sp0,
                    n == self@.board.len(),
                    n as int == g0.len(),
                    square(g0),
                    line < n,
                    i <= n,
                    valid_dir(dxi, dyi),
                    movement.spec_dir() == (dxi, dyi),
                    dx as int == dxi,
                    dy as int == dyi,
                    2 * grid_sum(g0) <= usize::MAX,
                    lines_prev == resolve_lines_to(g0, dxi, dyi, line as int),
                    self@.board == resolve_line_to(lines_prev.0, dxi, dyi, line as int, i as int).0,
                    move_score as int == lines_prev.1 + resolve_line_to(
                        lines_prev.0,
                        dxi,
                        dyi,
                        line as int,
                        i as int,
                    ).1,
                decreases n - i,
            {
                let ghost partial = resolve_line_to(lines_prev.0, dxi, dyi, line as int, i as int);
                proof {
                    lemma_resolve_lines_to(g0, dxi, dyi, line as int);
                    lemma_resolve_line_to(lines_prev.0, dxi, dyi, line as int, i as int);
                }
                let x: usize;
                let y: usize;
                match movement {
                    Move::LEFT => {
                        x = i;
                        y = line;
                    },
                    Move::RIGHT => {
                        x = n - 1 - i;
                        y = line;
                    },
                    Move::UP => {
                        x = line;
                        y = i;
                    },
                    Move::DOWN => {
                        x = line;
                        y = n - 1 - i;
                    },
                }
                proof {
                    assert((x as int, y as int) == pos_in_line(n as int, dxi, dyi, line as int, i as int));
                    assert(pos_in_line(lines_prev.0.len() as int, dxi, dyi, line as int, i as int)
                        == pos_in_line(n as int, dxi, dyi, line as int, i as int));
                }
                let r = self.perform_linear_move((dx, dy), (x, y));
                proof {
                    let after = resolve_line_to(
                        lines_prev.0,
                        dxi,
                        dyi,
                        line as int,
                        i as int + 1,
                    );
                    assert(after.0 == self@.board && after.1 == partial.1 + r as int);
                    lemma_resolve_line_to(lines_prev.0, dxi, dyi, line as int, i as int + 1);
                    // the running score stays within twice the original values
                    // enumerated so far, hence within a machine word
                    assert forall|j: int| 0 <= j < i as int + 1 implies #[trigger] line_cell(
                        lines_prev.0,
                        dxi,
                        dyi,
                        line as int,
                        j,
                    ) == line_cell(g0, dxi, dyi, line as int, j) by {
                        let q = pos_in_line(n as int, dxi, dyi, line as int, j);
                        assert(in_bounds(g0, q.0, q.1));
                        assert(crate::resolution::line_of(dxi, dyi, q.0, q.1) == line as int);
                        assert(cell(lines_prev.0, q.0, q.1) == cell(g0, q.0, q.1));
                    }
                    crate::resolution::lemma_line_vals_congruent(
                        lines_prev.0,
                        g0,
                        dxi,
                        dyi,
                        line as int,
                        i as int + 1,
                    );
                    lemma_pass_partial_bound(g0, dxi, dyi, line as int, i as int + 1);
                }
                move_score = move_score + r;
                i += 1;
            }
            proof {
                assert(resolve_lines_to(g0, dxi, dyi, line as int + 1).0 == self@.board);
                assert(resolve_lines_to(g0, dxi, dyi, line as int + 1).1 == move_score as int);
            }
            line += 1;
        }
        proof {
            lemma_resolve(g0, dxi, dyi);
        }
        move_score
    }
}

impl Game {
    /// Place a value-one tile on a uniformly chosen empty cell, or report
    /// that the board is full. Exactly the chosen cell changes.
    pub fn spawn_random(&mut self) -> (r: Result<(), GameError>)
        requires
            old(self).wf(),
        ensures
            final(self).wf(),
            final(self)@.score == old(self)@.score,
            final(self)@.turn_index == old(self)@.turn_index,
            final(self)@.spawn_per_turn == old(self)@.spawn_per_turn,
            final(self)@.board.len() == old(self)@.board.len(),
            match r {
                Ok(()) => !is_full(old(self)@.board) && exists|x: int, y: int|
                    in_bounds(old(self)@.board, x, y) && #[trigger] cell(
                        old(self)@.board,
                        x,
                        y,
                    ) is None && final(self)@.board == cell_set(old(self)@.board, x, y, Some(1usize)),
                Err(e) => e == GameError::GridIsFull && is_full(old(self)@.board) && final(self)@
                    == old(self)@,
            },
    {
        let mut potentials: Vec<(usize, usize)> = Vec::new();
        let n = self.board.size();
        let mut x: usize = 0;
        while x < n
            invariant
                self.wf(),
                self == old(self),
                n == self@.board.len(),
                x <= n,
                forall|k: int| #![trigger potentials@[k]]
                    0 <= k < potentials@.len() ==> {
                        &&& potentials@[k].0 < n
                        &&& potentials@[k].1 < n
                        &&& cell(
                            self@.board,
                            potentials@[k].0 as int,
                            potentials@[k].1 as int,
                        ) is None
                    },
                forall|xx: usize, yy: usize|
                    xx < x && yy < n && #[trigger] cell(self@.board, xx as int, yy as int) is None
                        ==> potentials@.contains((xx, yy)),
            decreases n - x,
        {
            let mut y: usize = 0;
            while y < n
                invariant
                    self.wf(),
                    self == old(self),
                    n == self@.board.len(),
                    x < n,
                    y <= n,
                    forall|k: int| #![trigger potentials@[k]]
                        0 <= k < potentials@.len() ==> {
                            &&& potentials@[k].0 < n
                            &&& potentials@[k].1 < n
                            &&& cell(
                                self@.board,
                                potentials@[k].0 as int,
                                potentials@[k].1 as int,
                            ) is None
                        },
                    forall|xx: usize, yy: usize|
                        xx < x && yy < n && #[trigger] cell(
                            self@.board,
                            xx as int,
                            yy as int,
                        ) is None ==> potentials@.contains((xx, yy)),
                    forall|yy: usize|
                        yy < y && #[trigger] cell(self@.board, x as int, yy as int) is None
                            ==> potentials@.contains((x, yy)),
                decreases n - y,
            {
                let empty = match self.board.get((x, y)) {
                    Some(tile) => tile.is_empty(),
                    None => false,
                };
                if empty {
                    let ghost prev = potentials@;
                    potentials.push((x, y));
                    proof {
                        assert forall|p: (usize, usize)| prev.contains(p) implies potentials@.contains(
                            p,
                        ) by {
                            let idx = choose|i: int| 0 <= i < prev.len() && prev[i] == p;
                            assert(potentials@[idx] == p);
                        }
                        assert(potentials@[potentials@.len() - 1] == (x, y));
                        assert(potentials@.contains((x, y)));
                    }
                }
                y += 1;
            }
            x += 1;
        }
        if potentials.len() == 0 {
            proof {
                assert forall|xx: int, yy: int|
                    in_bounds(self@.board, xx, yy) implies #[trigger] cell(
                    self@.board,
                    xx,
                    yy,
                ) is Some by {
                    if cell(self@.board, xx, yy) is None {
                        assert(potentials@.contains((xx as usize, yy as usize)));
                    }
                }
            }
            return Err(GameError::GridIsFull);
        }
        let index = random_below(potentials.len());
        let (px, py) = potentials[index];
        self.board.set((px, py), Some(1));
        proof {
            assert(cell(old(self)@.board, px as int, py as int) is None);
        }
        Ok(())
    }

    /// One more turn is sure to stay within machine bounds: the turn counter
    /// can still grow, and the score plus the largest possible move score
    /// still fits in a machine word.
    pub open spec fn spec_turn_safe(&self) -> bool {
        self@.turn_index < usize::MAX && self@.score + 2 * grid_sum(self@.board) <= usize::MAX
    }

    /// Whether one more turn is sure to stay within machine bounds.
    pub fn turn_safe(&self) -> (b: bool)
        requires
            self.wf(),
        ensures
            b == self.spec_turn_safe(),
    {
        if self.turn_index == usize::MAX {
            return false;
        }
        match self.board.checked_sum() {
            Some(s) => {
                if s <= usize::MAX / 2 {
                    let doubled = s * 2;
                    self.score <= usize::MAX - doubled
                } else {
                    proof {
                        crate::grid::lemma_grid_sum_to_nonneg(self@.board, self@.board.len() as int);
                    }
                    false
                }
            },
            None => false,
        }
    }

    /// One complete turn: resolve the move, add its score, then spawn the
    /// configured number of value-one tiles on random empty cells. When the
    /// board fills up during spawning the turn fails with `GridIsFull`,
    /// keeping the score and the tiles already spawned (the turn is not
    /// transactional) and leaving the turn counter alone.
    #[verifier::loop_isolation(false)]
    pub fn turn(&mut self, movement: Move) -> (r: Result<(), GameError>)
        requires
            old(self).wf(),
            old(self)@.turn_index < usize::MAX,
            old(self)@.score + 2 * grid_sum(old(self)@.board) <= usize::MAX,
        ensures
            final(self).wf(),
            final(self)@.spawn_per_turn == old(self)@.spawn_per_turn,
            final(self)@.board.len() == old(self)@.board.len(),
            final(self)@.score == old(self)@.score + resolve(
                old(self)@.board,
                movement.spec_dir().0,
                movement.spec_dir().1,
            ).1,
            old(self)@.score <= final(self)@.score,
            ({
                let resolved = resolve(
                    old(self)@.board,
                    movement.spec_dir().0,
                    movement.spec_dir().1,
                ).0;
                let n = old(self)@.board.len() as int;
                let sp = old(self)@.spawn_per_turn;
                &&& forall|x: int, y: int|
                    in_bounds(resolved, x, y) ==> (#[trigger] cell(final(self)@.board, x, y) == cell(
                        resolved,
                        x,
                        y,
                    ) || (cell(resolved, x, y) is None && cell(final(self)@.board, x, y) == Some(
                        1usize,
                    )))
                &&& match r {
                    Ok(()) => {
                        &&& final(self)@.turn_index == old(self)@.turn_index + 1
                        &&& grid_count(final(self)@.board) == grid_count(resolved) + sp
                        &&& grid_sum(final(self)@.board) == grid_sum(old(self)@.board) + sp
                        &&& grid_count(resolved) + sp <= n * n
                    },
                    Err(GameError::GridIsFull) => {
                        &&& final(self)@.turn_index == old(self)@.turn_index
                        &&& is_full(final(self)@.board)
                        &&& grid_count(resolved) + sp > n * n
                        &&& sp >= 1
                        &&& grid_sum(final(self)@.board) == grid_sum(old(self)@.board) + (n * n
                            - grid_count(resolved))
                    },
                    Err(_) => false,
                }
            }),
    {
        let ghost g0 = self@.board;
        let ghost t0 = self@.turn_index;
        let ghost d = movement.spec_dir();
        proof {
            lemma_resolve(g0, d.0, d.1);
        }
        let move_score = self.perform_move(movement);
        self.score = self.score + move_score;
        let ghost resolved = self@.board;
        let ghost s1 = self@.score;
        proof {
            crate::grid::lemma_grid_count_bounds(resolved);
        }
        let spawn_count = self.spawn_per_turn;
        let mut k: usize = 0;
        while k < spawn_count
            invariant
                self.wf(),
                k <= spawn_count,
                spawn_count == self@.spawn_per_turn,
                self@.score == s1,
                self@.turn_index == t0,
                self@.board.len() == resolved.len(),
                square(resolved),
                grid_count(self@.board) == grid_count(resolved) + k,
                grid_sum(self@.board) == grid_sum(resolved) + k,
                forall|x: int, y: int|
                    in_bounds(resolved, x, y) ==> (#[trigger] cell(self@.board, x, y) == cell(
                        resolved,
                        x,
                        y,
                    ) || (cell(resolved, x, y) is None && cell(self@.board, x, y) == Some(1usize))),
            decreases spawn_count - k,
        {
            let ghost before = self@.board;
            let res = self.spawn_random();
            match res {
                Ok(()) => {
                    proof {
                        let (wx, wy) = choose|x: int, y: int|
                            in_bounds(before, x, y) && #[trigger] cell(before, x, y) is None
                                && self@.board == cell_set(before, x, y, Some(1usize));
                        crate::grid::lemma_grid_count_cell_set(before, wx, wy, Some(1usize));
                        crate::grid::lemma_grid_sum_cell_set(before, wx, wy, Some(1usize));
                        lemma_cell_set_square(before, wx, wy, Some(1usize));
                        assert forall|x: int, y: int| in_bounds(resolved, x, y) implies (
                        #[trigger] cell(self@.board, x, y) == cell(resolved, x, y) || (cell(
                            resolved,
                            x,
                            y,
                        ) is None && cell(self@.board, x, y) == Some(1usize))) by {
                            assert(in_bounds(before, x, y));
                            if x == wx && y == wy {
                                assert(cell(resolved, x, y) is None);
                                assert(cell(self@.board, x, y) == Some(1usize));
                            } else {
                                assert(cell(self@.board, x, y) == cell(before, x, y));
                            }
                        }
                    }
                    k += 1;
                },
                Err(e) => {
                    proof {
                        crate::grid::lemma_full_grid_count(self@.board);
                    }
                    return Err(e);
                },
            }
        }
        proof {
            crate::grid::lemma_grid_count_bounds(self@.board);
        }
        self.turn_index = self.turn_index + 1;
        Ok(())
    }
}

/// The machine representation bounds every counter of a game's state.
pub proof fn lemma_view_bounds(g: &Game)
    ensures
        0 <= g@.score <= usize::MAX,
        0 <= g@.turn_index <= usize::MAX,
        0 <= g@.spawn_per_turn <= usize::MAX,
{
}

/// A turn on a completely full board with no merge available in the chosen
/// direction is doomed: the pass leaves the board unchanged and scores
/// nothing, and with at least one tile to spawn the turn must fail with
/// `GridIsFull`, performing no spawn.
pub proof fn lemma_grid_full_turn(g: Cells, movement: Move, sp: int)
    requires
        square(g),
        is_full(g),
        no_merge_step(g, movement.spec_dir().0, movement.spec_dir().1),
        sp >= 1,
    ensures
        resolve(g, movement.spec_dir().0, movement.spec_dir().1).0 == g,
        resolve(g, movement.spec_dir().0, movement.spec_dir().1).1 == 0,
        grid_count(g) + sp > g.len() * g.len(),
{
    lemma_resolve_blocked(g, movement.spec_dir().0, movement.spec_dir().1);
    crate::grid::lemma_full_grid_count(g);
}

} // verus!
