//! The mathematical model of the slide-and-merge engine: what one tile does
//! when pushed in a direction, what one full pass over the board does, and
//! the laws that hold of a pass (value conservation, a single doubling per
//! slide, full blocked boards staying put).
//!
//! Directions are unit steps `(dx, dy)` with `(-1, 0)` left, `(1, 0)` right,
//! `(0, -1)` up and `(0, 1)` down.

use vstd::prelude::*;

use crate::grid::{
    cell, cell_set, grid_sum, grid_sum_to, in_bounds, is_full, row_sum, row_sum_to, square,
    tile_val, Cells,
};
use crate::grid::{
    lemma_cell_le_grid_sum, lemma_grid_sum_cell_set, lemma_grid_sum_to_mono,
    lemma_row_sum_to_nonneg,
};

verus! {

/// A unit step in one of the four travel directions.
pub open spec fn valid_dir(dx: int, dy: int) -> bool {
    ||| (dx == -1 && dy == 0)
    ||| (dx == 1 && dy == 0)
    ||| (dx == 0 && dy == -1)
    ||| (dx == 0 && dy == 1)
}

/// Whether the cell one step onward from `(x, y)` still lies on the board.
pub open spec fn next_in_bounds(n: int, x: int, y: int, dx: int, dy: int) -> bool {
    0 <= x + dx < n && 0 <= y + dy < n
}

/// How many steps a tile at `(x, y)` could still take before the edge.
pub open spec fn steps_left(n: int, x: int, y: int, dx: int, dy: int) -> int {
    if dx == -1 {
        x
    } else if dx == 1 {
        n - 1 - x
    } else if dy == -1 {
        y
    } else {
        n - 1 - y
    }
}

/// The cells a slide starting at `(x, y)` may touch: the start cell and
/// everything from there onward in the travel direction.
pub open spec fn ray_contains(x: int, y: int, dx: int, dy: int, a: int, b: int) -> bool {
    if dy == 0 {
        b == y && (if dx == -1 {
            a <= x
        } else {
            a >= x
        })
    } else {
        a == x && (if dy == -1 {
            b <= y
        } else {
            b >= y
        })
    }
}

/// One tile's greedy slide: step into empty cells while possible; merge into
/// an equal neighbour, doubling it and scoring twice the moved value; stop at
/// the edge or at a different neighbour. Returns the new board and the score
/// earned by this tile.
pub open spec fn slide(g: Cells, x: int, y: int, dx: int, dy: int) -> (Cells, int)
    decreases steps_left(g.len() as int, x, y, dx, dy),
        when valid_dir(dx, dy) && in_bounds(g, x, y)
{
    let n = g.len() as int;
    if !next_in_bounds(n, x, y, dx, dy) {
        (g, 0)
    } else {
        let nx = x + dx;
        let ny = y + dy;
        match cell(g, nx, ny) {
            None => slide(cell_set(cell_set(g, x, y, None), nx, ny, cell(g, x, y)), nx, ny, dx, dy),
            Some(w) => if cell(g, x, y) == Some(w) {
                (
                    cell_set(cell_set(g, x, y, None), nx, ny, Some(((w + w) as usize))),
                    2 * (w as int),
                )
            } else {
                (g, 0)
            },
        }
    }
}

/// What one processed position contributes to a pass: nothing when the cell
/// is empty, otherwise its slide.
pub open spec fn resolve_tile(g: Cells, x: int, y: int, dx: int, dy: int) -> (Cells, int) {
    if cell(g, x, y) is None {
        (g, 0)
    } else {
        slide(g, x, y, dx, dy)
    }
}

/// Replacing a cell neither changes the board's height nor any row's length.
pub proof fn lemma_cell_set_square(g: Cells, x: int, y: int, v: Option<usize>)
    requires
        square(g),
        in_bounds(g, x, y),
    ensures
        cell_set(g, x, y, v).len() == g.len(),
        square(cell_set(g, x, y, v)),
        forall|a: int, b: int|
            in_bounds(g, a, b) && !(a == x && b == y) ==> cell(cell_set(g, x, y, v), a, b) == cell(
                g,
                a,
                b,
            ),
        cell(cell_set(g, x, y, v), x, y) == v,
{
    let g2 = cell_set(g, x, y, v);
    assert forall|b: int| 0 <= b < g2.len() implies (#[trigger] g2[b]).len() == g2.len() by {
        if b == y {
            assert(g2[b] == g[y].update(x, v));
        } else {
            assert(g2[b] == g[b]);
        }
    }
}

/// The facts a pass needs about one tile's slide: the board keeps its shape
/// and its total value, only cells on the slide's ray change, every changed
/// cell is now empty, carries the moved tile's value, or carries its double,
/// and the score is at most twice the moved tile's value.
pub proof fn lemma_slide(g: Cells, x: int, y: int, dx: int, dy: int)
    requires
        square(g),
        valid_dir(dx, dy),
        in_bounds(g, x, y),
        cell(g, x, y) is Some,
        2 * grid_sum(g) <= usize::MAX,
    ensures
        slide(g, x, y, dx, dy).0.len() == g.len(),
        square(slide(g, x, y, dx, dy).0),
        grid_sum(slide(g, x, y, dx, dy).0) == grid_sum(g),
        0 <= slide(g, x, y, dx, dy).1 <= 2 * tile_val(cell(g, x, y)),
        forall|a: int, b: int|
            in_bounds(g, a, b) && !ray_contains(x, y, dx, dy, a, b) ==> cell(
                slide(g, x, y, dx, dy).0,
                a,
                b,
            ) == cell(g, a, b),
        forall|a: int, b: int|
            in_bounds(g, a, b) && cell(slide(g, x, y, dx, dy).0, a, b) != cell(g, a, b) ==> {
                ||| cell(slide(g, x, y, dx, dy).0, a, b) is None
                ||| tile_val(cell(slide(g, x, y, dx, dy).0, a, b)) == tile_val(cell(g, x, y))
                ||| tile_val(cell(slide(g, x, y, dx, dy).0, a, b)) == 2 * tile_val(cell(g, x, y))
            },
    decreases steps_left(g.len() as int, x, y, dx, dy),
{
    let n = g.len() as int;
    let r = slide(g, x, y, dx, dy);
    let v0 = tile_val(cell(g, x, y));
    lemma_cell_le_grid_sum(g, x, y);
    if !next_in_bounds(n, x, y, dx, dy) {
        // the tile is at the edge; nothing changes
    } else {
        let nx = x + dx;
        let ny = y + dy;
        match cell(g, nx, ny) {
            None => {
                let g1 = cell_set(cell_set(g, x, y, None), nx, ny, cell(g, x, y));
                lemma_cell_set_square(g, x, y, None);
                lemma_cell_set_square(cell_set(g, x, y, None), nx, ny, cell(g, x, y));
                lemma_grid_sum_cell_set(g, x, y, None);
                lemma_grid_sum_cell_set(cell_set(g, x, y, None), nx, ny, cell(g, x, y));
                assert(grid_sum(g1) == grid_sum(g));
                lemma_slide(g1, nx, ny, dx, dy);
                assert forall|a: int, b: int|
                    in_bounds(g, a, b) && !ray_contains(x, y, dx, dy, a, b) implies cell(
                    r.0,
                    a,
                    b,
                ) == cell(g, a, b) by {
                    assert(!(a == x && b == y));
                    assert(!(a == nx && b == ny));
                    assert(cell(g1, a, b) == cell(g, a, b));
                    assert(!ray_contains(nx, ny, dx, dy, a, b));
                }
                assert forall|a: int, b: int|
                    in_bounds(g, a, b) && cell(r.0, a, b) != cell(g, a, b) implies {
                    ||| cell(r.0, a, b) is None
                    ||| tile_val(cell(r.0, a, b)) == v0
                    ||| tile_val(cell(r.0, a, b)) == 2 * v0
                } by {
                    if cell(r.0, a, b) != cell(g1, a, b) {
                        assert(tile_val(cell(g1, nx, ny)) == v0);
                    } else {
                        // changed in the first step: cleared or moved
                        assert((a == x && b == y) || (a == nx && b == ny));
                    }
                }
            },
            Some(w) => {
                if cell(g, x, y) == Some(w) {
                    let cleared = cell_set(g, x, y, None);
                    let merged = cell_set(cleared, nx, ny, Some(((w + w) as usize)));
                    lemma_cell_set_square(g, x, y, None);
                    lemma_cell_set_square(cleared, nx, ny, Some(((w + w) as usize)));
                    lemma_grid_sum_cell_set(g, x, y, None);
                    lemma_grid_sum_cell_set(cleared, nx, ny, Some(((w + w) as usize)));
                    assert(w + w <= usize::MAX) by {
                        lemma_cell_le_grid_sum(g, x, y);
                    }
                    assert(tile_val(Some(((w + w) as usize))) == 2 * v0);
                    assert(cell(cleared, nx, ny) == cell(g, nx, ny));
                    assert(grid_sum(merged) == grid_sum(g));
                } else {
                    // blocked by a different neighbour; nothing changes
                }
            },
        }
    }
}

/// A pass processes each line (row for horizontal travel, column for
/// vertical travel) position by position, near edge first. `pos_in_line`
/// gives the `i`-th processed position of a line.
pub open spec fn pos_in_line(n: int, dx: int, dy: int, line: int, i: int) -> (int, int) {
    if dy == 0 {
        (
            if dx == -1 {
                i
            } else {
                n - 1 - i
            },
            line,
        )
    } else {
        (
            line,
            if dy == -1 {
                i
            } else {
                n - 1 - i
            },
        )
    }
}

/// Which line a cell belongs to for the given travel direction.
pub open spec fn line_of(dx: int, dy: int, a: int, b: int) -> int {
    if dy == 0 {
        b
    } else {
        a
    }
}

/// The cell at the `i`-th processed position of a line.
pub open spec fn line_cell(g: Cells, dx: int, dy: int, line: int, i: int) -> Option<usize> {
    let p = pos_in_line(g.len() as int, dx, dy, line, i);
    cell(g, p.0, p.1)
}

/// The board and score after processing the first `i` positions of one line.
pub open spec fn resolve_line_to(g: Cells, dx: int, dy: int, line: int, i: int) -> (Cells, int)
    decreases i,
{
    if i <= 0 {
        (g, 0)
    } else {
        let prev = resolve_line_to(g, dx, dy, line, i - 1);
        let p = pos_in_line(g.len() as int, dx, dy, line, i - 1);
        let step = resolve_tile(prev.0, p.0, p.1, dx, dy);
        (step.0, prev.1 + step.1)
    }
}

/// Sum of the original values at the first `i` processed positions of a line.
pub open spec fn line_vals_to(g: Cells, dx: int, dy: int, line: int, i: int) -> int
    decreases i,
{
    if i <= 0 {
        0
    } else {
        line_vals_to(g, dx, dy, line, i - 1) + tile_val(line_cell(g, dx, dy, line, i - 1))
    }
}

/// The board and score after fully processing the first `l` lines.
pub open spec fn resolve_lines_to(g: Cells, dx: int, dy: int, l: int) -> (Cells, int)
    decreases l,
{
    if l <= 0 {
        (g, 0)
    } else {
        let prev = resolve_lines_to(g, dx, dy, l - 1);
        let ln = resolve_line_to(prev.0, dx, dy, l - 1, g.len() as int);
        (ln.0, prev.1 + ln.1)
    }
}

/// Sum of the original values in the first `l` lines.
pub open spec fn lines_vals_to(g: Cells, dx: int, dy: int, l: int) -> int
    decreases l,
{
    if l <= 0 {
        0
    } else {
        lines_vals_to(g, dx, dy, l - 1) + line_vals_to(g, dx, dy, l - 1, g.len() as int)
    }
}

/// A full pass of the board in the given direction: every line processed,
/// near edge first. Returns the resolved board and the score earned.
pub open spec fn resolve(g: Cells, dx: int, dy: int) -> (Cells, int) {
    resolve_lines_to(g, dx, dy, g.len() as int)
}

/// Some tile on the board has value `v`.
pub open spec fn value_in(g: Cells, v: int) -> bool {
    exists|c: int, d: int|
        in_bounds(g, c, d) && #[trigger] cell(g, c, d) is Some && tile_val(cell(g, c, d)) == v
}

/// A cell a pass may leave behind: empty, a value that was already on the
/// board, or double such a value.
pub open spec fn changed_ok(g: Cells, t: Option<usize>) -> bool {
    match t {
        None => true,
        Some(v) => value_in(g, v as int) || exists|w: int| #[trigger] value_in(g, w) && v as int == 2 * w,
    }
}

proof fn lemma_line_vals_nonneg(g: Cells, dx: int, dy: int, line: int, i: int)
    ensures
        line_vals_to(g, dx, dy, line, i) >= 0,
    decreases i,
{
    if i > 0 {
        lemma_line_vals_nonneg(g, dx, dy, line, i - 1);
    }
}

proof fn lemma_line_vals_mono(g: Cells, dx: int, dy: int, line: int, i: int, j: int)
    requires
        i <= j,
    ensures
        line_vals_to(g, dx, dy, line, i) <= line_vals_to(g, dx, dy, line, j),
    decreases j - i,
{
    if i < j {
        lemma_line_vals_mono(g, dx, dy, line, i, j - 1);
    }
}

/// The partial sums of a line depend only on the cells at its processed
/// positions.
pub proof fn lemma_line_vals_congruent(g1: Cells, g2: Cells, dx: int, dy: int, line: int, i: int)
    requires
        g1.len() == g2.len(),
        forall|j: int|
            0 <= j < i ==> line_cell(g1, dx, dy, line, j) == line_cell(g2, dx, dy, line, j),
    ensures
        line_vals_to(g1, dx, dy, line, i) == line_vals_to(g2, dx, dy, line, i),
    decreases i,
{
    if i > 0 {
        lemma_line_vals_congruent(g1, g2, dx, dy, line, i - 1);
    }
}

/// What holds after processing the first `i` positions of one line: shape and
/// total value are kept, other lines and the line's unprocessed positions are
/// untouched, every changed cell is empty or holds an original value of a
/// processed position or its double, and the score is at most twice the sum
/// of the processed original values.
pub proof fn lemma_resolve_line_to(g: Cells, dx: int, dy: int, line: int, i: int)
    requires
        square(g),
        valid_dir(dx, dy),
        0 <= line < g.len(),
        0 <= i <= g.len(),
        2 * grid_sum(g) <= usize::MAX,
    ensures
        ({
            let r = resolve_line_to(g, dx, dy, line, i);
            &&& r.0.len() == g.len()
            &&& square(r.0)
            &&& grid_sum(r.0) == grid_sum(g)
            &&& 0 <= r.1 <= 2 * line_vals_to(g, dx, dy, line, i)
            &&& forall|a: int, b: int|
                in_bounds(g, a, b) && line_of(dx, dy, a, b) != line ==> cell(r.0, a, b) == cell(
                    g,
                    a,
                    b,
                )
            &&& forall|j: int|
                i <= j < g.len() ==> line_cell(r.0, dx, dy, line, j) == line_cell(
                    g,
                    dx,
                    dy,
                    line,
                    j,
                )
            &&& forall|a: int, b: int|
                in_bounds(g, a, b) && cell(r.0, a, b) != cell(g, a, b) ==> (cell(r.0, a, b) is None
                    || exists|j: int|
                    0 <= j < i && #[trigger] line_cell(g, dx, dy, line, j) is Some && (tile_val(
                        cell(r.0, a, b),
                    ) == tile_val(line_cell(g, dx, dy, line, j)) || tile_val(cell(r.0, a, b)) == 2
                        * tile_val(line_cell(g, dx, dy, line, j))))
        }),
    decreases i,
{
    let n = g.len() as int;
    let r = resolve_line_to(g, dx, dy, line, i);
    if i <= 0 {
        lemma_line_vals_nonneg(g, dx, dy, line, i);
    } else {
        lemma_resolve_line_to(g, dx, dy, line, i - 1);
        let prev = resolve_line_to(g, dx, dy, line, i - 1);
        let p = pos_in_line(n, dx, dy, line, i - 1);
        assert(in_bounds(g, p.0, p.1));
        assert(cell(prev.0, p.0, p.1) == line_cell(g, dx, dy, line, i - 1));
        lemma_line_vals_nonneg(g, dx, dy, line, i - 1);
        if cell(prev.0, p.0, p.1) is None {
            assert(r == (prev.0, prev.1));
            assert forall|j: int| i <= j < g.len() implies line_cell(r.0, dx, dy, line, j)
                == line_cell(g, dx, dy, line, j) by {}
        } else {
            lemma_slide(prev.0, p.0, p.1, dx, dy);
            let step = slide(prev.0, p.0, p.1, dx, dy);
            let v0 = tile_val(cell(prev.0, p.0, p.1));
            assert(v0 == tile_val(line_cell(g, dx, dy, line, i - 1)));
            // unprocessed positions of this line lie outside the slide's ray
            assert forall|j: int| i <= j < g.len() implies line_cell(r.0, dx, dy, line, j)
                == line_cell(g, dx, dy, line, j) by {
                let q = pos_in_line(n, dx, dy, line, j);
                assert(in_bounds(g, q.0, q.1));
                assert(!ray_contains(p.0, p.1, dx, dy, q.0, q.1));
                assert(cell(step.0, q.0, q.1) == cell(prev.0, q.0, q.1));
            }
            // other lines lie outside the ray as well
            assert forall|a: int, b: int|
                in_bounds(g, a, b) && line_of(dx, dy, a, b) != line implies cell(r.0, a, b) == cell(
                g,
                a,
                b,
            ) by {
                assert(!ray_contains(p.0, p.1, dx, dy, a, b));
            }
            // every changed cell traces back to a processed original value
            assert forall|a: int, b: int|
                in_bounds(g, a, b) && cell(r.0, a, b) != cell(g, a, b) && !(cell(
                    r.0,
                    a,
                    b,
                ) is None) implies exists|j: int|
                0 <= j < i && #[trigger] line_cell(g, dx, dy, line, j) is Some && (tile_val(
                    cell(r.0, a, b),
                ) == tile_val(line_cell(g, dx, dy, line, j)) || tile_val(cell(r.0, a, b)) == 2
                    * tile_val(line_cell(g, dx, dy, line, j))) by {
                if cell(step.0, a, b) != cell(prev.0, a, b) {
                    assert(line_cell(g, dx, dy, line, i - 1) is Some);
                    assert(tile_val(cell(r.0, a, b)) == v0 || tile_val(cell(r.0, a, b)) == 2 * v0);
                    assert(0 <= i - 1 < i && line_cell(g, dx, dy, line, i - 1) is Some && (tile_val(
                        cell(r.0, a, b),
                    ) == tile_val(line_cell(g, dx, dy, line, i - 1)) || tile_val(cell(r.0, a, b))
                        == 2 * tile_val(line_cell(g, dx, dy, line, i - 1))));
                } else {
                    assert(cell(prev.0, a, b) != cell(g, a, b));
                }
            }
        }
    }
}

proof fn lemma_lines_vals_nonneg(g: Cells, dx: int, dy: int, l: int)
    ensures
        lines_vals_to(g, dx, dy, l) >= 0,
    decreases l,
{
    if l > 0 {
        lemma_lines_vals_nonneg(g, dx, dy, l - 1);
        lemma_line_vals_nonneg(g, dx, dy, l - 1, g.len() as int);
    }
}

/// What holds after fully processing the first `l` lines: shape and total
/// value kept, later lines untouched, changed cells empty or an original
/// value or its double, score at most twice the processed lines' value.
pub proof fn lemma_resolve_lines_to(g: Cells, dx: int, dy: int, l: int)
    requires
        square(g),
        valid_dir(dx, dy),
        0 <= l <= g.len(),
        2 * grid_sum(g) <= usize::MAX,
    ensures
        ({
            let r = resolve_lines_to(g, dx, dy, l);
            &&& r.0.len() == g.len()
            &&& square(r.0)
            &&& grid_sum(r.0) == grid_sum(g)
            &&& 0 <= r.1 <= 2 * lines_vals_to(g, dx, dy, l)
            &&& forall|a: int, b: int|
                in_bounds(g, a, b) && line_of(dx, dy, a, b) >= l ==> cell(r.0, a, b) == cell(
                    g,
                    a,
                    b,
                )
            &&& forall|a: int, b: int|
                in_bounds(g, a, b) && cell(r.0, a, b) != cell(g, a, b) ==> changed_ok(
                    g,
                    cell(r.0, a, b),
                )
        }),
    decreases l,
{
    let n = g.len() as int;
    let r = resolve_lines_to(g, dx, dy, l);
    if l <= 0 {
    } else {
        lemma_resolve_lines_to(g, dx, dy, l - 1);
        let prev = resolve_lines_to(g, dx, dy, l - 1);
        let ln = resolve_line_to(prev.0, dx, dy, l - 1, n);
        lemma_resolve_line_to(prev.0, dx, dy, l - 1, n);
        // the processed line still holds its original cells
        assert forall|j: int| 0 <= j < n implies #[trigger] line_cell(prev.0, dx, dy, l - 1, j)
            == line_cell(g, dx, dy, l - 1, j) by {
            let q = pos_in_line(n, dx, dy, l - 1, j);
            assert(in_bounds(g, q.0, q.1));
            assert(line_of(dx, dy, q.0, q.1) == l - 1 >= l - 1);
        }
        lemma_line_vals_congruent(prev.0, g, dx, dy, l - 1, n);
        lemma_lines_vals_nonneg(g, dx, dy, l - 1);
        lemma_line_vals_nonneg(g, dx, dy, l - 1, n);
        // later lines are untouched by both stages
        assert forall|a: int, b: int|
            in_bounds(g, a, b) && line_of(dx, dy, a, b) >= l implies cell(r.0, a, b) == cell(
            g,
            a,
            b,
        ) by {
            assert(cell(prev.0, a, b) == cell(g, a, b));
        }
        // changed cells: either changed earlier, or by this line's pass
        assert forall|a: int, b: int|
            in_bounds(g, a, b) && cell(r.0, a, b) != cell(g, a, b) implies changed_ok(
            g,
            cell(r.0, a, b),
        ) by {
            if cell(ln.0, a, b) != cell(prev.0, a, b) {
                if !(cell(r.0, a, b) is None) {
                    let j = choose|j: int|
                        0 <= j < n && #[trigger] line_cell(prev.0, dx, dy, l - 1, j) is Some && (
                        tile_val(cell(ln.0, a, b)) == tile_val(line_cell(prev.0, dx, dy, l - 1, j))
                            || tile_val(cell(ln.0, a, b)) == 2 * tile_val(
                            line_cell(prev.0, dx, dy, l - 1, j),
                        ));
                    let q = pos_in_line(n, dx, dy, l - 1, j);
                    assert(in_bounds(g, q.0, q.1));
                    assert(cell(g, q.0, q.1) == line_cell(g, dx, dy, l - 1, j));
                    assert(cell(g, q.0, q.1) is Some);
                    let w = tile_val(cell(g, q.0, q.1));
                    assert(value_in(g, w));
                    if tile_val(cell(r.0, a, b)) == 2 * w {
                        assert(changed_ok(g, cell(r.0, a, b)));
                    } else {
                        assert(tile_val(cell(r.0, a, b)) == w);
                        assert(cell(r.0, a, b) is Some);
                        assert(value_in(g, tile_val(cell(r.0, a, b))));
                    }
                }
            } else {
                assert(cell(prev.0, a, b) != cell(g, a, b));
            }
        }
    }
}

/// Sum of the first `i` cells of one column.
pub open spec fn col_sum_to(g: Cells, x: int, i: int) -> int
    decreases i,
{
    if i <= 0 {
        0
    } else {
        col_sum_to(g, x, i - 1) + tile_val(cell(g, x, i - 1))
    }
}

/// Sum of the first `k` columns, each over its first `rows` cells.
pub open spec fn cols_partial(g: Cells, k: int, rows: int) -> int
    decreases k,
{
    if k <= 0 {
        0
    } else {
        cols_partial(g, k - 1, rows) + col_sum_to(g, k - 1, rows)
    }
}

proof fn lemma_col_sum_to_nonneg(g: Cells, x: int, i: int)
    ensures
        col_sum_to(g, x, i) >= 0,
    decreases i,
{
    if i > 0 {
        lemma_col_sum_to_nonneg(g, x, i - 1);
    }
}

proof fn lemma_cols_partial_row_step(g: Cells, k: int, rows: int)
    requires
        0 <= rows,
    ensures
        cols_partial(g, k, rows + 1) == cols_partial(g, k, rows) + row_sum_to(g[rows], k),
    decreases k,
{
    if k > 0 {
        lemma_cols_partial_row_step(g, k - 1, rows);
    }
}

/// Summing the board by columns gives the same total as summing it by rows.
proof fn lemma_cols_partial_total(g: Cells, rows: int)
    requires
        square(g),
        0 <= rows <= g.len(),
    ensures
        cols_partial(g, g.len() as int, rows) == grid_sum_to(g, rows),
    decreases rows,
{
    let n = g.len() as int;
    if rows <= 0 {
        lemma_cols_partial_zero(g, n);
    } else {
        lemma_cols_partial_total(g, rows - 1);
        lemma_cols_partial_row_step(g, n, rows - 1);
        assert(row_sum(g[rows - 1]) == row_sum_to(g[rows - 1], n));
    }
}

proof fn lemma_cols_partial_zero(g: Cells, k: int)
    ensures
        cols_partial(g, k, 0) == 0,
    decreases k,
{
    if k > 0 {
        lemma_cols_partial_zero(g, k - 1);
    }
}

proof fn lemma_cols_partial_mono(g: Cells, i: int, j: int, rows: int)
    requires
        i <= j,
    ensures
        cols_partial(g, i, rows) <= cols_partial(g, j, rows),
    decreases j - i,
{
    if i < j {
        lemma_cols_partial_mono(g, i, j - 1, rows);
        lemma_col_sum_to_nonneg(g, j - 1, rows);
    }
}

/// The original values of one line, fully enumerated, sum to that row's or
/// column's total.
proof fn lemma_line_vals_full(g: Cells, dx: int, dy: int, line: int, i: int)
    requires
        square(g),
        valid_dir(dx, dy),
        0 <= line < g.len(),
        0 <= i <= g.len(),
    ensures
        dy == 0 && dx == -1 ==> line_vals_to(g, dx, dy, line, i) == row_sum_to(g[line], i),
        dy == 0 && dx == 1 ==> line_vals_to(g, dx, dy, line, i) == row_sum_to(g[line], g.len() as int)
            - row_sum_to(g[line], g.len() - i),
        dx == 0 && dy == -1 ==> line_vals_to(g, dx, dy, line, i) == col_sum_to(g, line, i),
        dx == 0 && dy == 1 ==> line_vals_to(g, dx, dy, line, i) == col_sum_to(g, line, g.len() as int)
            - col_sum_to(g, line, g.len() - i),
    decreases i,
{
    if i > 0 {
        lemma_line_vals_full(g, dx, dy, line, i - 1);
    }
}

/// The original values of the first `l` lines sum to the first `l` rows
/// (horizontal travel) or the first `l` columns (vertical travel).
proof fn lemma_lines_vals_total(g: Cells, dx: int, dy: int, l: int)
    requires
        square(g),
        valid_dir(dx, dy),
        0 <= l <= g.len(),
    ensures
        dy == 0 ==> lines_vals_to(g, dx, dy, l) == grid_sum_to(g, l),
        dx == 0 ==> lines_vals_to(g, dx, dy, l) == cols_partial(g, l, g.len() as int),
    decreases l,
{
    let n = g.len() as int;
    if l > 0 {
        lemma_lines_vals_total(g, dx, dy, l - 1);
        lemma_line_vals_full(g, dx, dy, l - 1, n);
        if dy == 0 {
            assert(row_sum(g[l - 1]) == row_sum_to(g[l - 1], n));
            assert(row_sum_to(g[l - 1], 0) == 0);
        } else {
            assert(col_sum_to(g, l - 1, 0) == 0);
        }
    }
}

/// The value enumerated over any prefix of the pass never exceeds the board
/// total: used to keep the running score within machine bounds.
pub proof fn lemma_pass_partial_bound(g: Cells, dx: int, dy: int, l: int, i: int)
    requires
        square(g),
        valid_dir(dx, dy),
        0 <= l < g.len(),
        0 <= i <= g.len(),
    ensures
        lines_vals_to(g, dx, dy, l) >= 0,
        line_vals_to(g, dx, dy, l, i) >= 0,
        lines_vals_to(g, dx, dy, l) + line_vals_to(g, dx, dy, l, i) <= grid_sum(g),
{
    let n = g.len() as int;
    lemma_lines_vals_nonneg(g, dx, dy, l);
    lemma_line_vals_nonneg(g, dx, dy, l, i);
    lemma_line_vals_mono(g, dx, dy, l, i, n);
    assert(lines_vals_to(g, dx, dy, l) + line_vals_to(g, dx, dy, l, n) == lines_vals_to(
        g,
        dx,
        dy,
        l + 1,
    ));
    lemma_lines_vals_le_sum(g, dx, dy, l + 1);
}

/// The first `l` lines are worth at most the whole board.
pub proof fn lemma_lines_vals_le_sum(g: Cells, dx: int, dy: int, l: int)
    requires
        square(g),
        valid_dir(dx, dy),
        0 <= l <= g.len(),
    ensures
        lines_vals_to(g, dx, dy, l) <= grid_sum(g),
{
    let n = g.len() as int;
    lemma_lines_vals_total(g, dx, dy, l);
    if dy == 0 {
        lemma_grid_sum_to_mono(g, l, n);
    } else {
        lemma_cols_partial_mono(g, l, n, n);
        lemma_cols_partial_total(g, n);
    }
}

/// The laws of one full pass: the board keeps its shape; the total tile
/// value is conserved; the score is at most twice the board total; and every
/// cell the pass changed is now empty, holds a value that was already on the
/// board, or holds double such a value.
pub proof fn lemma_resolve(g: Cells, dx: int, dy: int)
    requires
        square(g),
        valid_dir(dx, dy),
        2 * grid_sum(g) <= usize::MAX,
    ensures
        ({
            let r = resolve(g, dx, dy);
            &&& r.0.len() == g.len()
            &&& square(r.0)
            &&& grid_sum(r.0) == grid_sum(g)
            &&& 0 <= r.1 <= 2 * grid_sum(g)
            &&& forall|a: int, b: int|
                in_bounds(g, a, b) && cell(r.0, a, b) != cell(g, a, b) ==> changed_ok(
                    g,
                    cell(r.0, a, b),
                )
        }),
{
    let n = g.len() as int;
    lemma_resolve_lines_to(g, dx, dy, n);
    lemma_lines_vals_le_sum(g, dx, dy, n);
    lemma_lines_vals_nonneg(g, dx, dy, n);
}

/// Merge conservation: resolving a board in any direction neither creates
/// nor destroys tile value; the total is exactly preserved.
pub proof fn lemma_resolve_conserves_sum(g: Cells, dx: int, dy: int)
    requires
        square(g),
        valid_dir(dx, dy),
        2 * grid_sum(g) <= usize::MAX,
    ensures
        grid_sum(resolve(g, dx, dy).0) == grid_sum(g),
{
    lemma_resolve(g, dx, dy);
}

/// At most one merge per tile per pass: every cell the pass changed is now
/// empty, holds a value that was already on the board, or holds exactly
/// double such a value — no tile value can grow past double of a value that
/// was there before the pass.
pub proof fn lemma_resolve_single_doubling(g: Cells, dx: int, dy: int)
    requires
        square(g),
        valid_dir(dx, dy),
        2 * grid_sum(g) <= usize::MAX,
    ensures
        forall|a: int, b: int|
            in_bounds(g, a, b) && cell(resolve(g, dx, dy).0, a, b) != cell(g, a, b)
                ==> changed_ok(g, cell(resolve(g, dx, dy).0, a, b)),
{
    lemma_resolve(g, dx, dy);
}

/// No tile can move in direction `(dx, dy)`: every neighbour in that
/// direction differs from its cell.
pub open spec fn no_merge_step(g: Cells, dx: int, dy: int) -> bool {
    forall|x: int, y: int|
        in_bounds(g, x, y) && next_in_bounds(g.len() as int, x, y, dx, dy) ==> #[trigger] cell(
            g,
            x,
            y,
        ) != cell(g, x + dx, y + dy)
}

proof fn lemma_blocked_line(g: Cells, dx: int, dy: int, line: int, i: int)
    requires
        square(g),
        valid_dir(dx, dy),
        is_full(g),
        no_merge_step(g, dx, dy),
        0 <= line < g.len(),
        0 <= i <= g.len(),
    ensures
        resolve_line_to(g, dx, dy, line, i).0 == g,
        resolve_line_to(g, dx, dy, line, i).1 == 0,
    decreases i,
{
    if i > 0 {
        lemma_blocked_line(g, dx, dy, line, i - 1);
        let n = g.len() as int;
        let p = pos_in_line(n, dx, dy, line, i - 1);
        assert(in_bounds(g, p.0, p.1));
        assert(cell(g, p.0, p.1) is Some);
        if next_in_bounds(n, p.0, p.1, dx, dy) {
            assert(cell(g, p.0 + dx, p.1 + dy) is Some);
            assert(cell(g, p.0, p.1) != cell(g, p.0 + dx, p.1 + dy));
        }
        assert(slide(g, p.0, p.1, dx, dy).0 == g && slide(g, p.0, p.1, dx, dy).1 == 0);
    }
}

/// A full board with no equal neighbours in the travel direction is left
/// bit-for-bit unchanged by the pass, and the pass scores nothing.
pub proof fn lemma_resolve_blocked(g: Cells, dx: int, dy: int)
    requires
        square(g),
        valid_dir(dx, dy),
        is_full(g),
        no_merge_step(g, dx, dy),
    ensures
        resolve(g, dx, dy).0 == g,
        resolve(g, dx, dy).1 == 0,
{
    lemma_blocked_lines(g, dx, dy, g.len() as int);
}

proof fn lemma_blocked_lines(g: Cells, dx: int, dy: int, l: int)
    requires
        square(g),
        valid_dir(dx, dy),
        is_full(g),
        no_merge_step(g, dx, dy),
        0 <= l <= g.len(),
    ensures
        resolve_lines_to(g, dx, dy, l).0 == g,
        resolve_lines_to(g, dx, dy, l).1 == 0,
    decreases l,
{
    if l > 0 {
        lemma_blocked_lines(g, dx, dy, l - 1);
        lemma_blocked_line(g, dx, dy, l - 1, g.len() as int);
    }
}

} // verus!
