//! The playing board: a square matrix of optional tile values, together with
//! the mathematical model (cell access, sums, tile counts) that the rest of
//! the crate states its contracts over.

use vstd::prelude::*;

verus! {

/// The model of a board: row-major cells, `g[y][x]` is the tile in column `x`
/// of row `y`.
pub type Cells = Seq<Seq<Option<usize>>>;

/// A single grid cell: either empty or holding a tile value.
#[derive(Clone, Copy, Debug)]
pub struct Tile {
    value: Option<usize>,
}

impl View for Tile {
    type V = Option<usize>;

    closed spec fn view(&self) -> Option<usize> {
        self.value
    }
}

impl Tile {
    pub fn new_with_value(value: usize) -> (t: Self)
        ensures
            t@ == Some(value),
    {
        Self { value: Some(value) }
    }

    pub fn new_empty() -> (t: Self)
        ensures
            t@ is None,
    {
        Self { value: None }
    }

    pub fn value(&self) -> (r: Option<usize>)
        ensures
            r == self@,
    {
        self.value
    }

    pub fn is_empty(&self) -> (r: bool)
        ensures
            r == (self@ is None),
    {
        if let Some(_) = self.value {
            false
        } else {
            true
        }
    }
}

/// The numeric value a cell contributes to the board total: its tile value,
/// or zero when empty.
pub open spec fn tile_val(t: Option<usize>) -> int {
    match t {
        Some(v) => v as int,
        None => 0,
    }
}

/// One if the cell holds a tile, zero if it is empty.
pub open spec fn tile_count(t: Option<usize>) -> int {
    match t {
        Some(v) => 1,
        None => 0,
    }
}

/// Every row is as long as the grid is high.
pub open spec fn square(g: Cells) -> bool {
    forall|y: int| 0 <= y < g.len() ==> (#[trigger] g[y]).len() == g.len()
}

pub open spec fn in_bounds(g: Cells, x: int, y: int) -> bool {
    0 <= y < g.len() && 0 <= x < g.len()
}

pub open spec fn cell(g: Cells, x: int, y: int) -> Option<usize> {
    g[y][x]
}

/// The board with the cell at `(x, y)` replaced by `v`.
pub open spec fn cell_set(g: Cells, x: int, y: int, v: Option<usize>) -> Cells {
    g.update(y, g[y].update(x, v))
}

/// Sum of the first `i` cells of a row.
pub open spec fn row_sum_to(row: Seq<Option<usize>>, i: int) -> int
    decreases i,
{
    if i <= 0 {
        0
    } else {
        row_sum_to(row, i - 1) + tile_val(row[i - 1])
    }
}

pub open spec fn row_sum(row: Seq<Option<usize>>) -> int {
    row_sum_to(row, row.len() as int)
}

/// Sum of all cells in the first `y` rows.
pub open spec fn grid_sum_to(g: Cells, y: int) -> int
    decreases y,
{
    if y <= 0 {
        0
    } else {
        grid_sum_to(g, y - 1) + row_sum(g[y - 1])
    }
}

/// Sum of all tile values on the board.
pub open spec fn grid_sum(g: Cells) -> int {
    grid_sum_to(g, g.len() as int)
}

/// Number of tiles among the first `i` cells of a row.
pub open spec fn row_count_to(row: Seq<Option<usize>>, i: int) -> int
    decreases i,
{
    if i <= 0 {
        0
    } else {
        row_count_to(row, i - 1) + tile_count(row[i - 1])
    }
}

pub open spec fn row_count(row: Seq<Option<usize>>) -> int {
    row_count_to(row, row.len() as int)
}

/// Number of tiles in the first `y` rows.
pub open spec fn grid_count_to(g: Cells, y: int) -> int
    decreases y,
{
    if y <= 0 {
        0
    } else {
        grid_count_to(g, y - 1) + row_count(g[y - 1])
    }
}

/// Number of non-empty cells on the board.
pub open spec fn grid_count(g: Cells) -> int {
    grid_count_to(g, g.len() as int)
}

/// Every cell holds a tile.
pub open spec fn is_full(g: Cells) -> bool {
    forall|x: int, y: int| in_bounds(g, x, y) ==> #[trigger] cell(g, x, y) is Some
}

pub proof fn lemma_row_sum_to_nonneg(row: Seq<Option<usize>>, i: int)
    ensures
        row_sum_to(row, i) >= 0,
    decreases i,
{
    if i > 0 {
        lemma_row_sum_to_nonneg(row, i - 1);
    }
}

pub proof fn lemma_row_sum_to_mono(row: Seq<Option<usize>>, i: int, j: int)
    requires
        i <= j,
    ensures
        row_sum_to(row, i) <= row_sum_to(row, j),
    decreases j - i,
{
    if i < j {
        lemma_row_sum_to_mono(row, i, j - 1);
    }
}

pub proof fn lemma_grid_sum_to_nonneg(g: Cells, y: int)
    ensures
        grid_sum_to(g, y) >= 0,
    decreases y,
{
    if y > 0 {
        lemma_grid_sum_to_nonneg(g, y - 1);
        lemma_row_sum_to_nonneg(g[y - 1], g[y - 1].len() as int);
    }
}

pub proof fn lemma_grid_sum_to_mono(g: Cells, i: int, j: int)
    requires
        i <= j,
    ensures
        grid_sum_to(g, i) <= grid_sum_to(g, j),
    decreases j - i,
{
    if i < j {
        lemma_grid_sum_to_mono(g, i, j - 1);
        lemma_row_sum_to_nonneg(g[j - 1], g[j - 1].len() as int);
    }
}

/// A single tile is worth no more than the whole board.
pub proof fn lemma_cell_le_grid_sum(g: Cells, x: int, y: int)
    requires
        square(g),
        in_bounds(g, x, y),
    ensures
        0 <= tile_val(cell(g, x, y)),
        tile_val(cell(g, x, y)) <= grid_sum(g),
{
    lemma_row_sum_to_mono(g[y], x + 1, g[y].len() as int);
    lemma_row_sum_to_nonneg(g[y], x);
    lemma_grid_sum_to_nonneg(g, y);
    lemma_grid_sum_to_mono(g, y + 1, g.len() as int);
}

/// Changing one cell past position `i` leaves the partial row sum alone;
/// changing one before it shifts the sum by the difference.
proof fn lemma_row_sum_to_update(row: Seq<Option<usize>>, i: int, j: int, v: Option<usize>)
    requires
        0 <= j < row.len(),
        i <= row.len(),
    ensures
        row_sum_to(row.update(j, v), i) == row_sum_to(row, i) + if j < i {
            tile_val(v) - tile_val(row[j])
        } else {
            0
        },
    decreases i,
{
    if i > 0 {
        lemma_row_sum_to_update(row, i - 1, j, v);
    }
}

proof fn lemma_grid_sum_to_row_update(g: Cells, i: int, y: int, new_row: Seq<Option<usize>>)
    requires
        0 <= y < g.len(),
        i <= g.len(),
    ensures
        grid_sum_to(g.update(y, new_row), i) == grid_sum_to(g, i) + if y < i {
            row_sum(new_row) - row_sum(g[y])
        } else {
            0
        },
    decreases i,
{
    if i > 0 {
        lemma_grid_sum_to_row_update(g, i - 1, y, new_row);
    }
}

/// Replacing the cell at `(x, y)` changes the board sum by exactly the
/// difference of the two tile values.
pub proof fn lemma_grid_sum_cell_set(g: Cells, x: int, y: int, v: Option<usize>)
    requires
        square(g),
        in_bounds(g, x, y),
    ensures
        grid_sum(cell_set(g, x, y, v)) == grid_sum(g) + tile_val(v) - tile_val(cell(g, x, y)),
{
    let new_row = g[y].update(x, v);
    lemma_row_sum_to_update(g[y], g[y].len() as int, x, v);
    lemma_grid_sum_to_row_update(g, g.len() as int, y, new_row);
}

proof fn lemma_row_count_to_update(row: Seq<Option<usize>>, i: int, j: int, v: Option<usize>)
    requires
        0 <= j < row.len(),
        i <= row.len(),
    ensures
        row_count_to(row.update(j, v), i) == row_count_to(row, i) + if j < i {
            tile_count(v) - tile_count(row[j])
        } else {
            0
        },
    decreases i,
{
    if i > 0 {
        lemma_row_count_to_update(row, i - 1, j, v);
    }
}

proof fn lemma_grid_count_to_row_update(g: Cells, i: int, y: int, new_row: Seq<Option<usize>>)
    requires
        0 <= y < g.len(),
        i <= g.len(),
    ensures
        grid_count_to(g.update(y, new_row), i) == grid_count_to(g, i) + if y < i {
            row_count(new_row) - row_count(g[y])
        } else {
            0
        },
    decreases i,
{
    if i > 0 {
        lemma_grid_count_to_row_update(g, i - 1, y, new_row);
    }
}

/// Replacing the cell at `(x, y)` changes the tile count by the difference
/// of the two occupancies.
pub proof fn lemma_grid_count_cell_set(g: Cells, x: int, y: int, v: Option<usize>)
    requires
        square(g),
        in_bounds(g, x, y),
    ensures
        grid_count(cell_set(g, x, y, v)) == grid_count(g) + tile_count(v) - tile_count(
            cell(g, x, y),
        ),
{
    let new_row = g[y].update(x, v);
    lemma_row_count_to_update(g[y], g[y].len() as int, x, v);
    lemma_grid_count_to_row_update(g, g.len() as int, y, new_row);
}

/// Boards of equal shape with equal cells are equal.
pub proof fn lemma_cells_equal(g1: Cells, g2: Cells)
    requires
        square(g1),
        square(g2),
        g1.len() == g2.len(),
        forall|x: int, y: int| in_bounds(g1, x, y) ==> #[trigger] cell(g1, x, y) == cell(g2, x, y),
    ensures
        g1 == g2,
{
    assert forall|y: int| 0 <= y < g1.len() implies g1[y] == g2[y] by {
        assert forall|x: int| 0 <= x < g1[y].len() implies g1[y][x] == g2[y][x] by {
            assert(cell(g1, x, y) == cell(g2, x, y));
        }
        assert(g1[y] =~= g2[y]);
    }
    assert(g1 =~= g2);
}

proof fn lemma_row_count_to_le(row: Seq<Option<usize>>, i: int)
    requires
        0 <= i,
    ensures
        0 <= row_count_to(row, i) <= i,
    decreases i,
{
    if i > 0 {
        lemma_row_count_to_le(row, i - 1);
    }
}

proof fn lemma_grid_count_to_le(g: Cells, y: int)
    requires
        square(g),
        0 <= y <= g.len(),
    ensures
        0 <= grid_count_to(g, y) <= y * g.len(),
    decreases y,
{
    if y > 0 {
        lemma_grid_count_to_le(g, y - 1);
        lemma_row_count_to_le(g[y - 1], g[y - 1].len() as int);
        assert(y * g.len() == (y - 1) * g.len() + g.len()) by (nonlinear_arith);
    } else {
        assert(y * g.len() == 0) by (nonlinear_arith)
            requires y == 0;
    }
}

/// The number of tiles on a board never exceeds its number of cells.
pub proof fn lemma_grid_count_bounds(g: Cells)
    requires
        square(g),
    ensures
        0 <= grid_count(g) <= g.len() * g.len(),
{
    lemma_grid_count_to_le(g, g.len() as int);
}

proof fn lemma_full_row_count(row: Seq<Option<usize>>, i: int)
    requires
        0 <= i <= row.len(),
        forall|x: int| 0 <= x < row.len() ==> (#[trigger] row[x]) is Some,
    ensures
        row_count_to(row, i) == i,
    decreases i,
{
    if i > 0 {
        lemma_full_row_count(row, i - 1);
    }
}

proof fn lemma_full_grid_count_to(g: Cells, y: int)
    requires
        square(g),
        is_full(g),
        0 <= y <= g.len(),
    ensures
        grid_count_to(g, y) == y * g.len(),
    decreases y,
{
    if y > 0 {
        lemma_full_grid_count_to(g, y - 1);
        assert forall|x: int| 0 <= x < g[y - 1].len() implies (#[trigger] g[y - 1][x]) is Some by {
            assert(cell(g, x, y - 1) is Some);
        }
        lemma_full_row_count(g[y - 1], g[y - 1].len() as int);
        assert(grid_count_to(g, y - 1) == (y - 1) * g.len());
        assert(row_count(g[y - 1]) == g.len());
        assert(grid_count_to(g, y) == grid_count_to(g, y - 1) + row_count(g[y - 1]));
        assert(y * g.len() == (y - 1) * g.len() + g.len()) by (nonlinear_arith);
        assert(grid_count_to(g, y) == y * g.len());
    } else {
        assert(y * g.len() == 0) by (nonlinear_arith)
            requires y == 0;
    }
}

/// A full board holds exactly one tile per cell.
pub proof fn lemma_full_grid_count(g: Cells)
    requires
        square(g),
        is_full(g),
    ensures
        grid_count(g) == g.len() * g.len(),
{
    lemma_full_grid_count_to(g, g.len() as int);
}

proof fn lemma_empty_row(row: Seq<Option<usize>>, i: int)
    requires
        forall|x: int| 0 <= x < row.len() ==> (#[trigger] row[x]) is None,
        i <= row.len(),
    ensures
        row_sum_to(row, i) == 0,
        row_count_to(row, i) == 0,
    decreases i,
{
    if i > 0 {
        lemma_empty_row(row, i - 1);
    }
}

proof fn lemma_empty_grid_to(g: Cells, y: int)
    requires
        square(g),
        forall|x: int, yy: int| in_bounds(g, x, yy) ==> #[trigger] cell(g, x, yy) is None,
        y <= g.len(),
    ensures
        grid_sum_to(g, y) == 0,
        grid_count_to(g, y) == 0,
    decreases y,
{
    if y > 0 {
        lemma_empty_grid_to(g, y - 1);
        assert forall|x: int| 0 <= x < g[y - 1].len() implies (#[trigger] g[y - 1][x]) is None by {
            assert(cell(g, x, y - 1) is None);
        }
        lemma_empty_row(g[y - 1], g[y - 1].len() as int);
    }
}

/// A board with no tiles sums to zero and counts zero.
pub proof fn lemma_empty_grid(g: Cells)
    requires
        square(g),
        forall|x: int, y: int| in_bounds(g, x, y) ==> #[trigger] cell(g, x, y) is None,
    ensures
        grid_sum(g) == 0,
        grid_count(g) == 0,
{
    lemma_empty_grid_to(g, g.len() as int);
}

/// A square board of `size` by `size` optional tiles.
#[derive(Debug)]
pub struct Grid {
    size: usize,
    tiles: Vec<Vec<Tile>>,
}

impl Clone for Grid {
    /// A deep copy: rollouts simulate on private copies of the board.
    fn clone(&self) -> (res: Self)
        ensures
            res@ == self@,
            res.spec_size() == self.spec_size(),
    {
        let res = Grid { size: self.size, tiles: self.tiles.clone() };
        proof {
            assert forall|y: int| 0 <= y < res@.len() implies res@[y] == self@[y] by {
                assert(cloned::<Vec<Tile>>(self.tiles@[y], res.tiles@[y]));
                assert(res@[y] == res.tiles@[y]@.map_values(|t: Tile| t@));
                assert(self@[y] == self.tiles@[y]@.map_values(|t: Tile| t@));
                assert(res@[y] =~= self@[y]);
            }
            assert(res@ =~= self@);
        }
        res
    }
}

impl View for Grid {
    type V = Cells;

    closed spec fn view(&self) -> Cells {
        self.tiles@.map_values(|row: Vec<Tile>| row@.map_values(|t: Tile| t@))
    }
}

impl Grid {
    /// The board is as wide and high as its declared size, with square rows.
    pub open spec fn wf(&self) -> bool {
        self@.len() == self.spec_size() && square(self@)
    }

    pub closed spec fn spec_size(&self) -> usize {
        self.size
    }

    /// A freshly created grid of the given size, entirely empty.
    pub fn new(size: usize) -> (g: Grid)
        ensures
            g.wf(),
            g.spec_size() == size,
            g@.len() == size,
            forall|x: int, y: int| in_bounds(g@, x, y) ==> cell(g@, x, y) is None,
    {
        let mut tiles: Vec<Vec<Tile>> = Vec::new();
        while tiles.len() < size
            invariant
                tiles@.len() <= size,
                forall|y: int| #![trigger tiles@[y]]
                    0 <= y < tiles@.len() ==> {
                        &&& tiles@[y]@.len() == size
                        &&& forall|x: int| 0 <= x < size ==> tiles@[y]@[x]@ is None
                    },
            decreases size - tiles.len(),
        {
            let mut row: Vec<Tile> = Vec::new();
            while row.len() < size
                invariant
                    row@.len() <= size,
                    forall|x: int| 0 <= x < row@.len() ==> #[trigger] row@[x]@ is None,
                decreases size - row.len(),
            {
                row.push(Tile::new_empty());
            }
            tiles.push(row);
        }
        let g = Grid { size, tiles };
        proof {
            assert forall|x: int, y: int| in_bounds(g@, x, y) implies cell(g@, x, y) is None by {
                assert(g@[y] == g.tiles@[y]@.map_values(|t: Tile| t@));
            }
            assert forall|y: int| 0 <= y < g@.len() implies (#[trigger] g@[y]).len() == g@.len() by {
                assert(g@[y] == g.tiles@[y]@.map_values(|t: Tile| t@));
            }
        }
        g
    }

    /// Overwrite the tile at `pos`; `None` clears the cell. The caller must
    /// supply a position inside the board.
    pub fn set(&mut self, pos: (usize, usize), value: Option<usize>)
        requires
            old(self).wf(),
            pos.0 < old(self).spec_size(),
            pos.1 < old(self).spec_size(),
        ensures
            final(self).wf(),
            final(self).spec_size() == old(self).spec_size(),
            final(self)@ == cell_set(old(self)@, pos.0 as int, pos.1 as int, value),
    {
        let (x, y) = pos;
        let tile = if let Some(v) = value {
            Tile::new_with_value(v)
        } else {
            Tile::new_empty()
        };
        proof {
            assert(self@[y as int] == self.tiles@[y as int]@.map_values(|t: Tile| t@));
        }
        self.tiles[y][x] = tile;
        proof {
            let ghost prev = old(self)@;
            let ghost target = cell_set(prev, x as int, y as int, value);
            assert forall|yy: int| 0 <= yy < self@.len() implies self@[yy] == target[yy] by {
                assert(self@[yy] == self.tiles@[yy]@.map_values(|t: Tile| t@));
                assert(prev[yy] == old(self).tiles@[yy]@.map_values(|t: Tile| t@));
                if yy == y as int {
                    assert(self@[yy] =~= prev[yy].update(x as int, value));
                } else {
                    assert(self@[yy] =~= prev[yy]);
                }
            }
            assert(self@ =~= target);
        }
    }

    /// The tile at `pos`, or nothing when `pos` lies outside the board.
    pub fn get(&self, pos: (usize, usize)) -> (r: Option<&Tile>)
        requires
            self.wf(),
        ensures
            match r {
                Some(t) => {
                    &&& in_bounds(self@, pos.0 as int, pos.1 as int)
                    &&& t@ == cell(self@, pos.0 as int, pos.1 as int)
                },
                None => !in_bounds(self@, pos.0 as int, pos.1 as int),
            },
    {
        let (x, y) = pos;
        if y < self.tiles.len() {
            proof {
                assert(self@[y as int] == self.tiles@[y as int]@.map_values(|t: Tile| t@));
            }
            let row = &self.tiles[y];
            if x < row.len() {
                Some(&row[x])
            } else {
                None
            }
        } else {
            None
        }
    }

    /// The value of the tile at `pos`, or nothing when `pos` is outside the
    /// board or the cell is empty.
    pub fn get_val(&self, pos: (usize, usize)) -> (r: Option<usize>)
        requires
            self.wf(),
        ensures
            match r {
                Some(v) => {
                    &&& in_bounds(self@, pos.0 as int, pos.1 as int)
                    &&& cell(self@, pos.0 as int, pos.1 as int) == Some(v)
                },
                None => !in_bounds(self@, pos.0 as int, pos.1 as int) || cell(
                    self@,
                    pos.0 as int,
                    pos.1 as int,
                ) is None,
            },
    {
        match self.get(pos) {
            Some(tile) => tile.value(),
            None => None,
        }
    }

    pub fn size(&self) -> (r: usize)
        ensures
            r == self.spec_size(),
    {
        self.size
    }

    /// Copy the tile at `src` over `dst`, then clear `src`. When the two
    /// positions coincide the cell ends up cleared.
    pub fn move_tile(&mut self, src: (usize, usize), dst: (usize, usize))
        requires
            old(self).wf(),
            src.0 < old(self).spec_size(),
            src.1 < old(self).spec_size(),
            dst.0 < old(self).spec_size(),
            dst.1 < old(self).spec_size(),
        ensures
            final(self).wf(),
            final(self).spec_size() == old(self).spec_size(),
            final(self)@ == cell_set(
                cell_set(
                    old(self)@,
                    dst.0 as int,
                    dst.1 as int,
                    cell(old(self)@, src.0 as int, src.1 as int),
                ),
                src.0 as int,
                src.1 as int,
                None,
            ),
    {
        let moved = match self.get(src) {
            Some(tile) => tile.value(),
            None => None,
        };
        self.set(dst, moved);
        self.set(src, None);
    }

    /// Read-only access to the full matrix of tiles, for rendering and
    /// iteration by consumers of the board.
    pub fn tiles(&self) -> (r: &Vec<Vec<Tile>>)
        ensures
            r@.len() == self@.len(),
            forall|y: int| #![trigger r@[y]]
                0 <= y < self@.len() ==> {
                    &&& r@[y]@.len() == self@[y].len()
                    &&& forall|x: int| 0 <= x < self@[y].len() ==> r@[y]@[x]@ == self@[y][x]
                },
    {
        proof {
            assert forall|y: int| 0 <= y < self@.len() implies #[trigger] self.tiles@[y]@.len()
                == self@[y].len() && forall|x: int|
                0 <= x < self@[y].len() ==> self.tiles@[y]@[x]@ == self@[y][x] by {
                assert(self@[y] == self.tiles@[y]@.map_values(|t: Tile| t@));
            }
        }
        &self.tiles
    }

    /// The largest tile value on the board, or zero when the board is empty.
    pub fn biggest_value(&self) -> (r: usize)
        requires
            self.wf(),
        ensures
            forall|x: int, y: int|
                in_bounds(self@, x, y) ==> tile_val(#[trigger] cell(self@, x, y)) <= r,
            r == 0 || exists|x: int, y: int|
                in_bounds(self@, x, y) && #[trigger] cell(self@, x, y) == Some(r),
    {
        let mut best: usize = 0;
        let n = self.size();
        let mut y: usize = 0;
        while y < n
            invariant
                self.wf(),
                n == self.spec_size(),
                y <= n,
                forall|xx: int, yy: int|
                    0 <= xx < n && 0 <= yy < y ==> tile_val(#[trigger] cell(self@, xx, yy)) <= best,
                best == 0 || exists|xx: int, yy: int|
                    in_bounds(self@, xx, yy) && #[trigger] cell(self@, xx, yy) == Some(best),
            decreases n - y,
        {
            let mut x: usize = 0;
            while x < n
                invariant
                    self.wf(),
                    n == self.spec_size(),
                    y < n,
                    x <= n,
                    forall|xx: int, yy: int|
                        0 <= xx < n && 0 <= yy < y ==> tile_val(#[trigger] cell(self@, xx, yy))
                            <= best,
                    forall|xx: int|
                        0 <= xx < x ==> tile_val(#[trigger] cell(self@, xx, y as int)) <= best,
                    best == 0 || exists|xx: int, yy: int|
                        in_bounds(self@, xx, yy) && #[trigger] cell(self@, xx, yy) == Some(best),
                decreases n - x,
            {
                match self.get_val((x, y)) {
                    Some(v) => {
                        if v > best {
                            best = v;
                        }
                    },
                    None => {},
                }
                x += 1;
            }
            y += 1;
        }
        best
    }

    /// The sum of all tile values, or nothing when that sum does not fit in
    /// a machine word.
    pub fn checked_sum(&self) -> (r: Option<usize>)
        requires
            self.wf(),
        ensures
            match r {
                Some(s) => s == grid_sum(self@),
                None => grid_sum(self@) > usize::MAX,
            },
    {
        let n = self.size();
        let mut acc: usize = 0;
        let mut y: usize = 0;
        while y < n
            invariant
                self.wf(),
                n == self.spec_size(),
                y <= n,
                acc == grid_sum_to(self@, y as int),
            decreases n - y,
        {
            let mut x: usize = 0;
            while x < n
                invariant
                    self.wf(),
                    n == self.spec_size(),
                    y < n,
                    x <= n,
                    acc == grid_sum_to(self@, y as int) + row_sum_to(self@[y as int], x as int),
                decreases n - x,
            {
                let v = match self.get_val((x, y)) {
                    Some(v) => v,
                    None => 0,
                };
                if v > usize::MAX - acc {
                    proof {
                        lemma_row_sum_to_mono(self@[y as int], x as int + 1, self@[y as int].len() as int);
                        lemma_grid_sum_to_mono(self@, y as int + 1, self@.len() as int);
                        lemma_grid_sum_to_nonneg(self@, y as int);
                    }
                    return None;
                }
                acc = acc + v;
                x += 1;
            }
            y += 1;
        }
        proof {
            lemma_grid_sum_to_mono(self@, y as int, self@.len() as int);
        }
        Some(acc)
    }
}

} // verus!
