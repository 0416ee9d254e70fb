//! Rendering a board as box-drawn text, with an exact character-level
//! contract. Each tile is seven characters wide and three lines tall; rows
//! are framed and separated by box-drawing rules. Colouring tiles is left to
//! the embedding program: the colour of a value comes from floating-point
//! hashing, which stays outside the verified core.

use vstd::prelude::*;

use crate::grid::{Grid, Tile};
use crate::text::{decimal_string, pad_both, spec_decimal, spec_pad_both, spec_spaces};

verus! {

/// One line of a rendered tile: the top or bottom of its box, the value
/// centred to the tile width, or all spaces for an empty tile.
pub open spec fn spec_tile_line(t: Option<usize>, j: int) -> Seq<char> {
    match t {
        None => spec_spaces(7),
        Some(v) => if j == 0 {
            "┌─   ─┐"@
        } else if j == 1 {
            spec_pad_both(spec_decimal(v as int), 7)
        } else {
            "└─   ─┘"@
        },
    }
}

/// The full three-line text of one tile.
pub open spec fn spec_tile_display(t: Option<usize>) -> Seq<char> {
    spec_tile_line(t, 0) + "\n"@ + spec_tile_line(t, 1) + "\n"@ + spec_tile_line(t, 2)
}

/// `n` seven-character horizontal rules joined by `sep`.
pub open spec fn spec_border_mid(n: int, sep: char) -> Seq<char>
    decreases n,
{
    if n <= 0 {
        Seq::empty()
    } else if n == 1 {
        "───────"@
    } else {
        spec_border_mid(n - 1, sep).push(sep) + "───────"@
    }
}

/// The top frame of the board.
pub open spec fn spec_first_line(n: int) -> Seq<char> {
    "┌"@ + spec_border_mid(n, '┬') + "┐"@
}

/// The rule between two rows of tiles, with the newlines around it.
pub open spec fn spec_between_line(n: int) -> Seq<char> {
    "\n├"@ + spec_border_mid(n, '┼') + "┤\n"@
}

/// The bottom frame of the board, with its trailing newline.
pub open spec fn spec_last_line(n: int) -> Seq<char> {
    "└"@ + spec_border_mid(n, '┴') + "┘\n"@
}

/// Line `j` of a row of tiles, first `i` tiles rendered, each cell fenced by
/// vertical rules.
pub open spec fn spec_row_line(row: Seq<Option<usize>>, j: int, i: int) -> Seq<char>
    decreases i,
{
    if i <= 0 {
        "│"@
    } else {
        spec_row_line(row, j, i - 1) + spec_tile_line(row[i - 1], j) + "│"@
    }
}

/// The three lines of one row of tiles.
pub open spec fn spec_row_block(row: Seq<Option<usize>>, n: int) -> Seq<char> {
    spec_row_line(row, 0, n) + "\n"@ + spec_row_line(row, 1, n) + "\n"@ + spec_row_line(row, 2, n)
}

/// The first `y` rows of the board, separated by rules.
pub open spec fn spec_rows(g: Seq<Seq<Option<usize>>>, y: int) -> Seq<char>
    decreases y,
{
    if y <= 0 {
        Seq::empty()
    } else if y == 1 {
        spec_row_block(g[0], g.len() as int)
    } else {
        spec_rows(g, y - 1) + spec_between_line(g.len() as int) + spec_row_block(
            g[y - 1],
            g.len() as int,
        )
    }
}

/// The whole rendered board.
pub open spec fn spec_grid_display(g: Seq<Seq<Option<usize>>>) -> Seq<char> {
    spec_first_line(g.len() as int) + "\n"@ + spec_rows(g, g.len() as int) + "\n"@
        + spec_last_line(g.len() as int)
}

/// One line of a tile's text.
fn tile_line(tile: &Tile, j: usize) -> (r: String)
    requires
        j < 3,
    ensures
        r@ == spec_tile_line(tile@, j as int),
{
    match tile.value() {
        None => {
            proof {
                reveal_strlit("       ");
            }
            let s = "       ".to_owned();
            proof {
                assert(s@ =~= spec_spaces(7));
            }
            s
        },
        Some(v) => {
            if j == 0 {
                "┌─   ─┐".to_owned()
            } else if j == 1 {
                pad_both(decimal_string(v), 7)
            } else {
                "└─   ─┘".to_owned()
            }
        },
    }
}

/// The three-line box for a tile value.
fn display_number(value: usize) -> (r: String)
    ensures
        r@ == spec_tile_display(Some(value)),
{
    let mut out = "┌─   ─┐".to_owned();
    proof {
        reveal_strlit("\n");
    }
    out.append("\n");
    out.append(pad_both(decimal_string(value), 7).as_str());
    out.append("\n");
    out.append("└─   ─┘");
    proof {
        assert(out@ =~= spec_tile_display(Some(value)));
    }
    out
}

impl Tile {
    /// The tile's three-line text: a box around its value, or blank space
    /// for an empty cell.
    pub fn display(&self) -> (r: String)
        ensures
            r@ == spec_tile_display(self@),
    {
        match self.value() {
            Some(value) => display_number(value),
            None => {
                proof {
                    reveal_strlit("       \n       \n       ");
                    reveal_strlit("\n");
                    reveal_strlit("       ");
                }
                let s = "       \n       \n       ".to_owned();
                proof {
                    assert(s@ =~= spec_tile_display(self@));
                }
                s
            },
        }
    }
}

/// Renders single tiles; the colour seed is kept for the embedding program,
/// which adds the colour coat.
pub struct TileDisplayer {
    color_seed: u16,
}

impl TileDisplayer {
    pub closed spec fn spec_color_seed(&self) -> u16 {
        self.color_seed
    }

    pub fn new(color_seed: u16) -> (t: Self)
        ensures
            t.spec_color_seed() == color_seed,
    {
        Self { color_seed }
    }

    /// The three-line text of one tile.
    pub fn display(&self, tile: &Tile) -> (r: String)
        ensures
            r@ == spec_tile_display(tile@),
    {
        tile.display()
    }
}

/// A horizontal frame line: `left`, then `n` rules joined by `sep`, then
/// `right`.
fn border_line(n: usize, left: &str, sep: &str, right: &str) -> (r: String)
    requires
        sep@.len() == 1,
    ensures
        r@ == left@ + spec_border_mid(n as int, sep@[0]) + right@,
{
    let mut out = left.to_owned();
    let mut k: usize = 0;
    proof {
        reveal_strlit("───────");
    }
    while k < n
        invariant
            k <= n,
            sep@.len() == 1,
            out@ =~= left@ + spec_border_mid(k as int, sep@[0]),
        decreases n - k,
    {
        if k > 0 {
            out.append(sep);
        }
        out.append("───────");
        proof {
            assert(out@ =~= left@ + spec_border_mid(k as int + 1, sep@[0]));
        }
        k += 1;
    }
    out.append(right);
    out
}

/// Line `j` of row `y` of the board.
fn row_line(grid: &Grid, y: usize, j: usize) -> (r: String)
    requires
        grid.wf(),
        y < grid.spec_size(),
        j < 3,
    ensures
        r@ == spec_row_line(grid@[y as int], j as int, grid@.len() as int),
{
    let n = grid.size();
    let mut out = "│".to_owned();
    let mut x: usize = 0;
    while x < n
        invariant
            grid.wf(),
            n == grid.spec_size(),
            y < n,
            j < 3,
            x <= n,
            out@ =~= spec_row_line(grid@[y as int], j as int, x as int),
        decreases n - x,
    {
        match grid.get((x, y)) {
            Some(tile) => {
                out.append(tile_line(tile, j).as_str());
            },
            None => {
                proof {
                    assert(false);
                }
            },
        }
        out.append("│");
        proof {
            assert(out@ =~= spec_row_line(grid@[y as int], j as int, x as int + 1));
        }
        x += 1;
    }
    out
}

/// The three lines of row `y`, joined by newlines.
fn row_block(grid: &Grid, y: usize) -> (r: String)
    requires
        grid.wf(),
        y < grid.spec_size(),
    ensures
        r@ == spec_row_block(grid@[y as int], grid@.len() as int),
{
    proof {
        reveal_strlit("\n");
    }
    let mut out = row_line(grid, y, 0);
    out.append("\n");
    out.append(row_line(grid, y, 1).as_str());
    out.append("\n");
    out.append(row_line(grid, y, 2).as_str());
    proof {
        assert(out@ =~= spec_row_block(grid@[y as int], grid@.len() as int));
    }
    out
}

/// Renders a whole board as box-drawn text.
pub struct GridDisplayer {
    tile_displayer: TileDisplayer,
}

impl GridDisplayer {
    pub closed spec fn spec_color_seed(&self) -> u16 {
        self.tile_displayer.spec_color_seed()
    }

    pub fn new(color_seed: u16) -> (d: Self)
        ensures
            d.spec_color_seed() == color_seed,
    {
        let tile_displayer = TileDisplayer::new(color_seed);
        Self { tile_displayer }
    }

    fn first_grid_display_line(&self, grid: &Grid) -> (r: String)
        ensures
            r@ == spec_first_line(grid.spec_size() as int),
    {
        proof {
            reveal_strlit("┬");
        }
        border_line(grid.size(), "┌", "┬", "┐")
    }

    fn between_grid_display_line(&self, grid: &Grid) -> (r: String)
        ensures
            r@ == spec_between_line(grid.spec_size() as int),
    {
        proof {
            reveal_strlit("┼");
        }
        border_line(grid.size(), "\n├", "┼", "┤\n")
    }

    fn last_grid_display_line(&self, grid: &Grid) -> (r: String)
        ensures
            r@ == spec_last_line(grid.spec_size() as int),
    {
        proof {
            reveal_strlit("┴");
        }
        border_line(grid.size(), "└", "┴", "┘\n")
    }

    /// The whole board as text: framed rows of boxed tiles, each row three
    /// lines tall, rows separated by rules.
    pub fn display(&self, grid: &Grid) -> (r: String)
        requires
            grid.wf(),
        ensures
            r@ == spec_grid_display(grid@),
    {
        proof {
            reveal_strlit("\n");
        }
        let n = grid.size();
        let mut out = self.first_grid_display_line(grid);
        out.append("\n");
        let mut y: usize = 0;
        while y < n
            invariant
                grid.wf(),
                n == grid.spec_size(),
                y <= n,
                out@ =~= spec_first_line(n as int) + "\n"@ + spec_rows(grid@, y as int),
            decreases n - y,
        {
            if y > 0 {
                out.append(self.between_grid_display_line(grid).as_str());
            }
            out.append(row_block(grid, y).as_str());
            proof {
                assert(out@ =~= spec_first_line(n as int) + "\n"@ + spec_rows(
                    grid@,
                    y as int + 1,
                ));
            }
            y += 1;
        }
        out.append("\n");
        out.append(self.last_grid_display_line(grid).as_str());
        proof {
            assert(out@ =~= spec_grid_display(grid@));
        }
        out
    }
}

impl Grid {
    /// The board as box-drawn text.
    pub fn display(&self) -> (r: String)
        requires
            self.wf(),
        ensures
            r@ == spec_grid_display(self@),
    {
        let displayer = GridDisplayer::new(0);
        displayer.display(self)
    }
}

} // verus!
