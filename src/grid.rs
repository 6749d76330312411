//! The mathematical model of a board: a rectangular grid of cells, indexed
//! by row and then by column, where `true` is a live cell.
use vstd::prelude::*;

use crate::torus::wrap;

verus! {

/// A grid with at least one row and one column, every row of equal length.
pub open spec fn is_rect(g: Seq<Seq<bool>>) -> bool {
    &&& g.len() > 0
    &&& g[0].len() > 0
    &&& forall|r: int| 0 <= r < g.len() ==> (#[trigger] g[r]).len() == g[0].len()
}

/// The number of rows of a grid.
pub open spec fn rows_of(g: Seq<Seq<bool>>) -> int {
    g.len() as int
}

/// The number of columns of a grid.
pub open spec fn cols_of(g: Seq<Seq<bool>>) -> int {
    g[0].len() as int
}

/// `(r, c)` names a cell of the grid.
pub open spec fn in_grid(g: Seq<Seq<bool>>, r: int, c: int) -> bool {
    0 <= r < rows_of(g) && 0 <= c < cols_of(g)
}

/// The grid of `rows` by `cols` dead cells.
pub open spec fn dead_grid(rows: int, cols: int) -> Seq<Seq<bool>> {
    Seq::new(rows as nat, |r: int| Seq::new(cols as nat, |c: int| false))
}

/// The grid with the single cell `(r, c)` set to `alive`.
pub open spec fn with_cell(g: Seq<Seq<bool>>, r: int, c: int, alive: bool) -> Seq<Seq<bool>> {
    g.update(r, g[r].update(c, alive))
}

/// The eight compass offsets `(row, column)` of a cell's neighbours, in the
/// order in which they are visited.
pub open spec fn offsets() -> Seq<(int, int)> {
    seq![(-1, 0), (-1, -1), (0, -1), (1, -1), (1, 0), (1, 1), (0, 1), (-1, 1)]
}

/// Whether the neighbour of `(r, c)` at offset `k`, wrapped around both
/// edges, is alive.
pub open spec fn neighbour_alive(g: Seq<Seq<bool>>, r: int, c: int, k: int) -> bool {
    g[wrap(r + offsets()[k].0, rows_of(g))][wrap(c + offsets()[k].1, cols_of(g))]
}

/// How many of the neighbours of `(r, c)` at the first `k` offsets are alive.
pub open spec fn live_among(g: Seq<Seq<bool>>, r: int, c: int, k: nat) -> nat
    decreases k,
{
    if k == 0 {
        0
    } else {
        live_among(g, r, c, (k - 1) as nat) + if neighbour_alive(g, r, c, k - 1) {
            1nat
        } else {
            0nat
        }
    }
}

/// How many of the eight wrapped neighbours of `(r, c)` are alive.
pub open spec fn live_neighbours(g: Seq<Seq<bool>>, r: int, c: int) -> nat {
    live_among(g, r, c, 8)
}

/// The rule B3/S23: a live cell stays alive with two or three live
/// neighbours, a dead cell comes alive with exactly three.
pub open spec fn next_state(alive: bool, neighbours: int) -> bool {
    if alive {
        neighbours == 2 || neighbours == 3
    } else {
        neighbours == 3
    }
}

/// The next generation of a grid: every cell follows the rule, with its
/// neighbours counted in the current generation.
pub open spec fn next_generation(g: Seq<Seq<bool>>) -> Seq<Seq<bool>> {
    Seq::new(
        g.len(),
        |r: int| Seq::new(g[r].len(), |c: int| next_state(g[r][c], live_neighbours(g, r, c) as int)),
    )
}

/// The glyph that stands for a cell when a grid is rendered.
pub open spec fn glyph(alive: bool) -> char {
    if alive {
        '@'
    } else {
        '*'
    }
}

/// The glyphs of a grid's cells, row after row, each row from left to right.
pub open spec fn rendered(g: Seq<Seq<bool>>) -> Seq<char>
    decreases g.len(),
{
    if g.len() == 0 {
        seq![]
    } else {
        rendered(g.drop_last()) + g.last().map_values(|a: bool| glyph(a))
    }
}

/// A neighbour count never exceeds the number of offsets looked at.
pub proof fn lemma_live_among_bound(g: Seq<Seq<bool>>, r: int, c: int, k: nat)
    ensures
        live_among(g, r, c, k) <= k,
    decreases k,
{
    if k > 0 {
        lemma_live_among_bound(g, r, c, (k - 1) as nat);
    }
}

} // verus!
