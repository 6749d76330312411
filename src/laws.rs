//! Laws of the model that relate the board's operations to one another.
use vstd::prelude::*;

use crate::grid::{
    cols_of, dead_grid, in_grid, is_rect, live_among, live_neighbours, neighbour_alive, offsets,
    rows_of, with_cell,
};
use crate::grid::{glyph, rendered};
use crate::torus::{lemma_wrap_near, wrap};

verus! {

/// One for a live cell, zero for a dead one.
spec fn one_if(alive: bool) -> int {
    if alive {
        1
    } else {
        0
    }
}

/// The neighbour count written out as one term per offset.
proof fn lemma_live_neighbours_unfold(g: Seq<Seq<bool>>, r: int, c: int)
    ensures
        live_neighbours(g, r, c) == one_if(neighbour_alive(g, r, c, 0)) + one_if(
            neighbour_alive(g, r, c, 1),
        ) + one_if(neighbour_alive(g, r, c, 2)) + one_if(neighbour_alive(g, r, c, 3)) + one_if(
            neighbour_alive(g, r, c, 4),
        ) + one_if(neighbour_alive(g, r, c, 5)) + one_if(neighbour_alive(g, r, c, 6)) + one_if(
            neighbour_alive(g, r, c, 7),
        ),
{
    reveal_with_fuel(live_among, 9);
}

/// The cell that the offset `k` from `(r, c)` reaches, wrapped around both
/// edges.
pub open spec fn neighbour_at(g: Seq<Seq<bool>>, r: int, c: int, k: int) -> (int, int) {
    (wrap(r + offsets()[k].0, rows_of(g)), wrap(c + offsets()[k].1, cols_of(g)))
}

/// A live cell at any of the eight wrapped neighbours of `(r, c)` is counted:
/// making it alive raises the neighbour count of `(r, c)` above what it is
/// when that cell is dead, and by exactly one when the grid has at least
/// three rows and three columns, so that the eight neighbours are distinct
/// cells.
pub proof fn lemma_neighbour_counted(g: Seq<Seq<bool>>, r: int, c: int, k: int)
    requires
        is_rect(g),
        in_grid(g, r, c),
        0 <= k < 8,
    ensures
        ({
            let (tr, tc) = neighbour_at(g, r, c, k);
            let on = live_neighbours(with_cell(g, tr, tc, true), r, c);
            let off = live_neighbours(with_cell(g, tr, tc, false), r, c);
            &&& on > off
            &&& rows_of(g) >= 3 && cols_of(g) >= 3 ==> on == off + 1
        }),
{
    let (tr, tc) = neighbour_at(g, r, c, k);
    let on = with_cell(g, tr, tc, true);
    let off = with_cell(g, tr, tc, false);
    let rows = rows_of(g);
    let cols = cols_of(g);
    lemma_wrap_near(r - 1, rows);
    lemma_wrap_near(r, rows);
    lemma_wrap_near(r + 1, rows);
    lemma_wrap_near(c - 1, cols);
    lemma_wrap_near(c, cols);
    lemma_wrap_near(c + 1, cols);
    assert(offsets()[0] == (-1int, 0int));
    assert(offsets()[1] == (-1int, -1int));
    assert(offsets()[2] == (0int, -1int));
    assert(offsets()[3] == (1int, -1int));
    assert(offsets()[4] == (1int, 0int));
    assert(offsets()[5] == (1int, 1int));
    assert(offsets()[6] == (0int, 1int));
    assert(offsets()[7] == (-1int, 1int));
    assert(g[tr].len() == cols);
    assert(rows_of(on) == rows && cols_of(on) == cols);
    assert(rows_of(off) == rows && cols_of(off) == cols);
    lemma_live_neighbours_unfold(on, r, c);
    lemma_live_neighbours_unfold(off, r, c);
    assert forall|j: int| 0 <= j < 8 implies {
        &&& #[trigger] neighbour_alive(on, r, c, j) == (neighbour_at(g, r, c, j) == (tr, tc)
            || neighbour_alive(off, r, c, j))
        &&& !(neighbour_alive(off, r, c, j) && neighbour_at(g, r, c, j) == (tr, tc))
    } by {
        let (nr, nc) = neighbour_at(g, r, c, j);
        assert(0 <= nr < rows && 0 <= nc < cols);
        assert(g[nr].len() == cols);
    }
    if rows >= 3 && cols >= 3 {
        assert forall|j: int| 0 <= j < 8 && j != k implies #[trigger] neighbour_at(g, r, c, j) != (
        tr,
        tc,
        ) by {}
    }
}

/// Opposite edges are neighbours: a live cell in the last row is counted as
/// a neighbour of the cell of the first row in the same column, and the other
/// way round; likewise for the last and the first column of a row.
pub proof fn lemma_opposite_edges_adjacent(g: Seq<Seq<bool>>, r: int, c: int)
    requires
        is_rect(g),
        in_grid(g, r, c),
    ensures
        live_neighbours(with_cell(g, rows_of(g) - 1, c, true), 0, c) > live_neighbours(
            with_cell(g, rows_of(g) - 1, c, false),
            0,
            c,
        ),
        live_neighbours(with_cell(g, 0, c, true), rows_of(g) - 1, c) > live_neighbours(
            with_cell(g, 0, c, false),
            rows_of(g) - 1,
            c,
        ),
        live_neighbours(with_cell(g, r, cols_of(g) - 1, true), r, 0) > live_neighbours(
            with_cell(g, r, cols_of(g) - 1, false),
            r,
            0,
        ),
        live_neighbours(with_cell(g, r, 0, true), r, cols_of(g) - 1) > live_neighbours(
            with_cell(g, r, 0, false),
            r,
            cols_of(g) - 1,
        ),
{
    let rows = rows_of(g);
    let cols = cols_of(g);
    lemma_wrap_near(-1, rows);
    lemma_wrap_near(rows, rows);
    lemma_wrap_near(c, cols);
    lemma_wrap_near(-1, cols);
    lemma_wrap_near(cols, cols);
    lemma_wrap_near(r, rows);
    assert(offsets()[0] == (-1int, 0int));
    assert(offsets()[2] == (0int, -1int));
    assert(offsets()[4] == (1int, 0int));
    assert(offsets()[6] == (0int, 1int));
    assert(neighbour_at(g, 0, c, 0) == (rows - 1, c));
    assert(neighbour_at(g, rows - 1, c, 4) == (0int, c));
    assert(neighbour_at(g, r, 0, 2) == (r, cols - 1));
    assert(neighbour_at(g, r, cols - 1, 6) == (r, 0int));
    lemma_neighbour_counted(g, 0, c, 0);
    lemma_neighbour_counted(g, rows - 1, c, 4);
    lemma_neighbour_counted(g, r, 0, 2);
    lemma_neighbour_counted(g, r, cols - 1, 6);
}

/// Every cell of a freshly made grid is dead.
pub proof fn lemma_fresh_cells_dead(rows: int, cols: int, r: int, c: int)
    requires
        0 <= r < rows,
        0 <= c < cols,
    ensures
        is_rect(dead_grid(rows, cols)),
        in_grid(dead_grid(rows, cols), r, c),
        !dead_grid(rows, cols)[r][c],
{
}

/// Setting a cell alive makes it read alive; setting it dead afterwards makes
/// it read dead again, and the grid keeps its shape throughout.
pub proof fn lemma_set_then_clear(g: Seq<Seq<bool>>, r: int, c: int)
    requires
        is_rect(g),
        in_grid(g, r, c),
    ensures
        is_rect(with_cell(g, r, c, true)),
        with_cell(g, r, c, true)[r][c],
        is_rect(with_cell(with_cell(g, r, c, true), r, c, false)),
        !with_cell(with_cell(g, r, c, true), r, c, false)[r][c],
{
    let on = with_cell(g, r, c, true);
    assert forall|i: int| 0 <= i < on.len() implies (#[trigger] on[i]).len() == on[0].len() by {}
    let off = with_cell(on, r, c, false);
    assert forall|i: int| 0 <= i < off.len() implies (#[trigger] off[i]).len() == off[0].len() by {}
}

/// A freshly made grid of `rows` by `cols` renders as exactly `rows * cols`
/// dead glyphs.
pub proof fn lemma_fresh_render(rows: int, cols: int)
    requires
        0 <= rows,
        0 <= cols,
    ensures
        rendered(dead_grid(rows, cols)) == Seq::new((rows * cols) as nat, |i: int| glyph(false)),
    decreases rows,
{
    let g = dead_grid(rows, cols);
    if rows > 0 {
        lemma_fresh_render(rows - 1, cols);
        assert(g.drop_last() =~= dead_grid(rows - 1, cols));
        assert((rows - 1) * cols + cols == rows * cols) by (nonlinear_arith);
        assert(rendered(g) =~= Seq::new((rows * cols) as nat, |i: int| glyph(false)));
    } else {
        assert(rendered(g) =~= Seq::new((rows * cols) as nat, |i: int| glyph(false)));
    }
}

} // verus!
