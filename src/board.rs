//! The board: a dense row-major grid of cells on a torus.
use vstd::prelude::*;

use crate::grid::{
    dead_grid, in_grid, is_rect, lemma_live_among_bound, live_among, live_neighbours, next_generation,
    offsets, with_cell,
};
use crate::torus::{lemma_wrap_near, safe};

verus! {

/// A cell inside a grid of `rows` by `cols` has its row-major index inside
/// the grid.
proof fn lemma_index_in_range(rows: int, cols: int, r: int, c: int)
    requires
        0 <= r < rows,
        0 <= c < cols,
    ensures
        0 <= r * cols + c < rows * cols,
{
    assert(0 <= r * cols + c < rows * cols) by (nonlinear_arith)
        requires
            0 <= r < rows,
            0 <= c < cols,
    ;
}

/// Distinct cells of a row-major grid have distinct indices.
proof fn lemma_index_distinct(cols: int, r1: int, c1: int, r2: int, c2: int)
    requires
        0 <= r1,
        0 <= r2,
        0 <= c1 < cols,
        0 <= c2 < cols,
        r1 != r2 || c1 != c2,
    ensures
        r1 * cols + c1 != r2 * cols + c2,
{
    assert(r1 * cols + c1 != r2 * cols + c2) by (nonlinear_arith)
        requires
            0 <= r1,
            0 <= r2,
            0 <= c1 < cols,
            0 <= c2 < cols,
            r1 != r2 || c1 != c2,
    ;
}

/// A Game of Life board of `rows` by `cols` cells whose edges wrap around.
pub struct Board {
    rows: usize,
    cols: usize,
    cells: Vec<bool>,
}

impl View for Board {
    type V = Seq<Seq<bool>>;

    /// The cells by row and column.
    closed spec fn view(&self) -> Seq<Seq<bool>> {
        Seq::new(
            self.rows as nat,
            |r: int| Seq::new(self.cols as nat, |c: int| self.cells@[r * self.cols + c]),
        )
    }
}

impl Board {
    /// The board has at least one row and one column, and one stored cell
    /// for each, no more than a `Vec` can hold; each extent then fits a
    /// signed coordinate.
    pub closed spec fn wf(&self) -> bool {
        &&& 0 < self.rows
        &&& 0 < self.cols
        &&& self.rows <= i64::MAX
        &&& self.cols <= i64::MAX
        &&& self.rows * self.cols <= isize::MAX
        &&& self.cells@.len() == self.rows * self.cols
    }

    proof fn lemma_view_shape(&self)
        requires
            self.wf(),
        ensures
            is_rect(self@),
            self@.len() == self.rows,
            self@[0].len() == self.cols,
    {
        assert forall|r: int| 0 <= r < self@.len() implies (#[trigger] self@[r]).len()
            == self@[0].len() by {}
    }

    /// A board of `rows` by `cols` cells, all dead.
    ///
    /// Both extents are positive, and the cell count is within what a `Vec`
    /// of cells can hold (`isize::MAX` bytes, one byte per cell).
    pub fn new(rows: usize, cols: usize) -> (b: Board)
        requires
            0 < rows,
            0 < cols,
            rows * cols <= isize::MAX,
        ensures
            b.wf(),
            b@ == dead_grid(rows as int, cols as int),
    {
        proof {
            assert(rows <= rows * cols && cols <= rows * cols) by (nonlinear_arith)
                requires
                    0 < rows,
                    0 < cols,
            ;
        }
        let cells: Vec<bool> = vec![false; rows * cols];
        let b = Board { rows, cols, cells };
        proof {
            assert forall|r: int, c: int| 0 <= r < rows && 0 <= c < cols implies #[trigger] b@[r][c]
                == dead_grid(rows as int, cols as int)[r][c] by {
                lemma_index_in_range(rows as int, cols as int, r, c);
            }
            assert(b@ =~~= dead_grid(rows as int, cols as int));
        }
        b
    }

    /// The number of rows.
    pub fn rows(&self) -> (n: usize)
        requires
            self.wf(),
        ensures
            n == self@.len(),
            is_rect(self@),
    {
        proof {
            self.lemma_view_shape();
        }
        self.rows
    }

    /// The number of columns.
    pub fn cols(&self) -> (n: usize)
        requires
            self.wf(),
        ensures
            n == self@[0].len(),
            is_rect(self@),
    {
        proof {
            self.lemma_view_shape();
        }
        self.cols
    }

    /// The row-major index of the cell `(r, c)`.
    pub fn index(&self, r: usize, c: usize) -> (i: usize)
        requires
            self.wf(),
            in_grid(self@, r as int, c as int),
        ensures
            i == r * self@[0].len() + c,
            i < self@.len() * self@[0].len(),
    {
        proof {
            self.lemma_view_shape();
            lemma_index_in_range(self.rows as int, self.cols as int, r as int, c as int);
        }
        r * self.cols + c
    }

    /// Whether the cell `(r, c)` is alive.
    pub fn is_on(&self, r: usize, c: usize) -> (b: bool)
        requires
            self.wf(),
            in_grid(self@, r as int, c as int),
        ensures
            b == self@[r as int][c as int],
    {
        proof {
            self.lemma_view_shape();
        }
        self.cells[self.index(r, c)]
    }

    /// Whether the cell `(r, c)` is dead.
    pub fn is_off(&self, r: usize, c: usize) -> (b: bool)
        requires
            self.wf(),
            in_grid(self@, r as int, c as int),
        ensures
            b == !self@[r as int][c as int],
    {
        proof {
            self.lemma_view_shape();
        }
        !self.cells[self.index(r, c)]
    }

    /// Sets the cell `(r, c)` alive when `on` holds and dead otherwise,
    /// leaving every other cell as it was.
    pub fn change(&mut self, r: usize, c: usize, on: bool)
        requires
            old(self).wf(),
            in_grid(old(self)@, r as int, c as int),
        ensures
            final(self).wf(),
            final(self)@ == with_cell(old(self)@, r as int, c as int, on),
    {
        proof {
            self.lemma_view_shape();
        }
        let index = self.index(r, c);
        self.cells.set(index, on);
        proof {
            let g = with_cell(old(self)@, r as int, c as int, on);
            assert forall|r2: int, c2: int|
                0 <= r2 < self.rows && 0 <= c2 < self.cols implies #[trigger] self@[r2][c2]
                == g[r2][c2] by {
                lemma_index_in_range(self.rows as int, self.cols as int, r2, c2);
                if r2 != r || c2 != c {
                    lemma_index_distinct(self.cols as int, r2, c2, r as int, c as int);
                }
            }
            assert(self@ =~~= g);
        }
    }

    /// Sets the cell `(r, c)` alive.
    pub fn turn_on(&mut self, r: usize, c: usize)
        requires
            old(self).wf(),
            in_grid(old(self)@, r as int, c as int),
        ensures
            final(self).wf(),
            final(self)@ == with_cell(old(self)@, r as int, c as int, true),
    {
        self.change(r, c, true);
    }

    /// Sets the cell `(r, c)` dead.
    pub fn turn_off(&mut self, r: usize, c: usize)
        requires
            old(self).wf(),
            in_grid(old(self)@, r as int, c as int),
        ensures
            final(self).wf(),
            final(self)@ == with_cell(old(self)@, r as int, c as int, false),
    {
        self.change(r, c, false);
    }

    /// How many of the eight neighbours of `(r, c)` are alive, where a
    /// neighbour one step past an edge is the cell at the opposite edge.
    pub fn get_neighbours(&self, r: usize, c: usize) -> (n: usize)
        requires
            self.wf(),
            in_grid(self@, r as int, c as int),
        ensures
            n == live_neighbours(self@, r as int, c as int),
            n <= 8,
    {
        let directions: [(i64, i64); 8] = [
            (-1i64, 0i64),
            (-1i64, -1i64),
            (0i64, -1i64),
            (1i64, -1i64),
            (1i64, 0i64),
            (1i64, 1i64),
            (0i64, 1i64),
            (-1i64, 1i64),
        ];
        proof {
            self.lemma_view_shape();
        }
        let mut neighbour_count: usize = 0;
        let mut k: usize = 0;
        while k < 8
            invariant
                self.wf(),
                in_grid(self@, r as int, c as int),
                k <= 8,
                neighbour_count == live_among(self@, r as int, c as int, k as nat),
                forall|j: int|
                    0 <= j < 8 ==> (#[trigger] directions@[j]).0 == offsets()[j].0
                        && directions@[j].1 == offsets()[j].1,
            decreases 8 - k,
        {
            let dir = directions[k];
            proof {
                lemma_live_among_bound(self@, r as int, c as int, k as nat);
                lemma_wrap_near(r + dir.0, self.rows as int);
                lemma_wrap_near(c + dir.1, self.cols as int);
            }
            let nr = safe(r as i64 + dir.0, self.rows as i64) as usize;
            let nc = safe(c as i64 + dir.1, self.cols as i64) as usize;
            if self.is_on(nr, nc) {
                neighbour_count += 1;
            }
            k += 1;
        }
        proof {
            lemma_live_among_bound(self@, r as int, c as int, 8);
        }
        neighbour_count
    }

    /// A copy of the board, cell for cell.
    fn snapshot(&self) -> (s: Board)
        requires
            self.wf(),
        ensures
            s.wf(),
            s@ == self@,
    {
        let s = Board { rows: self.rows, cols: self.cols, cells: self.cells.clone() };
        proof {
            assert(s.cells@ =~= self.cells@);
            assert(s@ =~~= self@);
        }
        s
    }

    /// Advances the board by one generation: every cell follows the rule
    /// B3/S23, with neighbours counted in the generation before the call.
    pub fn update(&mut self)
        requires
            old(self).wf(),
        ensures
            final(self).wf(),
            final(self)@ == next_generation(old(self)@),
    {
        let prev = self.snapshot();
        proof {
            self.lemma_view_shape();
        }
        let ghost g = prev@;
        let ghost next = next_generation(g);
        let mut row: usize = 0;
        while row < self.rows
            invariant
                self.wf(),
                prev.wf(),
                prev@ == g,
                next == next_generation(g),
                self.rows == g.len(),
                self.cols == g[0].len(),
                is_rect(g),
                row <= self.rows,
                self@.len() == g.len(),
                forall|r: int| 0 <= r < g.len() ==> (#[trigger] self@[r]).len() == g[0].len(),
                forall|r: int, c: int|
                    0 <= r < row && 0 <= c < g[0].len() ==> #[trigger] self@[r][c] == next[r][c],
                forall|r: int, c: int|
                    row <= r < g.len() && 0 <= c < g[0].len() ==> #[trigger] self@[r][c] == g[r][c],
            decreases self.rows - row,
        {
            let mut col: usize = 0;
            while col < self.cols
                invariant
                    self.wf(),
                    prev.wf(),
                    prev@ == g,
                    next == next_generation(g),
                    self.rows == g.len(),
                    self.cols == g[0].len(),
                    is_rect(g),
                    row < self.rows,
                    col <= self.cols,
                    self@.len() == g.len(),
                    forall|r: int| 0 <= r < g.len() ==> (#[trigger] self@[r]).len() == g[0].len(),
                    forall|r: int, c: int|
                        0 <= r < row && 0 <= c < g[0].len() ==> #[trigger] self@[r][c]
                            == next[r][c],
                    forall|c: int|
                        0 <= c < col ==> #[trigger] self@[row as int][c] == next[row as int][c],
                    forall|c: int|
                        col <= c < g[0].len() ==> #[trigger] self@[row as int][c] == g[row as int][c],
                    forall|r: int, c: int|
                        row < r < g.len() && 0 <= c < g[0].len() ==> #[trigger] self@[r][c] == g[r][c],
                decreases self.cols - col,
            {
                let neighbours = prev.get_neighbours(row, col);
                let alive = if prev.is_on(row, col) {
                    neighbours == 2 || neighbours == 3
                } else {
                    neighbours == 3
                };
                self.change(row, col, alive);
                proof {
                    self.lemma_view_shape();
                }
                col += 1;
            }
            row += 1;
        }
        proof {
            assert(self@ =~~= next);
        }
    }
}

} // verus!
