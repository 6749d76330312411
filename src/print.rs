//! Rendering a board through a sink of glyphs.
use vstd::prelude::*;

use crate::board::Board;
use crate::grid::{glyph, rendered};

verus! {

/// A sink for a rendered board: one glyph per cell, row after row, and a
/// signal after the last cell of each row.
pub trait Print {
    /// The glyphs received so far, in order. A verified sink defines it; the
    /// default lets a sink written in plain Rust, such as one that writes to
    /// a terminal, leave it out.
    open spec fn printed(&self) -> Seq<char> {
        Seq::empty()
    }

    /// Receives the glyph of the next cell.
    fn print_char(&mut self, character: char)
        ensures
            final(self).printed() == old(self).printed().push(character),
    ;

    /// Receives the end of a row.
    fn end_row(&mut self)
        ensures
            final(self).printed() == old(self).printed(),
    ;
}

/// A sink that keeps every glyph it receives, in order.
pub struct PrintChecker {
    pub characters: Vec<char>,
}

impl PrintChecker {
    /// A sink that has received nothing yet.
    pub fn new() -> (p: PrintChecker)
        ensures
            p.characters@ == Seq::<char>::empty(),
    {
        let characters = Vec::new();
        PrintChecker { characters }
    }
}

impl Print for PrintChecker {
    open spec fn printed(&self) -> Seq<char> {
        self.characters@
    }

    fn print_char(&mut self, character: char) {
        self.characters.push(character);
    }

    fn end_row(&mut self) {
    }
}

/// The glyph of a live cell.
pub const ALIVE: char = '@';

/// The glyph of a dead cell.
pub const DEAD: char = '*';

/// The glyph that stands for a cell in the given state.
pub fn cell_glyph(alive: bool) -> (g: char)
    ensures
        g == glyph(alive),
{
    if alive {
        ALIVE
    } else {
        DEAD
    }
}

impl Board {
    /// The glyphs of the board's cells, row after row, each row from left to
    /// right.
    pub fn glyphs(&self) -> (v: Vec<char>)
        requires
            self.wf(),
        ensures
            v@ == rendered(self@),
    {
        let ghost g = self@;
        let rows = self.rows();
        let cols = self.cols();
        let mut v: Vec<char> = Vec::new();
        let mut row: usize = 0;
        while row < rows
            invariant
                self.wf(),
                g == self@,
                rows == g.len(),
                cols == g[0].len(),
                forall|r: int| 0 <= r < g.len() ==> (#[trigger] g[r]).len() == g[0].len(),
                row <= rows,
                v@ == rendered(g.take(row as int)),
            decreases rows - row,
        {
            let ghost before = v@;
            let mut col: usize = 0;
            while col < cols
                invariant
                    self.wf(),
                    g == self@,
                    rows == g.len(),
                    cols == g[0].len(),
                    forall|r: int| 0 <= r < g.len() ==> (#[trigger] g[r]).len() == g[0].len(),
                    row < rows,
                    col <= cols,
                    before == rendered(g.take(row as int)),
                    v@ == before + g[row as int].take(col as int).map_values(|a: bool| glyph(a)),
                decreases cols - col,
            {
                v.push(cell_glyph(self.is_on(row, col)));
                proof {
                    assert(g[row as int].take(col + 1) =~= g[row as int].take(col as int).push(
                        g[row as int][col as int],
                    ));
                    assert(v@ =~= before + g[row as int].take(col + 1).map_values(
                        |a: bool| glyph(a),
                    ));
                }
                col += 1;
            }
            proof {
                let t = g.take(row + 1);
                assert(t.drop_last() =~= g.take(row as int));
                assert(g[row as int].take(col as int) =~= g[row as int]);
                assert(t.last() == g[row as int]);
            }
            row += 1;
        }
        proof {
            assert(g.take(rows as int) =~= g);
        }
        v
    }

    /// Hands the board to `printer`: the glyph of each cell, row after row,
    /// each row from left to right and followed by the end of the row. The
    /// board is left as it was.
    pub fn print<P: Print>(&self, printer: &mut P)
        requires
            self.wf(),
        ensures
            final(printer).printed() == old(printer).printed() + rendered(self@),
    {
        let ghost g = self@;
        let ghost start = printer.printed();
        let rows = self.rows();
        let cols = self.cols();
        let mut row: usize = 0;
        while row < rows
            invariant
                self.wf(),
                g == self@,
                rows == g.len(),
                cols == g[0].len(),
                forall|r: int| 0 <= r < g.len() ==> (#[trigger] g[r]).len() == g[0].len(),
                row <= rows,
                printer.printed() == start + rendered(g.take(row as int)),
            decreases rows - row,
        {
            let ghost before = printer.printed();
            let mut col: usize = 0;
            while col < cols
                invariant
                    self.wf(),
                    g == self@,
                    rows == g.len(),
                    cols == g[0].len(),
                    forall|r: int| 0 <= r < g.len() ==> (#[trigger] g[r]).len() == g[0].len(),
                    row < rows,
                    col <= cols,
                    before == start + rendered(g.take(row as int)),
                    printer.printed() == before + g[row as int].take(col as int).map_values(
                        |a: bool| glyph(a),
                    ),
                decreases cols - col,
            {
                printer.print_char(cell_glyph(self.is_on(row, col)));
                proof {
                    assert(g[row as int].take(col + 1) =~= g[row as int].take(col as int).push(
                        g[row as int][col as int],
                    ));
                    assert(printer.printed() =~= before + g[row as int].take(col + 1).map_values(
                        |a: bool| glyph(a),
                    ));
                }
                col += 1;
            }
            printer.end_row();
            proof {
                let t = g.take(row + 1);
                assert(t.drop_last() =~= g.take(row as int));
                assert(g[row as int].take(col as int) =~= g[row as int]);
                assert(t.last() == g[row as int]);
                assert(printer.printed() =~= start + rendered(t));
            }
            row += 1;
        }
        proof {
            assert(g.take(rows as int) =~= g);
        }
    }
}

} // verus!
