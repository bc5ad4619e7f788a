//! The mathematical model of a grid at one point in time.
//!
//! A generation is a torus of `width` by `height` cells together with the set
//! of those that are alive. The set holds positions, that is pairs of
//! indices inside the grid; a cell is addressed by any pair of integers, which
//! is wrapped onto its position first.

use vstd::prelude::*;
use crate::cell::Cell;
use crate::torus::{
    congruent, lemma_wrap_congruent, lemma_wrap_index, lemma_wrap_is_residue, lemma_wrap_offset,
    wrap,
};

verus! {

/// The dimensions of a grid and the positions of its live cells.
pub struct Generation {
    pub width: int,
    pub height: int,
    pub live: Set<(int, int)>,
}

impl Generation {
    /// Both dimensions are positive and every live position lies inside the
    /// grid.
    pub open spec fn wf(self) -> bool {
        &&& self.width > 0
        &&& self.height > 0
        &&& forall|p: (int, int)| #[trigger]
            self.live.contains(p) ==> 0 <= p.0 < self.width && 0 <= p.1 < self.height
    }

    /// The generation of the given size in which every cell is dead.
    pub open spec fn dead(width: int, height: int) -> Generation {
        Generation { width, height, live: Set::empty() }
    }

    /// The position that the coordinates `(x, y)` fall on.
    pub open spec fn position(self, x: int, y: int) -> (int, int) {
        (wrap(x, self.width), wrap(y, self.height))
    }

    /// The cell at `(x, y)`.
    pub open spec fn cell(self, x: int, y: int) -> Cell {
        if self.live.contains(self.position(x, y)) {
            Cell::Live
        } else {
            Cell::Dead
        }
    }

    /// The generation in which the cell at `(x, y)` is `value` and every
    /// other cell is as in `self`.
    pub open spec fn put(self, x: int, y: int, value: Cell) -> Generation {
        Generation {
            width: self.width,
            height: self.height,
            live: match value {
                Cell::Live => self.live.insert(self.position(x, y)),
                Cell::Dead => self.live.remove(self.position(x, y)),
            },
        }
    }

    /// One if the cell at `(x, y)` is alive, zero if it is dead.
    pub open spec fn population(self, x: int, y: int) -> nat {
        match self.cell(x, y) {
            Cell::Live => 1,
            Cell::Dead => 0,
        }
    }

    /// How many of the eight cells around `(x, y)` are alive. Each of the
    /// eight coordinates is wrapped on its own, so on a grid narrower than
    /// three cells one cell is counted under several of them.
    pub open spec fn live_neighbors(self, x: int, y: int) -> nat {
        self.population(x - 1, y - 1) + self.population(x, y - 1) + self.population(x + 1, y - 1)
            + self.population(x + 1, y) + self.population(x + 1, y + 1) + self.population(
            x,
            y + 1,
        ) + self.population(x - 1, y + 1) + self.population(x - 1, y)
    }

    /// The state of the cell at `(x, y)` one generation later.
    pub open spec fn next_cell(self, x: int, y: int) -> Cell {
        self.cell(x, y).successor(self.live_neighbors(x, y))
    }

    /// The generation that follows `self`: every cell is renewed from the
    /// cells of `self` alone.
    pub open spec fn step(self) -> Generation {
        Generation {
            width: self.width,
            height: self.height,
            live: Set::new(
                |p: (int, int)|
                    0 <= p.0 < self.width && 0 <= p.1 < self.height && self.next_cell(p.0, p.1)
                        == Cell::Live,
            ),
        }
    }

    /// The generation reached from `self` after `n` steps.
    pub open spec fn steps(self, n: nat) -> Generation
        decreases n,
    {
        if n == 0 {
            self
        } else {
            self.step().steps((n - 1) as nat)
        }
    }

    /// Row `y` as text: one glyph per column, from left to right, and a line
    /// feed.
    pub open spec fn line(self, y: int) -> Seq<char> {
        Seq::new(self.width as nat, |x: int| self.cell(x, y).glyph()).push('\n')
    }

    /// The first `n` rows as text, from the top.
    pub open spec fn lines(self, n: nat) -> Seq<char>
        decreases n,
    {
        if n == 0 {
            Seq::empty()
        } else {
            self.lines((n - 1) as nat) + self.line(n - 1)
        }
    }

    /// The whole grid as text: one line per row.
    pub open spec fn text(self) -> Seq<char> {
        self.lines(self.height as nat)
    }

    /// Writing a value and reading it back, at the same coordinates or at any
    /// that are congruent to them, returns the value; in particular a cell
    /// set alive is read as alive.
    pub proof fn lemma_put_then_cell(self, x: int, y: int, value: Cell, x2: int, y2: int)
        requires
            self.wf(),
            congruent(x2, x, self.width),
            congruent(y2, y, self.height),
        ensures
            self.put(x, y, value).cell(x2, y2) == value,
    {
        lemma_wrap_congruent(x2, x, self.width);
        lemma_wrap_congruent(y2, y, self.height);
    }

    /// Writing a cell leaves every cell at other coordinates, up to
    /// congruence, as it was, and keeps the generation well formed.
    pub proof fn lemma_put_elsewhere(self, x: int, y: int, value: Cell, x2: int, y2: int)
        requires
            self.wf(),
            !congruent(x2, x, self.width) || !congruent(y2, y, self.height),
        ensures
            self.put(x, y, value).cell(x2, y2) == self.cell(x2, y2),
    {
        lemma_wrap_congruent(x2, x, self.width);
        lemma_wrap_congruent(y2, y, self.height);
    }

    /// Writing a cell keeps the generation well formed and its size.
    pub proof fn lemma_put_wf(self, x: int, y: int, value: Cell)
        requires
            self.wf(),
        ensures
            self.put(x, y, value).wf(),
            self.put(x, y, value).width == self.width,
            self.put(x, y, value).height == self.height,
    {
        lemma_wrap_is_residue(x, self.width);
        lemma_wrap_is_residue(y, self.height);
    }

    /// A cell depends on its coordinates only through the position they fall
    /// on, and so does the number of its live neighbours.
    pub proof fn lemma_cell_at_position(self, x: int, y: int)
        requires
            self.wf(),
        ensures
            self.cell(x, y) == self.cell(wrap(x, self.width), wrap(y, self.height)),
            self.live_neighbors(x, y) == self.live_neighbors(
                wrap(x, self.width),
                wrap(y, self.height),
            ),
            self.next_cell(x, y) == self.next_cell(wrap(x, self.width), wrap(y, self.height)),
    {
        let w = self.width;
        let h = self.height;
        lemma_wrap_offset(x, 0, w);
        lemma_wrap_offset(x, 1, w);
        lemma_wrap_offset(x, -1, w);
        lemma_wrap_offset(y, 0, h);
        lemma_wrap_offset(y, 1, h);
        lemma_wrap_offset(y, -1, h);
    }

    /// Two well-formed generations of one size whose cells agree at every
    /// position are the same generation.
    pub proof fn lemma_equal_by_cells(self, other: Generation)
        requires
            self.wf(),
            other.wf(),
            self.width == other.width,
            self.height == other.height,
            forall|x: int, y: int|
                0 <= x < self.width && 0 <= y < self.height ==> #[trigger] self.cell(x, y)
                    == other.cell(x, y),
        ensures
            self == other,
    {
        assert forall|p: (int, int)| self.live.contains(p) == other.live.contains(p) by {
            if self.live.contains(p) || other.live.contains(p) {
                lemma_wrap_index(p.0, self.width);
                lemma_wrap_index(p.1, self.height);
                assert(self.position(p.0, p.1) == p);
                assert(other.position(p.0, p.1) == p);
                assert(self.cell(p.0, p.1) == other.cell(p.0, p.1));
            }
        }
        assert(self.live =~= other.live);
    }

    /// A step keeps the size of the grid and renews every cell, at whatever
    /// coordinates it is addressed, by the rule applied to the generation
    /// before the step.
    pub proof fn lemma_step_cell(self, x: int, y: int)
        requires
            self.wf(),
        ensures
            self.step().wf(),
            self.step().width == self.width,
            self.step().height == self.height,
            self.step().cell(x, y) == self.next_cell(x, y),
    {
        lemma_wrap_is_residue(x, self.width);
        lemma_wrap_is_residue(y, self.height);
        self.lemma_cell_at_position(x, y);
    }

    /// A live cell with fewer than two or more than three live neighbours is
    /// dead after one step.
    pub proof fn lemma_lonely_or_crowded_dies(self, x: int, y: int)
        requires
            self.wf(),
            self.cell(x, y) == Cell::Live,
            self.live_neighbors(x, y) < 2 || self.live_neighbors(x, y) > 3,
        ensures
            self.step().cell(x, y) == Cell::Dead,
    {
        self.lemma_step_cell(x, y);
    }

    /// A dead cell with exactly three live neighbours is alive after one
    /// step.
    pub proof fn lemma_birth(self, x: int, y: int)
        requires
            self.wf(),
            self.cell(x, y) == Cell::Dead,
            self.live_neighbors(x, y) == 3,
        ensures
            self.step().cell(x, y) == Cell::Live,
    {
        self.lemma_step_cell(x, y);
    }

    /// The first `n` rows as text hold `width + 1` characters for each row.
    pub proof fn lemma_lines_len(self, n: nat)
        requires
            self.width > 0,
        ensures
            self.lines(n).len() == (self.width + 1) * n,
        decreases n,
    {
        let w = self.width;
        if n > 0 {
            self.lemma_lines_len((n - 1) as nat);
            assert(self.line(n - 1).len() == w + 1);
            assert(self.lines(n).len() == self.lines((n - 1) as nat).len() + (w + 1));
            assert((w + 1) * (n - 1) + (w + 1) == (w + 1) * n) by (nonlinear_arith);
        } else {
            assert((w + 1) * 0 == 0);
        }
    }

    /// Where a cell stands in the first `n` rows as text.
    proof fn lemma_lines_layout(self, n: nat, x: int, y: int)
        requires
            self.width > 0,
            0 <= x <= self.width,
            0 <= y < n,
        ensures
            0 <= y * (self.width + 1) + x < self.lines(n).len(),
            self.lines(n)[y * (self.width + 1) + x] == if x == self.width {
                '\n'
            } else {
                self.cell(x, y).glyph()
            },
        decreases n,
    {
        let w = self.width;
        let above = self.lines((n - 1) as nat);
        let at = y * (w + 1) + x;
        self.lemma_lines_len(n);
        self.lemma_lines_len((n - 1) as nat);
        assert(self.line(n - 1).len() == w + 1);
        assert(self.lines(n) == above + self.line(n - 1));
        assert(self.lines(n).len() == above.len() + (w + 1));
        if y == n - 1 {
            assert(at == above.len() + x) by (nonlinear_arith)
                requires
                    at == y * (w + 1) + x,
                    above.len() == (w + 1) * (n - 1),
                    y == n - 1,
            ;
            assert(self.lines(n)[at] == self.line(n - 1)[x]);
        } else {
            assert(0 <= at < above.len()) by (nonlinear_arith)
                requires
                    at == y * (w + 1) + x,
                    above.len() == (w + 1) * (n - 1),
                    0 <= y < n - 1,
                    0 <= x <= w,
            ;
            self.lemma_lines_layout((n - 1) as nat, x, y);
            assert(self.lines(n)[at] == above[at]);
        }
    }

    /// The text runs through the grid row by row: it has `width + 1`
    /// characters for each row, the glyph of the cell in column `x` of row
    /// `y` stands at index `y * (width + 1) + x`, and a line feed closes each
    /// row.
    pub proof fn lemma_text_layout(self, x: int, y: int)
        requires
            self.wf(),
            0 <= x <= self.width,
            0 <= y < self.height,
        ensures
            self.text().len() == (self.width + 1) * self.height,
            0 <= y * (self.width + 1) + x < self.text().len(),
            self.text()[y * (self.width + 1) + x] == if x == self.width {
                '\n'
            } else {
                self.cell(x, y).glyph()
            },
    {
        self.lemma_lines_len(self.height as nat);
        self.lemma_lines_layout(self.height as nat, x, y);
    }

    /// One step and two steps, written out.
    pub proof fn lemma_first_steps(self)
        ensures
            self.steps(0) == self,
            self.steps(1) == self.step(),
            self.steps(2) == self.step().step(),
    {
        reveal_with_fuel(Generation::steps, 3);
    }
}

} // verus!
