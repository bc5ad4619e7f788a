//! The grid engine: two cell buffers and the step between generations.

use vstd::prelude::*;
use std::ops::Index;
use std::ops::IndexMut;
use crate::cell::Cell;
use crate::generation::Generation;
use crate::torus::{lemma_wrap_index, lemma_wrap_is_residue, normalize, wrap};

verus! {

/// The requested dimensions do not describe a grid: one of them is zero or
/// larger than the greatest signed index.
#[derive(Debug, Copy, Clone, PartialEq, Eq, Structural)]
pub struct SizeError;

/// Which of the two buffers holds the current generation.
#[derive(Debug, Copy, Clone, PartialEq, Eq, Structural)]
enum WorldState {
    ACurrent,
    BCurrent,
}

/// A grid of fixed size whose edges are joined, with the buffer that the
/// next generation is computed into.
pub struct World {
    state: WorldState,
    w: usize,
    h: usize,
    a: Vec<Vec<Cell>>,
    b: Vec<Vec<Cell>>,
}

/// `m` has `w` columns of `h` cells each.
spec fn rectangular(m: Seq<Vec<Cell>>, w: int, h: int) -> bool {
    &&& m.len() == w
    &&& forall|x: int| 0 <= x < w ==> (#[trigger] m[x])@.len() == h
}

/// The generation that a buffer of columns holds.
spec fn snapshot(m: Seq<Vec<Cell>>, w: int, h: int) -> Generation {
    Generation {
        width: w,
        height: h,
        live: Set::new(
            |p: (int, int)| 0 <= p.0 < w && 0 <= p.1 < h && m[p.0]@[p.1] == Cell::Live,
        ),
    }
}

/// `m2` is `m` with the cell in column `i`, row `j` replaced.
spec fn written(m: Seq<Vec<Cell>>, m2: Seq<Vec<Cell>>, i: int, j: int) -> bool {
    &&& m2 == m.update(i, m2[i])
    &&& m2[i]@ == m[i]@.update(j, m2[i]@[j])
}

/// Replacing one cell of a buffer puts that cell into the generation it
/// holds, under whatever coordinates fall on the cell's position. Stated of
/// every buffer that may result, so that it can be called before the cell is
/// lent out for writing.
proof fn lemma_snapshot_written(m: Seq<Vec<Cell>>, w: int, h: int, x: int, y: int)
    requires
        rectangular(m, w, h),
        w > 0,
        h > 0,
    ensures
        forall|m2: Seq<Vec<Cell>>|
            written(m, m2, wrap(x, w), wrap(y, h)) ==> #[trigger] snapshot(m2, w, h) == snapshot(
                m,
                w,
                h,
            ).put(x, y, m2[wrap(x, w)]@[wrap(y, h)]),
{
    lemma_wrap_is_residue(x, w);
    lemma_wrap_is_residue(y, h);
    assert forall|m2: Seq<Vec<Cell>>| written(m, m2, wrap(x, w), wrap(y, h)) implies #[trigger] snapshot(
        m2,
        w,
        h,
    ) == snapshot(m, w, h).put(x, y, m2[wrap(x, w)]@[wrap(y, h)]) by {
        assert(snapshot(m2, w, h).live =~= snapshot(m, w, h).put(
            x,
            y,
            m2[wrap(x, w)]@[wrap(y, h)],
        ).live);
    }
}

/// Draws the generation that a buffer holds, row by row.
fn draw(m: &Vec<Vec<Cell>>, w: usize, h: usize) -> (r: String)
    requires
        rectangular(m@, w as int, h as int),
        w > 0,
        h > 0,
    ensures
        r@ == snapshot(m@, w as int, h as int).text(),
{
    let ghost g = snapshot(m@, w as int, h as int);
    let mut out = String::new();
    for y in 0..h
        invariant
            rectangular(m@, w as int, h as int),
            g == snapshot(m@, w as int, h as int),
            out@ == g.lines(y as nat),
    {
        let ghost above = out@;
        for x in 0..w
            invariant
                rectangular(m@, w as int, h as int),
                g == snapshot(m@, w as int, h as int),
                0 <= y < h,
                out@ == above + Seq::new(x as nat, |i: int| g.cell(i, y as int).glyph()),
        {
            proof {
                lemma_wrap_index(x as int, w as int);
                lemma_wrap_index(y as int, h as int);
                reveal_strlit(" ");
                reveal_strlit("\u{2588}");
            }
            let ghost row = out@;
            match m[x][y] {
                Cell::Dead => out.append(" "),
                Cell::Live => out.append("\u{2588}"),
            }
            assert(out@ == row.push(g.cell(x as int, y as int).glyph()));
            assert(out@ == above + Seq::new((x + 1) as nat, |i: int| g.cell(i, y as int).glyph()));
        }
        proof {
            reveal_strlit("\n");
        }
        let ghost row = out@;
        out.append("\n");
        assert(out@ == row.push('\n'));
        assert(out@ == above + g.line(y as int));
    }
    out
}

impl View for World {
    type V = Generation;

    /// The current generation.
    closed spec fn view(&self) -> Generation {
        match self.state {
            WorldState::ACurrent => snapshot(self.a@, self.w as int, self.h as int),
            WorldState::BCurrent => snapshot(self.b@, self.w as int, self.h as int),
        }
    }
}

impl World {
    /// The dimensions are positive and fit a signed index, and both buffers
    /// have them.
    pub closed spec fn wf(&self) -> bool {
        &&& 0 < self.w <= isize::MAX
        &&& 0 < self.h <= isize::MAX
        &&& rectangular(self.a@, self.w as int, self.h as int)
        &&& rectangular(self.b@, self.w as int, self.h as int)
    }

    /// What the buffer that is not current holds: all dead in a new world,
    /// afterwards the generation before the latest step.
    pub closed spec fn scratch(&self) -> Generation {
        match self.state {
            WorldState::ACurrent => snapshot(self.b@, self.w as int, self.h as int),
            WorldState::BCurrent => snapshot(self.a@, self.w as int, self.h as int),
        }
    }

    /// Creates a world of `width` by `height` dead cells.
    pub fn new(width: usize, height: usize) -> (r: Result<World, SizeError>)
        ensures
            r is Ok <==> 0 < width <= isize::MAX && 0 < height <= isize::MAX,
            r matches Ok(world) ==> {
                &&& world.wf()
                &&& world@ == Generation::dead(width as int, height as int)
                &&& world.scratch() == Generation::dead(width as int, height as int)
            },
    {
        if width == 0 || height == 0 || width > isize::MAX as usize || height > isize::MAX as usize {
            return Err(SizeError);
        }
        let world = World {
            state: WorldState::ACurrent,
            w: width,
            h: height,
            a: vec![vec![Cell::Dead; height]; width],
            b: vec![vec![Cell::Dead; height]; width],
        };
        assert(world@.live =~= Set::empty());
        assert(world.scratch().live =~= Set::empty());
        Ok(world)
    }

    /// What well-formedness means for the two generations: they are well
    /// formed themselves and of equal size.
    pub proof fn lemma_generations_wf(&self)
        requires
            self.wf(),
        ensures
            self@.wf(),
            self.scratch().wf(),
            self.scratch().width == self@.width,
            self.scratch().height == self@.height,
            self@.width <= isize::MAX,
            self@.height <= isize::MAX,
    {
    }

    /// The number of columns.
    pub fn width(&self) -> (r: usize)
        ensures
            r == self@.width,
    {
        self.w
    }

    /// The number of rows.
    pub fn height(&self) -> (r: usize)
        ensures
            r == self@.height,
    {
        self.h
    }

    /// Reads the cell at `(x, y)` of the current generation.
    pub fn get(&self, x: isize, y: isize) -> (r: Cell)
        requires
            self.wf(),
        ensures
            r == self@.cell(x as int, y as int),
    {
        self[(x, y)]
    }

    /// Writes the cell at `(x, y)` of the current generation.
    pub fn set(&mut self, x: isize, y: isize, value: Cell)
        requires
            old(self).wf(),
        ensures
            final(self).wf(),
            final(self)@ == old(self)@.put(x as int, y as int, value),
            final(self).scratch() == old(self).scratch(),
    {
        *self.index_mut((x, y)) = value;
    }

    /// Counts the live cells among the eight around `(x, y)` in the current
    /// generation.
    pub fn live_neighbors(&self, x: isize, y: isize) -> (r: u8)
        requires
            self.wf(),
        ensures
            r == self@.live_neighbors(x as int, y as int),
    {
        let i = normalize(x, self.w) as isize;
        let j = normalize(y, self.h) as isize;
        proof {
            self@.lemma_cell_at_position(x as int, y as int);
        }
        let mut live_cells: u8 = 0;
        if self[(i - 1, j - 1)] == Cell::Live {
            live_cells += 1;
        }
        if self[(i, j - 1)] == Cell::Live {
            live_cells += 1;
        }
        if self[(i + 1, j - 1)] == Cell::Live {
            live_cells += 1;
        }
        if self[(i + 1, j)] == Cell::Live {
            live_cells += 1;
        }
        if self[(i + 1, j + 1)] == Cell::Live {
            live_cells += 1;
        }
        if self[(i, j + 1)] == Cell::Live {
            live_cells += 1;
        }
        if self[(i - 1, j + 1)] == Cell::Live {
            live_cells += 1;
        }
        if self[(i - 1, j)] == Cell::Live {
            live_cells += 1;
        }
        live_cells
    }

    /// Advances the world by one generation. Every cell is renewed from the
    /// generation before the call: the new cells are written to the other
    /// buffer, which then becomes the current one, while the buffer that was
    /// current is kept as it was.
    pub fn cycle(&mut self)
        requires
            old(self).wf(),
        ensures
            final(self).wf(),
            final(self)@ == old(self)@.step(),
            final(self).scratch() == old(self)@,
    {
        let w = self.w;
        let h = self.h;
        let ghost before = self@;
        proof {
            before.lemma_step_cell(0, 0);
        }
        for x in 0..w
            invariant
                self.wf(),
                self@ == before,
                before.wf(),
                before.width == w,
                before.height == h,
                self.scratch().wf(),
                self.scratch().width == w,
                self.scratch().height == h,
                forall|i: int, j: int|
                    0 <= i < x && 0 <= j < h ==> #[trigger] self.scratch().cell(i, j)
                        == before.next_cell(i, j),
        {
            for y in 0..h
                invariant
                    self.wf(),
                    self@ == before,
                    before.wf(),
                    before.width == w,
                    before.height == h,
                    self.scratch().wf(),
                    self.scratch().width == w,
                    self.scratch().height == h,
                    0 <= x < w,
                    forall|i: int, j: int|
                        0 <= i < x && 0 <= j < h ==> #[trigger] self.scratch().cell(i, j)
                            == before.next_cell(i, j),
                    forall|j: int|
                        0 <= j < y ==> #[trigger] self.scratch().cell(x as int, j)
                            == before.next_cell(x as int, j),
            {
                let ghost half = self.scratch();
                let live_cells = self.live_neighbors(x as isize, y as isize);
                let next = self.get(x as isize, y as isize).next(live_cells);
                *self.inter(x as isize, y as isize) = next;
                proof {
                    half.lemma_put_wf(x as int, y as int, next);
                    assert forall|i: int, j: int|
                        0 <= i < w && 0 <= j < h implies #[trigger] self.scratch().cell(i, j) == (if i
                        == x && j == y {
                        next
                    } else {
                        half.cell(i, j)
                    }) by {
                        lemma_wrap_index(i, w as int);
                        lemma_wrap_index(j, h as int);
                        lemma_wrap_index(x as int, w as int);
                        lemma_wrap_index(y as int, h as int);
                    }
                }
            }
        }
        self.state = match self.state {
            WorldState::ACurrent => WorldState::BCurrent,
            WorldState::BCurrent => WorldState::ACurrent,
        };
        proof {
            assert forall|i: int, j: int| 0 <= i < w && 0 <= j < h implies #[trigger] self@.cell(
                i,
                j,
            ) == before.step().cell(i, j) by {
                before.lemma_step_cell(i, j);
            }
            self@.lemma_equal_by_cells(before.step());
        }
    }

    /// Draws the current generation: one line per row, from the top, each
    /// holding one glyph per column and ending in a line feed.
    pub fn render(&self) -> (r: String)
        requires
            self.wf(),
        ensures
            r@ == self@.text(),
    {
        match self.state {
            WorldState::ACurrent => draw(&self.a, self.w, self.h),
            WorldState::BCurrent => draw(&self.b, self.w, self.h),
        }
    }

    /// Draws the buffer that is not current, in the same form. A diagnostic
    /// aid: between steps that buffer plays no part in what the world does.
    pub fn render_scratch(&self) -> (r: String)
        requires
            self.wf(),
        ensures
            r@ == self.scratch().text(),
    {
        match self.state {
            WorldState::ACurrent => draw(&self.b, self.w, self.h),
            WorldState::BCurrent => draw(&self.a, self.w, self.h),
        }
    }

    /// The cell at `(x, y)` of the buffer that the next generation is
    /// computed into.
    fn inter(&mut self, x: isize, y: isize) -> (r: &mut Cell)
        requires
            old(self).wf(),
        ensures
            *r == old(self).scratch().cell(x as int, y as int),
            final(self).wf(),
            final(self).scratch() == old(self).scratch().put(x as int, y as int, *final(r)),
            final(self)@ == old(self)@,
    {
        let i = normalize(x, self.w);
        let j = normalize(y, self.h);
        proof {
            let m = match self.state {
                WorldState::ACurrent => self.b@,
                WorldState::BCurrent => self.a@,
            };
            lemma_snapshot_written(m, self.w as int, self.h as int, x as int, y as int);
        }
        match self.state {
            WorldState::ACurrent => &mut self.b[i][j],
            WorldState::BCurrent => &mut self.a[i][j],
        }
    }
}

impl vstd::std_specs::core::IndexSpecImpl<(isize, isize)> for World {
    /// Indexing asks for a well-formed world and accepts every pair of
    /// coordinates.
    open spec fn index_req(&self, index: &(isize, isize)) -> bool {
        self.wf()
    }
}

impl Index<(isize, isize)> for World {
    type Output = Cell;

    /// The cell at `idx` of the current generation.
    fn index(&self, idx: (isize, isize)) -> (r: &Cell)
        ensures
            *r == self@.cell(idx.0 as int, idx.1 as int),
    {
        let i = normalize(idx.0, self.w);
        let j = normalize(idx.1, self.h);
        match self.state {
            WorldState::ACurrent => &self.a[i][j],
            WorldState::BCurrent => &self.b[i][j],
        }
    }
}

impl IndexMut<(isize, isize)> for World {
    /// The cell at `idx` of the current generation, for writing: what is
    /// written through the reference is put at `idx`, and nothing else
    /// changes.
    fn index_mut(&mut self, idx: (isize, isize)) -> (r: &mut Cell)
        requires
            old(self).wf(),
        ensures
            *r == old(self)@.cell(idx.0 as int, idx.1 as int),
            final(self).wf(),
            final(self)@ == old(self)@.put(idx.0 as int, idx.1 as int, *final(r)),
            final(self).scratch() == old(self).scratch(),
    {
        let i = normalize(idx.0, self.w);
        let j = normalize(idx.1, self.h);
        proof {
            let m = match self.state {
                WorldState::ACurrent => self.a@,
                WorldState::BCurrent => self.b@,
            };
            lemma_snapshot_written(m, self.w as int, self.h as int, idx.0 as int, idx.1 as int);
        }
        match self.state {
            WorldState::ACurrent => &mut self.a[i][j],
            WorldState::BCurrent => &mut self.b[i][j],
        }
    }
}

} // verus!
