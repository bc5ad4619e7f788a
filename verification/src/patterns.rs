//! Two classic patterns and how they evolve on a torus that is large enough
//! for them not to meet themselves around its edges.

use vstd::prelude::*;
use crate::cell::Cell;
use crate::generation::Generation;
use crate::torus::{lemma_wrap_adjacent, lemma_wrap_index, lemma_wrap_is_residue, lemma_wrap_offset, wrap};

verus! {

/// The generation whose live cells are the square of two by two cells with
/// its upper left corner at `(x, y)`.
pub open spec fn block(width: int, height: int, x: int, y: int) -> Generation {
    Generation::dead(width, height).put(x, y, Cell::Live).put(x + 1, y, Cell::Live).put(
        x,
        y + 1,
        Cell::Live,
    ).put(x + 1, y + 1, Cell::Live)
}

/// The generation whose live cells are the vertical line of three cells
/// with its middle at `(x, y)`.
pub open spec fn vertical_blinker(width: int, height: int, x: int, y: int) -> Generation {
    Generation::dead(width, height).put(x, y - 1, Cell::Live).put(x, y, Cell::Live).put(
        x,
        y + 1,
        Cell::Live,
    )
}

/// The generation whose live cells are the horizontal line of three cells
/// with its middle at `(x, y)`.
pub open spec fn horizontal_blinker(width: int, height: int, x: int, y: int) -> Generation {
    Generation::dead(width, height).put(x - 1, y, Cell::Live).put(x, y, Cell::Live).put(
        x + 1,
        y,
        Cell::Live,
    )
}

/// Every cell of a block is renewed to what it was.
proof fn lemma_block_cell(width: int, height: int, x: int, y: int, i: int, j: int)
    requires
        width >= 3,
        height >= 3,
        0 <= i < width,
        0 <= j < height,
    ensures
        block(width, height, x, y).next_cell(i, j) == block(width, height, x, y).cell(i, j),
{
    let g = block(width, height, x, y);
    lemma_wrap_is_residue(x, width);
    lemma_wrap_is_residue(y, height);
    lemma_wrap_offset(x, 1, width);
    lemma_wrap_offset(y, 1, height);
    lemma_wrap_adjacent(wrap(x, width), width);
    lemma_wrap_adjacent(wrap(y, height), height);
    lemma_wrap_adjacent(i, width);
    lemma_wrap_adjacent(j, height);
    lemma_wrap_index(i, width);
    lemma_wrap_index(j, height);
}

/// A block is a still life: a step leaves it as it is.
pub proof fn lemma_block_is_still(width: int, height: int, x: int, y: int)
    requires
        width >= 3,
        height >= 3,
    ensures
        block(width, height, x, y).wf(),
        block(width, height, x, y).step() == block(width, height, x, y),
{
    let g = block(width, height, x, y);
    lemma_wrap_is_residue(x, width);
    lemma_wrap_is_residue(y, height);
    lemma_wrap_is_residue(x + 1, width);
    lemma_wrap_is_residue(y + 1, height);
    assert(g.wf());
    assert forall|i: int, j: int| 0 <= i < width && 0 <= j < height implies #[trigger] g.step().cell(
        i,
        j,
    ) == g.cell(i, j) by {
        g.lemma_step_cell(i, j);
        lemma_block_cell(width, height, x, y, i, j);
    }
    g.lemma_step_cell(0, 0);
    g.step().lemma_equal_by_cells(g);
}

/// A block is unchanged after any number of steps.
pub proof fn lemma_block_stays(width: int, height: int, x: int, y: int, n: nat)
    requires
        width >= 3,
        height >= 3,
    ensures
        block(width, height, x, y).steps(n) == block(width, height, x, y),
    decreases n,
{
    if n > 0 {
        lemma_block_is_still(width, height, x, y);
        lemma_block_stays(width, height, x, y, (n - 1) as nat);
    }
}

/// Every cell of a vertical blinker is renewed to the cell of the horizontal
/// one at the same place.
proof fn lemma_vertical_cell(width: int, height: int, x: int, y: int, i: int, j: int)
    requires
        width >= 3,
        height >= 4,
        0 <= i < width,
        0 <= j < height,
    ensures
        vertical_blinker(width, height, x, y).next_cell(i, j) == horizontal_blinker(
            width,
            height,
            x,
            y,
        ).cell(i, j),
{
    lemma_wrap_is_residue(x, width);
    lemma_wrap_is_residue(y, height);
    lemma_wrap_offset(x, 1, width);
    lemma_wrap_offset(x, -1, width);
    lemma_wrap_offset(y, 1, height);
    lemma_wrap_offset(y, -1, height);
    lemma_wrap_adjacent(wrap(x, width), width);
    lemma_wrap_adjacent(wrap(y, height), height);
    lemma_wrap_adjacent(i, width);
    lemma_wrap_adjacent(j, height);
    lemma_wrap_index(i, width);
    lemma_wrap_index(j, height);
}

/// Every cell of a horizontal blinker is renewed to the cell of the vertical
/// one at the same place.
proof fn lemma_horizontal_cell(width: int, height: int, x: int, y: int, i: int, j: int)
    requires
        width >= 4,
        height >= 3,
        0 <= i < width,
        0 <= j < height,
    ensures
        horizontal_blinker(width, height, x, y).next_cell(i, j) == vertical_blinker(
            width,
            height,
            x,
            y,
        ).cell(i, j),
{
    lemma_wrap_is_residue(x, width);
    lemma_wrap_is_residue(y, height);
    lemma_wrap_offset(x, 1, width);
    lemma_wrap_offset(x, -1, width);
    lemma_wrap_offset(y, 1, height);
    lemma_wrap_offset(y, -1, height);
    lemma_wrap_adjacent(wrap(x, width), width);
    lemma_wrap_adjacent(wrap(y, height), height);
    lemma_wrap_adjacent(i, width);
    lemma_wrap_adjacent(j, height);
    lemma_wrap_index(i, width);
    lemma_wrap_index(j, height);
}

/// Both blinkers are well formed on any grid.
proof fn lemma_blinkers_wf(width: int, height: int, x: int, y: int)
    requires
        width > 0,
        height > 0,
    ensures
        vertical_blinker(width, height, x, y).wf(),
        horizontal_blinker(width, height, x, y).wf(),
{
    lemma_wrap_is_residue(x, width);
    lemma_wrap_is_residue(x - 1, width);
    lemma_wrap_is_residue(x + 1, width);
    lemma_wrap_is_residue(y, height);
    lemma_wrap_is_residue(y - 1, height);
    lemma_wrap_is_residue(y + 1, height);
}

/// One step turns a vertical blinker into the horizontal one with the same
/// middle.
pub proof fn lemma_vertical_blinker_turns(width: int, height: int, x: int, y: int)
    requires
        width >= 3,
        height >= 4,
    ensures
        vertical_blinker(width, height, x, y).step() == horizontal_blinker(width, height, x, y),
{
    let v = vertical_blinker(width, height, x, y);
    let l = horizontal_blinker(width, height, x, y);
    lemma_blinkers_wf(width, height, x, y);
    assert forall|i: int, j: int| 0 <= i < width && 0 <= j < height implies #[trigger] v.step().cell(
        i,
        j,
    ) == l.cell(i, j) by {
        v.lemma_step_cell(i, j);
        lemma_vertical_cell(width, height, x, y, i, j);
    }
    v.lemma_step_cell(0, 0);
    v.step().lemma_equal_by_cells(l);
}

/// One step turns a horizontal blinker into the vertical one with the same
/// middle.
pub proof fn lemma_horizontal_blinker_turns(width: int, height: int, x: int, y: int)
    requires
        width >= 4,
        height >= 3,
    ensures
        horizontal_blinker(width, height, x, y).step() == vertical_blinker(width, height, x, y),
{
    let v = vertical_blinker(width, height, x, y);
    let l = horizontal_blinker(width, height, x, y);
    lemma_blinkers_wf(width, height, x, y);
    assert forall|i: int, j: int| 0 <= i < width && 0 <= j < height implies #[trigger] l.step().cell(
        i,
        j,
    ) == v.cell(i, j) by {
        l.lemma_step_cell(i, j);
        lemma_horizontal_cell(width, height, x, y, i, j);
    }
    l.lemma_step_cell(0, 0);
    l.step().lemma_equal_by_cells(v);
}

/// A blinker oscillates with period two: one step turns it by a quarter, two
/// steps bring it back.
pub proof fn lemma_blinker_period(width: int, height: int, x: int, y: int)
    requires
        width >= 4,
        height >= 4,
    ensures
        vertical_blinker(width, height, x, y).steps(1) == horizontal_blinker(width, height, x, y),
        horizontal_blinker(width, height, x, y).steps(1) == vertical_blinker(width, height, x, y),
        vertical_blinker(width, height, x, y).steps(2) == vertical_blinker(width, height, x, y),
        horizontal_blinker(width, height, x, y).steps(2) == horizontal_blinker(
            width,
            height,
            x,
            y,
        ),
{
    lemma_vertical_blinker_turns(width, height, x, y);
    lemma_horizontal_blinker_turns(width, height, x, y);
    vertical_blinker(width, height, x, y).lemma_first_steps();
    horizontal_blinker(width, height, x, y).lemma_first_steps();
}

} // verus!
