//! The mathematical model of a generation: cells, toroidal neighbours and
//! Conway's birth/survival rule over a row-major cell sequence.
use vstd::prelude::*;

verus! {

/// The state of one cell.
#[derive(Clone, Copy, Debug, PartialEq, Eq, Structural)]
pub enum Cell {
    Dead,
    Alive,
}

/// The numeric value of a cell: 1 when alive, 0 when dead.
pub open spec fn cell_value(c: Cell) -> int {
    if c == Cell::Alive { 1 } else { 0 }
}

/// The coordinate before `i` on a ring of `n` positions.
pub open spec fn wrap_prev(i: int, n: int) -> int {
    if i == 0 { n - 1 } else { i - 1 }
}

/// The coordinate after `i` on a ring of `n` positions.
pub open spec fn wrap_next(i: int, n: int) -> int {
    if i + 1 == n { 0 } else { i + 1 }
}

/// Row-major offset of `(row, col)` in a grid of the given width.
pub open spec fn index_of(width: int, row: int, col: int) -> int {
    row * width + col
}

/// The value of the cell at `(row, col)`.
pub open spec fn alive_at(cells: Seq<Cell>, width: int, row: int, col: int) -> int {
    cell_value(cells[index_of(width, row, col)])
}

/// The number of live cells among the eight cells around `(row, col)`,
/// with both edges of the grid wrapping around.
pub open spec fn neighbor_count(cells: Seq<Cell>, width: int, height: int, row: int, col: int) -> int {
    let up = wrap_prev(row, height);
    let down = wrap_next(row, height);
    let left = wrap_prev(col, width);
    let right = wrap_next(col, width);
    alive_at(cells, width, up, left) + alive_at(cells, width, up, col) + alive_at(cells, width, up, right)
        + alive_at(cells, width, row, left) + alive_at(cells, width, row, right)
        + alive_at(cells, width, down, left) + alive_at(cells, width, down, col)
        + alive_at(cells, width, down, right)
}

/// Conway's rule: a live cell with two or three live neighbours survives,
/// a dead cell with exactly three comes alive, every other cell is dead.
pub open spec fn next_state(cell: Cell, n: int) -> Cell {
    if cell == Cell::Alive && (n == 2 || n == 3) {
        Cell::Alive
    } else if cell == Cell::Dead && n == 3 {
        Cell::Alive
    } else {
        Cell::Dead
    }
}

/// The next generation of a `width`-wide, `height`-high grid.
pub open spec fn next_generation(cells: Seq<Cell>, width: int, height: int) -> Seq<Cell> {
    Seq::new(
        (width * height) as nat,
        |i: int| next_state(cells[i], neighbor_count(cells, width, height, i / width, i % width)),
    )
}

/// One transition: the next generation, and with `sustain` on the cell at
/// `pick` forced alive afterwards.
pub open spec fn step_result(cells: Seq<Cell>, width: int, height: int, sustain: bool, pick: int) -> Seq<Cell> {
    if sustain {
        next_generation(cells, width, height).update(pick, Cell::Alive)
    } else {
        next_generation(cells, width, height)
    }
}

/// `k` transitions without sustain.
pub open spec fn generations(cells: Seq<Cell>, width: int, height: int, k: nat) -> Seq<Cell>
    decreases k,
{
    if k == 0 {
        cells
    } else {
        next_generation(generations(cells, width, height, (k - 1) as nat), width, height)
    }
}

/// The positions of the live cells.
pub open spec fn alive_positions(cells: Seq<Cell>) -> Set<int> {
    Set::new(|i: int| 0 <= i < cells.len() && cells[i] == Cell::Alive)
}

/// The number of live cells.
pub open spec fn alive_count(cells: Seq<Cell>) -> nat {
    alive_positions(cells).len()
}

/// `(row, col)` lies in the grid and `index_of` maps it into the buffer.
pub proof fn lemma_index_in_range(width: int, height: int, row: int, col: int)
    requires
        0 <= row < height,
        0 <= col < width,
    ensures
        0 <= index_of(width, row, col) < width * height,
{
    assert(0 <= row * width + col < width * height) by (nonlinear_arith)
        requires
            0 <= row < height,
            0 <= col < width,
    ;
}

/// A buffer offset splits back into its row and column.
pub proof fn lemma_index_split(width: int, height: int, i: int)
    requires
        0 < width,
        0 <= i < width * height,
    ensures
        0 <= i / width < height,
        0 <= i % width < width,
        index_of(width, i / width, i % width) == i,
{
    vstd::arithmetic::div_mod::lemma_fundamental_div_mod(i, width);
    vstd::arithmetic::div_mod::lemma_mod_bound(i, width);
    vstd::arithmetic::div_mod::lemma_div_pos_is_pos(i, width);
    vstd::arithmetic::mul::lemma_mul_is_commutative(i / width, width);
    assert(i / width < height) by (nonlinear_arith)
        requires
            0 < width,
            i == width * (i / width) + i % width,
            0 <= i % width,
            i < width * height,
    ;
}

/// `(row, col)` is recovered from its buffer offset.
pub proof fn lemma_index_join(width: int, row: int, col: int)
    requires
        0 <= col < width,
    ensures
        index_of(width, row, col) / width == row,
        index_of(width, row, col) % width == col,
{
    vstd::arithmetic::div_mod::lemma_fundamental_div_mod_converse(row * width + col, width, row, col);
}

} // verus!
