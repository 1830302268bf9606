//! The grid: its cell buffer, its dimensions and its sustain switch.
use vstd::prelude::*;

use crate::random::{os_rng, random_below};
use crate::rules::{
    alive_at, index_of, lemma_index_in_range, lemma_index_join, neighbor_count, next_generation,
    next_state, step_result, wrap_next, wrap_prev, Cell,
};

verus! {

/// A toroidal Game of Life grid, stored row by row.
pub struct Universe {
    width: u32,
    height: u32,
    cells: Vec<Cell>,
    infinite: bool,
    rng: rand::rngs::OsRng,
}

/// Conway's rule on one cell and its live-neighbour count.
pub fn transition(cell: Cell, live_neighbors: u8) -> (r: Cell)
    ensures
        r == next_state(cell, live_neighbors as int),
{
    match cell {
        Cell::Alive => {
            if live_neighbors < 2 {
                Cell::Dead
            } else if live_neighbors == 2 || live_neighbors == 3 {
                Cell::Alive
            } else {
                Cell::Dead
            }
        },
        Cell::Dead => {
            if live_neighbors == 3 {
                Cell::Alive
            } else {
                Cell::Dead
            }
        },
    }
}

impl Universe {
    /// Both dimensions are positive, the cell count fits in a `u32`, and the
    /// buffer holds exactly one cell per position.
    pub open spec fn wf(&self) -> bool {
        &&& self.width_spec() >= 1
        &&& self.height_spec() >= 1
        &&& self.width_spec() * self.height_spec() <= u32::MAX
        &&& self.cells_spec().len() == self.width_spec() * self.height_spec()
    }

    pub closed spec fn width_spec(&self) -> int {
        self.width as int
    }

    pub closed spec fn height_spec(&self) -> int {
        self.height as int
    }

    /// Whether sustain mode is on.
    pub closed spec fn sustain_spec(&self) -> bool {
        self.infinite
    }

    /// The current generation, row by row.
    pub closed spec fn cells_spec(&self) -> Seq<Cell> {
        self.cells@
    }

    /// A grid of `height` rows and `width` columns, every cell dead and
    /// sustain off.
    pub fn new(height: u32, width: u32) -> (r: Universe)
        requires
            height >= 1,
            width >= 1,
            height * width <= u32::MAX,
        ensures
            r.wf(),
            r.width_spec() == width,
            r.height_spec() == height,
            !r.sustain_spec(),
            r.cells_spec() == Seq::new((width * height) as nat, |i: int| Cell::Dead),
    {
        let n: u32 = width * height;
        let mut cells: Vec<Cell> = Vec::new();
        let mut i: u32 = 0;
        while i < n
            invariant
                i <= n,
                cells@ == Seq::new(i as nat, |k: int| Cell::Dead),
            decreases n - i,
        {
            cells.push(Cell::Dead);
            i = i + 1;
        }
        Universe { width, height, cells, infinite: false, rng: os_rng() }
    }

    /// A grid as `new` makes it, or `None` when a dimension is zero or the
    /// cell count does not fit in a `u32`.
    pub fn try_new(height: u32, width: u32) -> (r: Option<Universe>)
        ensures
            r.is_none() <==> (height == 0 || width == 0 || height * width > u32::MAX),
            r matches Some(u) ==> {
                &&& u.wf()
                &&& u.width_spec() == width
                &&& u.height_spec() == height
                &&& !u.sustain_spec()
                &&& u.cells_spec() == Seq::new((width * height) as nat, |i: int| Cell::Dead)
            },
    {
        if height == 0 || width == 0 || height > u32::MAX / width {
            proof {
                if height > 0 && width > 0 {
                    assert(height * width > u32::MAX) by (nonlinear_arith)
                        requires
                            width > 0,
                            height > u32::MAX / width,
                    ;
                }
            }
            None
        } else {
            proof {
                assert(height * width <= u32::MAX) by (nonlinear_arith)
                    requires
                        width > 0,
                        height <= u32::MAX / width,
                ;
            }
            Some(Universe::new(height, width))
        }
    }

    /// The current generation, row by row.
    pub fn cells(&self) -> (r: &[Cell])
        ensures
            r@ == self.cells_spec(),
    {
        self.cells.as_slice()
    }

    pub fn width(&self) -> (r: u32)
        ensures
            r == self.width_spec(),
    {
        self.width
    }

    pub fn height(&self) -> (r: u32)
        ensures
            r == self.height_spec(),
    {
        self.height
    }

    /// Turns sustain mode on or off from the next transition on.
    pub fn set_infinite(&mut self, state: bool)
        ensures
            final(self).sustain_spec() == state,
            final(self).cells_spec() == old(self).cells_spec(),
            final(self).width_spec() == old(self).width_spec(),
            final(self).height_spec() == old(self).height_spec(),
            old(self).wf() ==> final(self).wf(),
    {
        self.infinite = state;
    }

    /// The buffer offset of `(row, col)`.
    pub fn get_index(&self, row: u32, col: u32) -> (r: usize)
        requires
            self.wf(),
            row < self.height_spec(),
            col < self.width_spec(),
        ensures
            r == index_of(self.width_spec(), row as int, col as int),
            r < self.cells_spec().len(),
    {
        proof {
            lemma_index_in_range(self.width as int, self.height as int, row as int, col as int);
        }
        (row * self.width + col) as usize
    }

    /// Makes the cell at `(row, col)` alive.
    pub fn activate_cell(&mut self, row: u32, col: u32)
        requires
            old(self).wf(),
            row < old(self).height_spec(),
            col < old(self).width_spec(),
        ensures
            final(self).wf(),
            final(self).cells_spec() == old(self).cells_spec().update(
                index_of(old(self).width_spec(), row as int, col as int),
                Cell::Alive,
            ),
            final(self).width_spec() == old(self).width_spec(),
            final(self).height_spec() == old(self).height_spec(),
            final(self).sustain_spec() == old(self).sustain_spec(),
    {
        let idx = self.get_index(row, col);
        self.cells.set(idx, Cell::Alive);
    }

    /// 1 when the cell at `(row, col)` is alive, else 0.
    fn value_at(&self, row: u32, col: u32) -> (r: u8)
        requires
            self.wf(),
            row < self.height_spec(),
            col < self.width_spec(),
        ensures
            r == alive_at(self.cells_spec(), self.width_spec(), row as int, col as int),
    {
        let idx = self.get_index(row, col);
        match self.cells[idx] {
            Cell::Alive => 1,
            Cell::Dead => 0,
        }
    }

    /// The number of live cells among the eight around `(row, col)`, the
    /// grid wrapping around at every edge.
    pub fn live_neighbor_count(&self, row: u32, col: u32) -> (r: u8)
        requires
            self.wf(),
            row < self.height_spec(),
            col < self.width_spec(),
        ensures
            r == neighbor_count(self.cells_spec(), self.width_spec(), self.height_spec(), row as int, col as int),
            r <= 8,
    {
        let up: u32 = if row == 0 { self.height - 1 } else { row - 1 };
        let down: u32 = if row + 1 == self.height { 0 } else { row + 1 };
        let left: u32 = if col == 0 { self.width - 1 } else { col - 1 };
        let right: u32 = if col + 1 == self.width { 0 } else { col + 1 };
        assert(up == wrap_prev(row as int, self.height as int));
        assert(down == wrap_next(row as int, self.height as int));
        assert(left == wrap_prev(col as int, self.width as int));
        assert(right == wrap_next(col as int, self.width as int));
        let mut count: u8 = 0;
        count = count + self.value_at(up, left);
        count = count + self.value_at(up, col);
        count = count + self.value_at(up, right);
        count = count + self.value_at(row, left);
        count = count + self.value_at(row, right);
        count = count + self.value_at(down, left);
        count = count + self.value_at(down, col);
        count = count + self.value_at(down, right);
        count
    }

    /// The next generation under Conway's rule, computed into a fresh
    /// buffer while the current one is only read.
    pub fn next_cells(&self) -> (r: Vec<Cell>)
        requires
            self.wf(),
        ensures
            r@ == next_generation(self.cells_spec(), self.width_spec(), self.height_spec()),
    {
        let ghost w = self.width as int;
        let ghost h = self.height as int;
        let ghost target = next_generation(self.cells@, w, h);
        let mut next: Vec<Cell> = Vec::new();
        let mut row: u32 = 0;
        while row < self.height
            invariant
                self.wf(),
                w == self.width,
                h == self.height,
                target == next_generation(self.cells@, w, h),
                row <= h,
                next@.len() == row * w,
                forall|k: int| 0 <= k < next@.len() ==> next@[k] == target[k],
            decreases h - row,
        {
            let mut col: u32 = 0;
            while col < self.width
                invariant
                    self.wf(),
                    w == self.width,
                    h == self.height,
                    target == next_generation(self.cells@, w, h),
                    row < h,
                    col <= w,
                    next@.len() == row * w + col,
                    forall|k: int| 0 <= k < next@.len() ==> next@[k] == target[k],
                decreases w - col,
            {
                let idx = self.get_index(row, col);
                let n = self.live_neighbor_count(row, col);
                let cell = transition(self.cells[idx], n);
                proof {
                    lemma_index_join(w, row as int, col as int);
                    lemma_index_in_range(w, h, row as int, col as int);
                }
                next.push(cell);
                col = col + 1;
            }
            assert(row * w + w == (row + 1) * w) by (nonlinear_arith);
            row = row + 1;
        }
        assert(next@.len() == target.len()) by (nonlinear_arith)
            requires
                next@.len() == row * w,
                row == h,
                target.len() == w * h,
        ;
        assert(next@ =~= target);
        next
    }

    /// One transition: the next generation, then, with sustain on, the cell
    /// at `pick` forced alive.
    pub fn tick_with(&mut self, pick: u32)
        requires
            old(self).wf(),
            pick < old(self).width_spec() * old(self).height_spec(),
        ensures
            final(self).wf(),
            final(self).cells_spec() == step_result(
                old(self).cells_spec(),
                old(self).width_spec(),
                old(self).height_spec(),
                old(self).sustain_spec(),
                pick as int,
            ),
            final(self).width_spec() == old(self).width_spec(),
            final(self).height_spec() == old(self).height_spec(),
            final(self).sustain_spec() == old(self).sustain_spec(),
    {
        let mut next = self.next_cells();
        if self.infinite {
            next.set(pick as usize, Cell::Alive);
        }
        self.cells = next;
    }

    /// One transition, with the forced cell drawn uniformly from the
    /// operating system's generator when sustain is on.
    pub fn tick(&mut self)
        requires
            old(self).wf(),
        ensures
            final(self).wf(),
            exists|pick: int|
                0 <= pick < old(self).width_spec() * old(self).height_spec()
                    && final(self).cells_spec() == #[trigger] step_result(
                    old(self).cells_spec(),
                    old(self).width_spec(),
                    old(self).height_spec(),
                    old(self).sustain_spec(),
                    pick,
                ),
            final(self).width_spec() == old(self).width_spec(),
            final(self).height_spec() == old(self).height_spec(),
            final(self).sustain_spec() == old(self).sustain_spec(),
    {
        proof {
            assert(self.width * self.height >= 1) by (nonlinear_arith)
                requires
                    self.width >= 1,
                    self.height >= 1,
            ;
        }
        let ghost before = *self;
        let pick: u32 = if self.infinite {
            random_below(&mut self.rng, self.width * self.height)
        } else {
            0
        };
        self.tick_with(pick);
        assert(self.cells@ == step_result(
            before.cells_spec(),
            before.width_spec(),
            before.height_spec(),
            before.sustain_spec(),
            pick as int,
        ));
    }
}

} // verus!
