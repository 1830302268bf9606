//! Properties of the model that hold for every grid: how activations add up,
//! what toroidal counting means, still lifes, oscillators and sustain mode.
use vstd::prelude::*;

use crate::rules::{
    alive_at, alive_count, alive_positions, index_of, lemma_index_in_range, lemma_index_join,
    neighbor_count, step_result, wrap_next, wrap_prev, Cell,
};

verus! {

/// A buffer of `n` dead cells.
pub open spec fn all_dead(n: int) -> Seq<Cell> {
    Seq::new(n as nat, |i: int| Cell::Dead)
}

/// The buffer after activating each `(row, col)` of `acts` in turn.
pub open spec fn activate_all(cells: Seq<Cell>, width: int, acts: Seq<(int, int)>) -> Seq<Cell>
    decreases acts.len(),
{
    if acts.len() == 0 {
        cells
    } else {
        let last = acts.last();
        activate_all(cells, width, acts.drop_last()).update(index_of(width, last.0, last.1), Cell::Alive)
    }
}

/// Every pair of `acts` is a position of a `width` by `height` grid.
pub open spec fn all_in_grid(acts: Seq<(int, int)>, width: int, height: int) -> bool {
    forall|k: int| 0 <= k < acts.len() ==> 0 <= #[trigger] acts[k].0 < height && 0 <= acts[k].1 < width
}

proof fn lemma_activation_positions(width: int, height: int, acts: Seq<(int, int)>)
    requires
        width >= 1,
        height >= 1,
        all_in_grid(acts, width, height),
    ensures
        activate_all(all_dead(width * height), width, acts).len() == width * height,
        alive_positions(activate_all(all_dead(width * height), width, acts))
            == acts.to_set().map(|p: (int, int)| index_of(width, p.0, p.1)),
    decreases acts.len(),
{
    let f = |p: (int, int)| index_of(width, p.0, p.1);
    let result = activate_all(all_dead(width * height), width, acts);
    if acts.len() == 0 {
        assert(alive_positions(result) =~= Set::empty());
        assert(acts.to_set() =~= Set::empty());
        assert(acts.to_set().map(f) =~= Set::empty());
    } else {
        let prefix = acts.drop_last();
        let last = acts.last();
        let before = activate_all(all_dead(width * height), width, prefix);
        assert(all_in_grid(prefix, width, height)) by {
            assert forall|k: int| 0 <= k < prefix.len() implies 0 <= #[trigger] prefix[k].0 < height
                && 0 <= prefix[k].1 < width by {
                assert(prefix[k] == acts[k]);
            }
        }
        lemma_activation_positions(width, height, prefix);
        assert(0 <= acts[acts.len() - 1].0 < height);
        lemma_index_in_range(width, height, last.0, last.1);
        assert(acts =~= prefix.push(last));
        prefix.lemma_push_to_set_commute(last);
        assert(alive_positions(result) =~= alive_positions(before).insert(f(last)));
        let grown = prefix.to_set().insert(last);
        assert forall|x: int| #[trigger] grown.map(f).contains(x) == prefix.to_set().map(f).insert(f(last)).contains(x) by {
            if grown.map(f).contains(x) {
                let a = choose|a: (int, int)| grown.contains(a) && f(a) == x;
                if a != last {
                    assert(prefix.to_set().contains(a));
                }
            }
            if prefix.to_set().map(f).contains(x) {
                let a = choose|a: (int, int)| prefix.to_set().contains(a) && f(a) == x;
                assert(grown.contains(a));
            }
            if x == f(last) {
                assert(grown.contains(last));
            }
        }
        assert(grown.map(f) =~= prefix.to_set().map(f).insert(f(last)));
    }
}

/// Activating cells of a fresh grid leaves exactly as many cells alive as
/// there were distinct positions activated.
pub proof fn lemma_activation_count(width: int, height: int, acts: Seq<(int, int)>)
    requires
        width >= 1,
        height >= 1,
        all_in_grid(acts, width, height),
    ensures
        alive_count(activate_all(all_dead(width * height), width, acts)) == acts.to_set().len(),
{
    let f = |p: (int, int)| index_of(width, p.0, p.1);
    lemma_activation_positions(width, height, acts);
    vstd::seq_lib::seq_to_set_is_finite(acts);
    assert forall|p1: (int, int), p2: (int, int)|
        acts.to_set().contains(p1) && acts.to_set().contains(p2) && #[trigger] f(p1) == #[trigger] f(p2)
        implies p1 == p2 by {
        let k1 = choose|k: int| 0 <= k < acts.len() && acts[k] == p1;
        let k2 = choose|k: int| 0 <= k < acts.len() && acts[k] == p2;
        assert(0 <= acts[k1].0 < height);
        assert(0 <= acts[k2].0 < height);
        lemma_index_join(width, p1.0, p1.1);
        lemma_index_join(width, p2.0, p2.1);
    }
    vstd::set_lib::lemma_map_size(acts.to_set(), acts.to_set().map(f), f);
}

/// The neighbour count written with signed coordinates reduced modulo the
/// grid's dimensions.
pub open spec fn signed_neighbor_count(cells: Seq<Cell>, width: int, height: int, row: int, col: int) -> int {
    alive_at(cells, width, (row - 1) % height, (col - 1) % width)
        + alive_at(cells, width, (row - 1) % height, col % width)
        + alive_at(cells, width, (row - 1) % height, (col + 1) % width)
        + alive_at(cells, width, row % height, (col - 1) % width)
        + alive_at(cells, width, row % height, (col + 1) % width)
        + alive_at(cells, width, (row + 1) % height, (col - 1) % width)
        + alive_at(cells, width, (row + 1) % height, col % width)
        + alive_at(cells, width, (row + 1) % height, (col + 1) % width)
}

proof fn lemma_wrap_is_mod(i: int, n: int)
    requires
        0 <= i < n,
    ensures
        wrap_prev(i, n) == (i - 1) % n,
        wrap_next(i, n) == (i + 1) % n,
        i == i % n,
{
    vstd::arithmetic::div_mod::lemma_small_mod(i as nat, n as nat);
    if i == 0 {
        vstd::arithmetic::div_mod::lemma_small_mod((n - 1) as nat, n as nat);
        vstd::arithmetic::div_mod::lemma_mod_add_multiples_vanish(-1, n);
    } else {
        vstd::arithmetic::div_mod::lemma_small_mod((i - 1) as nat, n as nat);
    }
    if i + 1 == n {
        vstd::arithmetic::div_mod::lemma_mod_self_0(n);
    } else {
        vstd::arithmetic::div_mod::lemma_small_mod((i + 1) as nat, n as nat);
    }
}

/// At every cell, border cells included, the toroidal neighbour count equals
/// the count over signed coordinates taken modulo the dimensions.
pub proof fn lemma_toroidal_count_is_signed_count(cells: Seq<Cell>, width: int, height: int, row: int, col: int)
    requires
        0 <= row < height,
        0 <= col < width,
    ensures
        neighbor_count(cells, width, height, row, col) == signed_neighbor_count(cells, width, height, row, col),
{
    lemma_wrap_is_mod(row, height);
    lemma_wrap_is_mod(col, width);
}

/// The eight neighbours of the corner `(0, 0)` are the cells diagonally and
/// orthogonally across the far row and the far column.
pub proof fn lemma_corner_neighbors(cells: Seq<Cell>, width: int, height: int)
    requires
        width >= 2,
        height >= 2,
    ensures
        neighbor_count(cells, width, height, 0, 0) == alive_at(cells, width, height - 1, width - 1)
            + alive_at(cells, width, height - 1, 0) + alive_at(cells, width, height - 1, 1)
            + alive_at(cells, width, 0, width - 1) + alive_at(cells, width, 0, 1)
            + alive_at(cells, width, 1, width - 1) + alive_at(cells, width, 1, 0)
            + alive_at(cells, width, 1, 1),
{
}

/// With sustain on, every transition leaves at least one cell alive: the
/// one it forced.
pub proof fn lemma_sustain_keeps_a_cell_alive(cells: Seq<Cell>, width: int, height: int, pick: int)
    requires
        width >= 1,
        height >= 1,
        0 <= pick < width * height,
    ensures
        step_result(cells, width, height, true, pick)[pick] == Cell::Alive,
        alive_count(step_result(cells, width, height, true, pick)) >= 1,
{
    let result = step_result(cells, width, height, true, pick);
    let alive = alive_positions(result);
    vstd::set_lib::lemma_int_range(0, width * height);
    vstd::set_lib::lemma_len_subset(alive, vstd::set_lib::set_int_range(0, width * height));
    assert(alive.contains(pick));
    vstd::set::axiom_set_contains_len(alive, pick);
}

} // verus!
