//! Still lifes and oscillators: patterns whose live cells are the product of
//! a set of rows and a set of columns, and how they evolve.
use vstd::prelude::*;

use crate::rules::{
    alive_at, generations, index_of, lemma_index_in_range, lemma_index_join, lemma_index_split,
    neighbor_count, next_generation, next_state, wrap_next, wrap_prev, Cell,
};

verus! {

/// 1 for `true`, 0 for `false`.
pub open spec fn indicator(b: bool) -> int {
    if b { 1 } else { 0 }
}

/// The live cells are exactly those whose row is in `rows` and whose column
/// is in `cols`.
pub open spec fn is_product(
    cells: Seq<Cell>,
    width: int,
    height: int,
    rows: spec_fn(int) -> bool,
    cols: spec_fn(int) -> bool,
) -> bool {
    &&& cells.len() == width * height
    &&& forall|r: int, c: int|
        0 <= r < height && 0 <= c < width ==> (#[trigger] cells[index_of(width, r, c)] == Cell::Alive
            <==> rows(r) && cols(c))
}

/// How many of the three ring positions around and at `i` lie in `s`.
pub open spec fn window(s: spec_fn(int) -> bool, i: int, n: int) -> int {
    indicator(s(wrap_prev(i, n))) + indicator(s(i)) + indicator(s(wrap_next(i, n)))
}

/// The single position `x`.
pub open spec fn single(x: int) -> spec_fn(int) -> bool {
    |i: int| i == x
}

/// The positions `x` and the one after it on a ring of `n`.
pub open spec fn pair(x: int, n: int) -> spec_fn(int) -> bool {
    |i: int| i == x || i == wrap_next(x, n)
}

/// The positions before, at and after `x` on a ring of `n`.
pub open spec fn line3(x: int, n: int) -> spec_fn(int) -> bool {
    |i: int| i == wrap_prev(x, n) || i == x || i == wrap_next(x, n)
}

/// Exactly the 2 by 2 block whose top-left cell is `(r0, c0)` is alive.
pub open spec fn is_block(cells: Seq<Cell>, width: int, height: int, r0: int, c0: int) -> bool {
    is_product(cells, width, height, pair(r0, height), pair(c0, width))
}

/// Exactly the three cells of row `r0` centred on column `c0` are alive.
pub open spec fn is_horizontal_blinker(cells: Seq<Cell>, width: int, height: int, r0: int, c0: int) -> bool {
    is_product(cells, width, height, single(r0), line3(c0, width))
}

/// Exactly the three cells of column `c0` centred on row `r0` are alive.
pub open spec fn is_vertical_blinker(cells: Seq<Cell>, width: int, height: int, r0: int, c0: int) -> bool {
    is_product(cells, width, height, line3(r0, height), single(c0))
}

/// What Conway's rule gives at `(r, c)` of a product pattern, written with
/// the row and column windows.
pub open spec fn product_rule(
    rows: spec_fn(int) -> bool,
    cols: spec_fn(int) -> bool,
    width: int,
    height: int,
    r: int,
    c: int,
) -> Cell {
    let cell = if rows(r) && cols(c) { Cell::Alive } else { Cell::Dead };
    next_state(
        cell,
        window(rows, r, height) * window(cols, c, width) - indicator(rows(r)) * indicator(cols(c)),
    )
}

proof fn lemma_product_count(
    cells: Seq<Cell>,
    width: int,
    height: int,
    rows: spec_fn(int) -> bool,
    cols: spec_fn(int) -> bool,
    r: int,
    c: int,
)
    requires
        width >= 1,
        height >= 1,
        is_product(cells, width, height, rows, cols),
        0 <= r < height,
        0 <= c < width,
    ensures
        neighbor_count(cells, width, height, r, c) == window(rows, r, height) * window(cols, c, width)
            - indicator(rows(r)) * indicator(cols(c)),
{
    let u = wrap_prev(r, height);
    let d = wrap_next(r, height);
    let l = wrap_prev(c, width);
    let rt = wrap_next(c, width);
    assert forall|x: int, y: int| 0 <= x < height && 0 <= y < width implies #[trigger] alive_at(
        cells,
        width,
        x,
        y,
    ) == indicator(rows(x)) * indicator(cols(y)) by {
        assert(cells[index_of(width, x, y)] == Cell::Alive <==> rows(x) && cols(y));
    }
    assert(alive_at(cells, width, u, l) == indicator(rows(u)) * indicator(cols(l)));
    assert(alive_at(cells, width, u, c) == indicator(rows(u)) * indicator(cols(c)));
    assert(alive_at(cells, width, u, rt) == indicator(rows(u)) * indicator(cols(rt)));
    assert(alive_at(cells, width, r, l) == indicator(rows(r)) * indicator(cols(l)));
    assert(alive_at(cells, width, r, rt) == indicator(rows(r)) * indicator(cols(rt)));
    assert(alive_at(cells, width, d, l) == indicator(rows(d)) * indicator(cols(l)));
    assert(alive_at(cells, width, d, c) == indicator(rows(d)) * indicator(cols(c)));
    assert(alive_at(cells, width, d, rt) == indicator(rows(d)) * indicator(cols(rt)));
    let a1 = indicator(rows(u));
    let a2 = indicator(rows(r));
    let a3 = indicator(rows(d));
    let b1 = indicator(cols(l));
    let b2 = indicator(cols(c));
    let b3 = indicator(cols(rt));
    assert((a1 + a2 + a3) * (b1 + b2 + b3) - a2 * b2 == a1 * b1 + a1 * b2 + a1 * b3 + a2 * b1 + a2
        * b3 + a3 * b1 + a3 * b2 + a3 * b3) by (nonlinear_arith);
}

proof fn lemma_product_next(
    cells: Seq<Cell>,
    width: int,
    height: int,
    rows: spec_fn(int) -> bool,
    cols: spec_fn(int) -> bool,
    rows2: spec_fn(int) -> bool,
    cols2: spec_fn(int) -> bool,
)
    requires
        width >= 1,
        height >= 1,
        is_product(cells, width, height, rows, cols),
        forall|r: int, c: int|
            0 <= r < height && 0 <= c < width ==> (#[trigger] product_rule(rows, cols, width, height, r, c)
                == Cell::Alive <==> rows2(r) && cols2(c)),
    ensures
        is_product(next_generation(cells, width, height), width, height, rows2, cols2),
{
    let next = next_generation(cells, width, height);
    assert forall|r: int, c: int| 0 <= r < height && 0 <= c < width implies (#[trigger] next[index_of(
        width,
        r,
        c,
    )] == Cell::Alive <==> rows2(r) && cols2(c)) by {
        lemma_index_in_range(width, height, r, c);
        lemma_index_join(width, r, c);
        lemma_product_count(cells, width, height, rows, cols, r, c);
        assert(cells[index_of(width, r, c)] == Cell::Alive <==> rows(r) && cols(c));
        assert(product_rule(rows, cols, width, height, r, c) == Cell::Alive <==> rows2(r) && cols2(c));
    }
}

proof fn lemma_product_unique(
    a: Seq<Cell>,
    b: Seq<Cell>,
    width: int,
    height: int,
    rows: spec_fn(int) -> bool,
    cols: spec_fn(int) -> bool,
)
    requires
        width >= 1,
        height >= 1,
        is_product(a, width, height, rows, cols),
        is_product(b, width, height, rows, cols),
    ensures
        a == b,
{
    assert forall|i: int| 0 <= i < a.len() implies a[i] == b[i] by {
        lemma_index_split(width, height, i);
        let r = i / width;
        let c = i % width;
        assert(a[index_of(width, r, c)] == Cell::Alive <==> rows(r) && cols(c));
        assert(b[index_of(width, r, c)] == Cell::Alive <==> rows(r) && cols(c));
    }
    assert(a =~= b);
}

proof fn lemma_indicator_product(a: bool, b: bool)
    ensures
        indicator(a) * indicator(b) == indicator(a && b),
{
    if a {
        assert(1 * indicator(b) == indicator(b));
    } else {
        assert(0 * indicator(b) == 0);
    }
}

proof fn lemma_pair_window(x: int, n: int, i: int)
    requires
        n >= 4,
        0 <= x < n,
        0 <= i < n,
    ensures
        pair(x, n)(i) ==> window(pair(x, n), i, n) == 2,
        !pair(x, n)(i) ==> 0 <= window(pair(x, n), i, n) <= 1,
{
}

proof fn lemma_single_window(x: int, n: int, i: int)
    requires
        n >= 3,
        0 <= x < n,
        0 <= i < n,
    ensures
        window(single(x), i, n) == indicator(line3(x, n)(i)),
{
}

proof fn lemma_line3_window(x: int, n: int, i: int)
    requires
        n >= 5,
        0 <= x < n,
        0 <= i < n,
    ensures
        i == x ==> window(line3(x, n), i, n) == 3,
        i != x && line3(x, n)(i) ==> window(line3(x, n), i, n) == 2,
        !line3(x, n)(i) ==> 0 <= window(line3(x, n), i, n) <= 1,
{
}

/// A 2 by 2 block on a grid of at least 4 by 4 is a still life: with
/// sustain off it stays as it is for any number of transitions.
pub proof fn lemma_block_is_still(cells: Seq<Cell>, width: int, height: int, r0: int, c0: int, k: nat)
    requires
        width >= 4,
        height >= 4,
        0 <= r0 < height,
        0 <= c0 < width,
        is_block(cells, width, height, r0, c0),
    ensures
        generations(cells, width, height, k) == cells,
    decreases k,
{
    let rows = pair(r0, height);
    let cols = pair(c0, width);
    assert forall|r: int, c: int| 0 <= r < height && 0 <= c < width implies (#[trigger] product_rule(
        rows,
        cols,
        width,
        height,
        r,
        c,
    ) == Cell::Alive <==> rows(r) && cols(c)) by {
        lemma_pair_window(r0, height, r);
        lemma_pair_window(c0, width, c);
        let wr = window(rows, r, height);
        let wc = window(cols, c, width);
        lemma_indicator_product(rows(r), cols(c));
        if rows(r) && cols(c) {
            assert(wr * wc == 4) by (nonlinear_arith)
                requires
                    wr == 2,
                    wc == 2,
            ;
        } else if !rows(r) {
            assert(wr * wc <= 2) by (nonlinear_arith)
                requires
                    0 <= wr <= 1,
                    0 <= wc <= 2,
            ;
        } else {
            assert(wr * wc <= 2) by (nonlinear_arith)
                requires
                    0 <= wc <= 1,
                    wr == 2,
            ;
        }
    }
    lemma_product_next(cells, width, height, rows, cols, rows, cols);
    lemma_product_unique(next_generation(cells, width, height), cells, width, height, rows, cols);
    if k > 0 {
        lemma_block_is_still(cells, width, height, r0, c0, (k - 1) as nat);
    }
}

proof fn lemma_horizontal_to_vertical(cells: Seq<Cell>, width: int, height: int, r0: int, c0: int)
    requires
        width >= 5,
        height >= 5,
        0 <= r0 < height,
        0 <= c0 < width,
        is_horizontal_blinker(cells, width, height, r0, c0),
    ensures
        is_vertical_blinker(next_generation(cells, width, height), width, height, r0, c0),
{
    let rows = single(r0);
    let cols = line3(c0, width);
    assert forall|r: int, c: int| 0 <= r < height && 0 <= c < width implies (#[trigger] product_rule(
        rows,
        cols,
        width,
        height,
        r,
        c,
    ) == Cell::Alive <==> line3(r0, height)(r) && single(c0)(c)) by {
        lemma_single_window(r0, height, r);
        lemma_line3_window(c0, width, c);
        let wr = window(rows, r, height);
        let wc = window(cols, c, width);
        lemma_indicator_product(rows(r), cols(c));
        if wr == 1 {
            assert(wr * wc == wc) by (nonlinear_arith)
                requires
                    wr == 1,
            ;
        } else {
            assert(wr * wc == 0) by (nonlinear_arith)
                requires
                    wr == 0,
            ;
        }
    }
    lemma_product_next(cells, width, height, rows, cols, line3(r0, height), single(c0));
}

proof fn lemma_vertical_to_horizontal(cells: Seq<Cell>, width: int, height: int, r0: int, c0: int)
    requires
        width >= 5,
        height >= 5,
        0 <= r0 < height,
        0 <= c0 < width,
        is_vertical_blinker(cells, width, height, r0, c0),
    ensures
        is_horizontal_blinker(next_generation(cells, width, height), width, height, r0, c0),
{
    let rows = line3(r0, height);
    let cols = single(c0);
    assert forall|r: int, c: int| 0 <= r < height && 0 <= c < width implies (#[trigger] product_rule(
        rows,
        cols,
        width,
        height,
        r,
        c,
    ) == Cell::Alive <==> single(r0)(r) && line3(c0, width)(c)) by {
        lemma_line3_window(r0, height, r);
        lemma_single_window(c0, width, c);
        let wr = window(rows, r, height);
        let wc = window(cols, c, width);
        lemma_indicator_product(rows(r), cols(c));
        if wc == 1 {
            assert(wr * wc == wr) by (nonlinear_arith)
                requires
                    wc == 1,
            ;
        } else {
            assert(wr * wc == 0) by (nonlinear_arith)
                requires
                    wc == 0,
            ;
        }
    }
    lemma_product_next(cells, width, height, rows, cols, single(r0), line3(c0, width));
}

/// A blinker on a grid of at least 5 by 5 turns upright after one
/// transition and is back where it started after two, sustain being off.
pub proof fn lemma_blinker_period_two(cells: Seq<Cell>, width: int, height: int, r0: int, c0: int)
    requires
        width >= 5,
        height >= 5,
        0 <= r0 < height,
        0 <= c0 < width,
        is_horizontal_blinker(cells, width, height, r0, c0),
    ensures
        is_vertical_blinker(generations(cells, width, height, 1), width, height, r0, c0),
        generations(cells, width, height, 1) != cells,
        generations(cells, width, height, 2) == cells,
{
    let once = next_generation(cells, width, height);
    assert(generations(cells, width, height, 0) == cells);
    assert(generations(cells, width, height, 1) == once);
    lemma_horizontal_to_vertical(cells, width, height, r0, c0);
    lemma_vertical_to_horizontal(once, width, height, r0, c0);
    assert(generations(cells, width, height, 2) == next_generation(once, width, height));
    lemma_product_unique(
        next_generation(once, width, height),
        cells,
        width,
        height,
        single(r0),
        line3(c0, width),
    );
    let up = wrap_prev(r0, height);
    lemma_index_in_range(width, height, up, c0);
    assert(once[index_of(width, up, c0)] == Cell::Alive);
    assert(cells[index_of(width, up, c0)] != Cell::Alive);
}

} // verus!
