//! Properties that hold of the universe's operations, stated over the grid model.
use crate::universe::{
    cell_at, glider_at, grid_wf, in_rows, index_of, lemma_index, lemma_wrap, live_count,
    next_generation, next_state, keeps_cells, toggled, Grid,
};
use vstd::prelude::*;

verus! {

/// The grid after `k` generations.
pub open spec fn generations(g: Grid, k: nat) -> Grid
    decreases k,
{
    if k == 0 {
        g
    } else {
        next_generation(generations(g, (k - 1) as nat))
    }
}

/// Determinism: two universes that hold the same grid still hold the same
/// grid after any number of generations.
pub proof fn ticks_are_deterministic(a: Grid, b: Grid, k: nat)
    requires
        a == b,
    ensures
        generations(a, k) == generations(b, k),
    decreases k,
{
    if k > 0 {
        ticks_are_deterministic(a, b, (k - 1) as nat);
    }
}

/// The rule as a table: a live cell stays alive with 2 or 3 live neighbours
/// and dies otherwise; a dead cell comes alive with exactly 3.
pub proof fn rule_table(alive: bool, n: int)
    requires
        0 <= n <= 8,
    ensures
        next_state(alive, n) == (if alive {
            n == 2 || n == 3
        } else {
            n == 3
        }),
{
}

/// The grid whose only live cell is at `(row, col)`.
pub open spec fn single_cell(g: Grid, row: int, col: int) -> bool {
    g.cells == Seq::new(g.cells.len(), |i: int| i == index_of(g, row, col))
}

/// Distinct positions of a grid have distinct linear indices.
proof fn lemma_index_injective(g: Grid, r1: int, c1: int, r2: int, c2: int)
    requires
        grid_wf(g),
        0 <= r1 < g.height,
        0 <= c1 < g.width,
        0 <= r2 < g.height,
        0 <= c2 < g.width,
    ensures
        (index_of(g, r1, c1) == index_of(g, r2, c2)) == (r1 == r2 && c1 == c2),
{
    lemma_index(g, r1, c1);
    lemma_index(g, r2, c2);
}

/// In a grid with one live cell at `(lr, lc)`, a position is alive exactly
/// when it wraps onto that cell.
proof fn lemma_single_cell_at(g: Grid, lr: int, lc: int, row: int, col: int)
    requires
        grid_wf(g),
        0 <= lr < g.height,
        0 <= lc < g.width,
        single_cell(g, lr, lc),
    ensures
        cell_at(g, row, col) == (row % (g.height as int) == lr && col % (g.width as int) == lc),
{
    let rr = row % (g.height as int);
    let cc = col % (g.width as int);
    lemma_index(g, rr, cc);
    lemma_index_injective(g, rr, cc, lr, lc);
}

/// The eight neighbours of `(row, col)` seen from a grid with one live cell.
proof fn lemma_single_cell_neighbours(g: Grid, lr: int, lc: int, row: int, col: int)
    requires
        grid_wf(g),
        0 <= lr < g.height,
        0 <= lc < g.width,
        single_cell(g, lr, lc),
    ensures
        cell_at(g, row - 1, col - 1) == ((row - 1) % (g.height as int) == lr && (col - 1) % (
        g.width as int) == lc),
        cell_at(g, row - 1, col) == ((row - 1) % (g.height as int) == lr && col % (
        g.width as int) == lc),
        cell_at(g, row - 1, col + 1) == ((row - 1) % (g.height as int) == lr && (col + 1) % (
        g.width as int) == lc),
        cell_at(g, row, col - 1) == (row % (g.height as int) == lr && (col - 1) % (
        g.width as int) == lc),
        cell_at(g, row, col + 1) == (row % (g.height as int) == lr && (col + 1) % (
        g.width as int) == lc),
        cell_at(g, row + 1, col - 1) == ((row + 1) % (g.height as int) == lr && (col - 1) % (
        g.width as int) == lc),
        cell_at(g, row + 1, col) == ((row + 1) % (g.height as int) == lr && col % (
        g.width as int) == lc),
        cell_at(g, row + 1, col + 1) == ((row + 1) % (g.height as int) == lr && (col + 1) % (
        g.width as int) == lc),
{
    lemma_single_cell_at(g, lr, lc, row - 1, col - 1);
    lemma_single_cell_at(g, lr, lc, row - 1, col);
    lemma_single_cell_at(g, lr, lc, row - 1, col + 1);
    lemma_single_cell_at(g, lr, lc, row, col - 1);
    lemma_single_cell_at(g, lr, lc, row, col + 1);
    lemma_single_cell_at(g, lr, lc, row + 1, col - 1);
    lemma_single_cell_at(g, lr, lc, row + 1, col);
    lemma_single_cell_at(g, lr, lc, row + 1, col + 1);
}

/// Toroidal wraparound: a lone live cell in one corner is a neighbour of each
/// of the three other corners, and a lone live cell in the opposite corner
/// is a neighbour of the first. On a grid of at least 3x3 it is counted
/// exactly once.
pub proof fn corners_wrap(g: Grid)
    requires
        grid_wf(g),
        g.width >= 3,
        g.height >= 3,
    ensures
        single_cell(g, 0, 0) ==> live_count(g, g.height - 1, g.width - 1) == 1 && live_count(
            g,
            g.height - 1,
            0,
        ) == 1 && live_count(g, 0, g.width - 1) == 1,
        single_cell(g, g.height - 1, g.width - 1) ==> live_count(g, 0, 0) == 1 && live_count(
            g,
            g.height - 1,
            0,
        ) == 1 && live_count(g, 0, g.width - 1) == 1,
{
    let h = g.height as int;
    let w = g.width as int;
    lemma_wrap(0, h);
    lemma_wrap(h - 1, h);
    lemma_wrap(0, w);
    lemma_wrap(w - 1, w);
    if single_cell(g, 0, 0) {
        lemma_single_cell_neighbours(g, 0, 0, h - 1, w - 1);
        lemma_single_cell_neighbours(g, 0, 0, h - 1, 0);
        lemma_single_cell_neighbours(g, 0, 0, 0, w - 1);
    }
    if single_cell(g, h - 1, w - 1) {
        lemma_single_cell_neighbours(g, h - 1, w - 1, 0, 0);
        lemma_single_cell_neighbours(g, h - 1, w - 1, h - 1, 0);
        lemma_single_cell_neighbours(g, h - 1, w - 1, 0, w - 1);
    }
}

/// Every linear index of a grid is the index of a position inside it.
proof fn lemma_position(g: Grid, i: int)
    requires
        grid_wf(g),
        0 <= i < g.cells.len(),
    ensures
        0 <= i / (g.width as int) < g.height,
        0 <= i % (g.width as int) < g.width,
        index_of(g, i / (g.width as int), i % (g.width as int)) == i,
{
    let w = g.width as int;
    let h = g.height as int;
    vstd::arithmetic::div_mod::lemma_fundamental_div_mod(i, w);
    let q = i / w;
    let m = i % w;
    assert(0 <= q < h) by (nonlinear_arith)
        requires
            i == w * q + m,
            0 <= m < w,
            0 <= i < w * h,
    ;
    assert(q * w == w * q) by (nonlinear_arith);
}

/// A lone live cell on a grid of at least 3x3 has no live neighbour and
/// dies, and no dead cell has the three it would need to come alive: one
/// generation later every cell is dead.
pub proof fn lone_cell_dies_out(g: Grid, lr: int, lc: int)
    requires
        grid_wf(g),
        g.width >= 3,
        g.height >= 3,
        0 <= lr < g.height,
        0 <= lc < g.width,
        single_cell(g, lr, lc),
    ensures
        next_generation(g).cells == Seq::new(g.cells.len(), |i: int| false),
{
    let w = g.width as int;
    let h = g.height as int;
    assert forall|i: int| 0 <= i < g.cells.len() implies !next_generation(g).cells[i] by {
        let r = i / w;
        let c = i % w;
        lemma_position(g, i);
        lemma_wrap(r, h);
        lemma_wrap(c, w);
        lemma_index_injective(g, r, c, lr, lc);
        lemma_single_cell_neighbours(g, lr, lc, r, c);
    }
    assert(next_generation(g).cells =~= Seq::new(g.cells.len(), |i: int| false));
}

/// A toggled cell keeps its new value at its linear position when the grid
/// then grows, in width or in height.
pub proof fn resize_keeps_toggled(g: Grid, row: int, col: int, grown: Grid)
    requires
        grid_wf(g),
        0 <= row < g.height,
        0 <= col < g.width,
        keeps_cells(grown.cells, toggled(g, row, col).cells),
    ensures
        grown.cells[index_of(g, row, col)] == !g.cells[index_of(g, row, col)],
{
    lemma_index(g, row, col);
}

/// The five cells of a glider placed in the block centred on `(row, col)`:
/// the one above the centre, the one right of the centre, and the bottom row
/// of the block.
pub open spec fn glider_cell(row: int, col: int, i: int, j: int) -> bool {
    (i == row - 1 && j == col) || (i == row && j == col + 1) || (i == row + 1 && col - 1 <= j
        && j <= col + 1)
}

/// Whether `(i, j)` lies in the 3x3 block centred on `(row, col)`.
pub open spec fn in_block(row: int, col: int, i: int, j: int) -> bool {
    row - 1 <= i <= row + 1 && col - 1 <= j <= col + 1
}

/// Two ways of writing a linear index with an offset below the width agree.
proof fn lemma_same_row(w: int, i: int, j: int, q: int, m: int)
    requires
        w > 0,
        0 <= j < w,
        0 <= m < w,
        i * w + j == q * w + m,
    ensures
        i == q,
        j == m,
{
    vstd::arithmetic::div_mod::lemma_fundamental_div_mod_converse_div(i * w + j, w, i, j);
    vstd::arithmetic::div_mod::lemma_fundamental_div_mod_converse_div(q * w + m, w, q, m);
}

/// Inside the grid, the positions that clearing selects for a block that
/// fits in its rows are exactly the cells of that 3x3 block.
proof fn lemma_block_positions(g: Grid, row: int, col: int, i: int, j: int)
    requires
        grid_wf(g),
        1 <= row,
        row + 1 < g.height,
        1 <= col,
        col + 1 < g.width,
        0 <= i < g.height,
        0 <= j < g.width,
    ensures
        in_rows(g.width as int, index_of(g, i, j), row - 1, 3, col - 1, col + 2) == in_block(
            row,
            col,
            i,
            j,
        ),
{
    let w = g.width as int;
    reveal_with_fuel(in_rows, 4);
    let x = index_of(g, i, j);
    if (row - 1) * w + col - 1 <= x && x < (row - 1) * w + col + 2 {
        lemma_same_row(w, i, j, row - 1, x - (row - 1) * w);
    }
    if row * w + col - 1 <= x && x < row * w + col + 2 {
        lemma_same_row(w, i, j, row, x - row * w);
    }
    if (row + 1) * w + col - 1 <= x && x < (row + 1) * w + col + 2 {
        lemma_same_row(w, i, j, row + 1, x - (row + 1) * w);
    }
    assert(row - 1 + 3 - 1 == row + 1);
    assert(row - 1 + 2 - 1 == row);
}

/// The five cells of a glider lie inside the grid.
proof fn lemma_glider_indices(g: Grid, row: int, col: int)
    requires
        grid_wf(g),
        1 <= row,
        row + 1 < g.height,
        1 <= col,
        col + 1 < g.width,
    ensures
        0 <= index_of(g, row - 1, col) < g.cells.len(),
        0 <= index_of(g, row, col + 1) < g.cells.len(),
        0 <= index_of(g, row + 1, col - 1) < g.cells.len(),
        0 <= index_of(g, row + 1, col) < g.cells.len(),
        0 <= index_of(g, row + 1, col + 1) < g.cells.len(),
{
    lemma_index(g, row - 1, col);
    lemma_index(g, row, col + 1);
    lemma_index(g, row + 1, col - 1);
    lemma_index(g, row + 1, col);
    lemma_index(g, row + 1, col + 1);
}

/// Placing a glider sets its five cells alive and the other four cells of
/// the 3x3 block dead, and changes no cell outside the block.
pub proof fn glider_shape(g: Grid, row: int, col: int)
    requires
        grid_wf(g),
        1 <= row,
        row + 1 < g.height,
        1 <= col,
        col + 1 < g.width,
    ensures
        glider_at(g, row, col).width == g.width,
        glider_at(g, row, col).height == g.height,
        glider_at(g, row, col).cells.len() == g.cells.len(),
        forall|i: int, j: int|
            0 <= i < g.height && 0 <= j < g.width ==> #[trigger] glider_at(g, row, col).cells[index_of(
                g,
                i,
                j,
            )] == if glider_cell(row, col, i, j) {
                true
            } else if in_block(row, col, i, j) {
                false
            } else {
                g.cells[index_of(g, i, j)]
            },
{
    lemma_glider_indices(g, row, col);
    assert forall|i: int, j: int| 0 <= i < g.height && 0 <= j < g.width implies #[trigger] glider_at(
        g,
        row,
        col,
    ).cells[index_of(g, i, j)] == if glider_cell(row, col, i, j) {
        true
    } else if in_block(row, col, i, j) {
        false
    } else {
        g.cells[index_of(g, i, j)]
    } by {
        lemma_block_positions(g, row, col, i, j);
        lemma_index(g, i, j);
        lemma_index_injective(g, i, j, row - 1, col);
        lemma_index_injective(g, i, j, row, col + 1);
        lemma_index_injective(g, i, j, row + 1, col - 1);
        lemma_index_injective(g, i, j, row + 1, col);
        lemma_index_injective(g, i, j, row + 1, col + 1);
    }
}

/// Placing the same glider twice gives the grid that placing it once gives.
pub proof fn glider_at_idempotent(g: Grid, row: int, col: int)
    requires
        grid_wf(g),
        1 <= row,
        row + 1 < g.height,
        1 <= col,
        col + 1 < g.width,
    ensures
        glider_at(glider_at(g, row, col), row, col) == glider_at(g, row, col),
{
    lemma_glider_indices(g, row, col);
    assert(glider_at(glider_at(g, row, col), row, col).cells =~= glider_at(g, row, col).cells);
}

} // verus!
