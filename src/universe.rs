//! The universe: a toroidal grid of cells and the operations on it.
use crate::bits::{bits_clone, bits_get, bits_grow, bits_of, bits_set, bits_with_capacity};
use fixedbitset::FixedBitSet;
use vstd::arithmetic::div_mod::{
    lemma_fundamental_div_mod_converse_div, lemma_fundamental_div_mod_converse_mod,
    lemma_small_mod,
};
use vstd::prelude::*;
use vstd::string::*;

verus! {

/// The abstract state of a universe: its dimensions and its cells in
/// row-major order (`true` is alive).
pub struct Grid {
    pub width: nat,
    pub height: nat,
    pub cells: Seq<bool>,
}

/// Dimensions are positive, every linear index fits in a `u32`, and there is
/// exactly one cell per position.
pub open spec fn grid_wf(g: Grid) -> bool {
    &&& g.width > 0
    &&& g.height > 0
    &&& g.width * g.height <= u32::MAX
    &&& g.cells.len() == g.width * g.height
}

/// Linear position of the cell at `(row, col)`.
pub open spec fn index_of(g: Grid, row: int, col: int) -> int {
    row * g.width + col
}

/// The cell at `(row, col)`, where both coordinates wrap around the torus.
pub open spec fn cell_at(g: Grid, row: int, col: int) -> bool {
    g.cells[index_of(g, row % (g.height as int), col % (g.width as int))]
}

pub open spec fn count_if(b: bool) -> int {
    if b {
        1
    } else {
        0
    }
}

/// Number of live cells among the eight that surround `(row, col)` on the torus.
pub open spec fn live_count(g: Grid, row: int, col: int) -> int {
    count_if(cell_at(g, row - 1, col - 1)) + count_if(cell_at(g, row - 1, col)) + count_if(
        cell_at(g, row - 1, col + 1),
    ) + count_if(cell_at(g, row, col - 1)) + count_if(cell_at(g, row, col + 1)) + count_if(
        cell_at(g, row + 1, col - 1),
    ) + count_if(cell_at(g, row + 1, col)) + count_if(cell_at(g, row + 1, col + 1))
}

/// The B3/S23 rule: the next state of a cell from its state and its number
/// of live neighbours.
pub open spec fn next_state(alive: bool, n: int) -> bool {
    if alive && n < 2 {
        false
    } else if alive && n == 3 {
        true
    } else if alive && n > 3 {
        false
    } else if !alive && n == 3 {
        true
    } else {
        alive
    }
}

/// The grid one generation later: every cell takes its next state from the
/// current grid alone.
pub open spec fn next_generation(g: Grid) -> Grid {
    Grid {
        width: g.width,
        height: g.height,
        cells: Seq::new(
            g.cells.len(),
            |i: int|
                next_state(
                    g.cells[i],
                    live_count(g, i / (g.width as int), i % (g.width as int)),
                ),
        ),
    }
}

/// Stepping below zero or past the last position wraps to the other end.
pub proof fn lemma_wrap(r: int, n: int)
    requires
        0 <= r < n,
    ensures
        r % n == r,
        (r - 1) % n == (if r == 0 {
            n - 1
        } else {
            r - 1
        }),
        (r + 1) % n == (if r == n - 1 {
            0
        } else {
            r + 1
        }),
{
    lemma_small_mod(r as nat, n as nat);
    if r == 0 {
        lemma_fundamental_div_mod_converse_mod(r - 1, n, -1, n - 1);
    } else {
        lemma_small_mod((r - 1) as nat, n as nat);
    }
    if r == n - 1 {
        lemma_fundamental_div_mod_converse_mod(r + 1, n, 1, 0);
    } else {
        lemma_small_mod((r + 1) as nat, n as nat);
    }
}

/// A position inside the grid has a linear index inside the grid, which
/// gives back its row and column.
pub proof fn lemma_index(g: Grid, row: int, col: int)
    requires
        grid_wf(g),
        0 <= row < g.height,
        0 <= col < g.width,
    ensures
        0 <= index_of(g, row, col) < g.cells.len(),
        index_of(g, row, col) / (g.width as int) == row,
        index_of(g, row, col) % (g.width as int) == col,
{
    let w = g.width as int;
    let h = g.height as int;
    assert(0 <= row * w + col < w * h) by (nonlinear_arith)
        requires
            0 <= row < h,
            0 <= col < w,
    ;
    lemma_fundamental_div_mod_converse_div(row * w + col, w, row, col);
    lemma_fundamental_div_mod_converse_mod(row * w + col, w, row, col);
}

/// Side length of a newly made universe.
pub const INITIAL_SIDE: u32 = 64;

/// The default seeding: cell `i` is alive when `i` is a multiple of 2 or of 7.
pub open spec fn default_cell(i: int) -> bool {
    i % 2 == 0 || i % 7 == 0
}

/// The grid a universe starts with. In random mode, entry `i` of
/// `below_threshold` tells whether the sample drawn for cell `i` fell below
/// the threshold, and such a cell starts dead; otherwise the default seeding.
pub open spec fn initial_grid(random: bool, below_threshold: Seq<bool>) -> Grid {
    let n = (INITIAL_SIDE * INITIAL_SIDE) as nat;
    Grid {
        width: INITIAL_SIDE as nat,
        height: INITIAL_SIDE as nat,
        cells: if random {
            Seq::new(n, |i: int| !below_threshold[i])
        } else {
            Seq::new(n, |i: int| default_cell(i))
        },
    }
}

/// The grid with the cell at `(row, col)` flipped.
pub open spec fn toggled(g: Grid, row: int, col: int) -> Grid {
    Grid { cells: g.cells.update(index_of(g, row, col), !g.cells[index_of(g, row, col)]), ..g }
}

/// `after` holds every cell of `before` at its linear position, and perhaps
/// more cells after them.
pub open spec fn keeps_cells(after: Seq<bool>, before: Seq<bool>) -> bool {
    &&& before.len() <= after.len()
    &&& forall|i: int| 0 <= i < before.len() ==> #[trigger] after[i] == before[i]
}

/// Whether linear position `i` lies in one of `rows` consecutive rows from
/// `first`, at an offset in `[lo, hi)` from the start of that row. The offset
/// may pass the end of the row and run into the next one.
pub open spec fn in_rows(width: int, i: int, first: int, rows: int, lo: int, hi: int) -> bool
    decreases rows,
{
    if rows <= 0 {
        false
    } else {
        in_rows(width, i, first, rows - 1, lo, hi) || ((first + rows - 1) * width + lo <= i && i
            < (first + rows - 1) * width + hi)
    }
}

/// `cells` with every position that `in_rows` selects set dead.
pub open spec fn cleared(
    cells: Seq<bool>,
    width: int,
    first: int,
    rows: int,
    lo: int,
    hi: int,
) -> Seq<bool> {
    Seq::new(cells.len(), |i: int| !in_rows(width, i, first, rows, lo, hi) && cells[i])
}

/// The grid after a glider is placed in the 3x3 block centred on
/// `(row, col)`: the block is cleared, then the cell above the centre, the
/// cell right of the centre and the whole bottom row of the block are set
/// alive.
pub open spec fn glider_at(g: Grid, row: int, col: int) -> Grid {
    let w = g.width as int;
    Grid {
        cells: cleared(g.cells, w, row - 1, 3, col - 1, col + 2).update(
            (row - 1) * w + col,
            true,
        ).update(row * w + col + 1, true).update((row + 1) * w + col - 1, true).update(
            (row + 1) * w + col,
            true,
        ).update((row + 1) * w + col + 1, true),
        ..g
    }
}

/// The grid after a glider is placed at linear offset `off` in the top rows:
/// positions `off..off + 5` of rows 0 to 4 are cleared, then five cells of
/// rows 1 to 3 are set alive.
pub open spec fn glider_top(g: Grid, off: int) -> Grid {
    let w = g.width as int;
    Grid {
        cells: cleared(g.cells, w, 0, 5, off, off + 5).update(w + off + 2, true).update(
            2 * w + off + 3,
            true,
        ).update(3 * w + off + 1, true).update(3 * w + off + 2, true).update(
            3 * w + off + 3,
            true,
        ),
        ..g
    }
}

/// Whether `mode` names the random seeding.
pub fn is_random_mode(mode: &str) -> (r: bool)
    ensures
        r == (mode@ == "random"@),
{
    proof {
        reveal_strlit("random");
    }
    if mode.unicode_len() != 6 {
        return false;
    }
    let r = mode.get_char(0) == 'r' && mode.get_char(1) == 'a' && mode.get_char(2) == 'n'
        && mode.get_char(3) == 'd' && mode.get_char(4) == 'o' && mode.get_char(5) == 'm';
    proof {
        if r {
            assert(mode@ =~= "random"@);
        }
    }
    r
}

/// A universe of cells on a torus of `width` columns and `height` rows.
pub struct Universe {
    width: u32,
    height: u32,
    cells: FixedBitSet,
}

impl View for Universe {
    type V = Grid;

    closed spec fn view(&self) -> Grid {
        Grid { width: self.width as nat, height: self.height as nat, cells: bits_of(self.cells) }
    }
}

impl Universe {
    pub open spec fn wf(&self) -> bool {
        grid_wf(self@)
    }

    /// A 64x64 universe. With `init_mode` "random", a cell starts dead where
    /// its sample fell below the threshold (`below_threshold`, one entry per
    /// cell) and alive otherwise; with any other mode, the default seeding.
    pub fn new(init_mode: &str, below_threshold: &Vec<bool>) -> (u: Universe)
        requires
            init_mode@ == "random"@ ==> below_threshold@.len() == INITIAL_SIDE * INITIAL_SIDE,
        ensures
            u.wf(),
            u@ == initial_grid(init_mode@ == "random"@, below_threshold@),
    {
        let width: u32 = INITIAL_SIDE;
        let height: u32 = INITIAL_SIDE;
        let size = (width * height) as usize;
        let random = is_random_mode(init_mode);
        let ghost target = initial_grid(random, below_threshold@);
        let mut cells = bits_with_capacity(size);
        let mut i: usize = 0;
        while i < size
            invariant
                size == target.cells.len(),
                target == initial_grid(random, below_threshold@),
                random ==> below_threshold@.len() == size,
                i <= size,
                bits_of(cells).len() == size,
                forall|j: int| 0 <= j < i ==> bits_of(cells)[j] == target.cells[j],
            decreases size - i,
        {
            if random {
                bits_set(&mut cells, i, !below_threshold[i]);
            } else {
                bits_set(&mut cells, i, i % 2 == 0 || i % 7 == 0);
            }
            i += 1;
        }
        let u = Universe { width, height, cells };
        assert(u@.cells =~= target.cells);
        u
    }

    pub fn width(&self) -> (r: u32)
        ensures
            r == self@.width,
    {
        self.width
    }

    pub fn height(&self) -> (r: u32)
        ensures
            r == self@.height,
    {
        self.height
    }

    /// The packed cells, for reading only.
    pub fn cells(&self) -> (r: &FixedBitSet)
        ensures
            bits_of(*r) == self@.cells,
    {
        &self.cells
    }

    /// Sets the number of columns; the storage grows to the new size and
    /// every cell keeps its linear position. The grid may only grow; the
    /// added cells have no particular state.
    pub fn set_width(&mut self, width: u32)
        requires
            old(self).wf(),
            old(self)@.width <= width,
            width * old(self)@.height <= u32::MAX,
        ensures
            final(self).wf(),
            final(self)@.width == width,
            final(self)@.height == old(self)@.height,
            keeps_cells(final(self)@.cells, old(self)@.cells),
    {
        proof {
            assert(width * self@.height >= self@.width * self@.height) by (nonlinear_arith)
                requires
                    self@.width <= width,
            ;
        }
        self.width = width;
        bits_grow(&mut self.cells, (width * self.height) as usize);
    }

    /// Sets the number of rows, as `set_width` does for columns.
    pub fn set_height(&mut self, height: u32)
        requires
            old(self).wf(),
            old(self)@.height <= height,
            old(self)@.width * height <= u32::MAX,
        ensures
            final(self).wf(),
            final(self)@.width == old(self)@.width,
            final(self)@.height == height,
            keeps_cells(final(self)@.cells, old(self)@.cells),
    {
        proof {
            assert(self@.width * height >= self@.width * self@.height) by (nonlinear_arith)
                requires
                    self@.height <= height,
            ;
            assert(height * self@.width == self@.width * height) by (nonlinear_arith);
        }
        self.height = height;
        bits_grow(&mut self.cells, (height * self.width) as usize);
    }

    /// Flips the cell at `(row, col)` between alive and dead.
    pub fn toggle_cell(&mut self, row: u32, col: u32)
        requires
            old(self).wf(),
            row < old(self)@.height,
            col < old(self)@.width,
        ensures
            final(self).wf(),
            final(self)@ == toggled(old(self)@, row as int, col as int),
    {
        let idx = self.get_index(row, col);
        let alive = bits_get(&self.cells, idx);
        bits_set(&mut self.cells, idx, !alive);
    }

    /// Sets dead every position that `in_rows` selects for these bounds.
    fn clear_rows(&mut self, first: usize, rows: usize, lo: usize, hi: usize)
        requires
            old(self).wf(),
            rows >= 1,
            lo <= hi,
            (first + rows - 1) * old(self)@.width + hi <= old(self)@.cells.len(),
        ensures
            final(self).wf(),
            final(self)@.width == old(self)@.width,
            final(self)@.height == old(self)@.height,
            final(self)@.cells == cleared(
                old(self)@.cells,
                old(self)@.width as int,
                first as int,
                rows as int,
                lo as int,
                hi as int,
            ),
    {
        let ghost g = self@;
        let ghost wi = g.width as int;
        let w = self.width as usize;
        let mut r: usize = 0;
        while r < rows
            invariant
                grid_wf(g),
                wi == g.width,
                w == g.width,
                rows >= 1,
                lo <= hi,
                (first + rows - 1) * wi + hi <= g.cells.len(),
                r <= rows,
                self@.width == g.width,
                self@.height == g.height,
                self@.cells == cleared(g.cells, wi, first as int, r as int, lo as int, hi as int),
            decreases rows - r,
        {
            let ghost start = (first + r) * wi;
            let mut k: usize = lo;
            while k < hi
                invariant
                    grid_wf(g),
                    wi == g.width,
                    w == g.width,
                    start == (first + r) * wi,
                    lo <= k <= hi,
                    r < rows,
                    (first + rows - 1) * wi + hi <= g.cells.len(),
                    self@.width == g.width,
                    self@.height == g.height,
                    self@.cells == Seq::new(
                        g.cells.len(),
                        |i: int|
                            !(in_rows(wi, i, first as int, r as int, lo as int, hi as int) || (
                            start + lo <= i && i < start + k)) && g.cells[i],
                    ),
                decreases hi - k,
            {
                proof {
                    assert((first + r) * wi <= (first + rows - 1) * wi) by (nonlinear_arith)
                        requires
                            r <= rows - 1,
                            wi > 0,
                    ;
                    assert(first + r <= (first + r) * wi) by (nonlinear_arith)
                        requires
                            wi > 0,
                    ;
                }
                let idx = (first + r) * w + k;
                assert(idx == start + k);
                bits_set(&mut self.cells, idx, false);
                proof {
                    assert(self@.cells =~= Seq::new(
                        g.cells.len(),
                        |i: int|
                            !(in_rows(wi, i, first as int, r as int, lo as int, hi as int) || (
                            start + lo <= i && i < start + k + 1)) && g.cells[i],
                    ));
                }
                k += 1;
            }
            proof {
                assert((first + (r + 1) - 1) * wi == start);
                assert forall|i: int| 0 <= i < g.cells.len() implies in_rows(
                    wi,
                    i,
                    first as int,
                    r + 1,
                    lo as int,
                    hi as int,
                ) == (in_rows(wi, i, first as int, r as int, lo as int, hi as int) || (start + lo
                    <= i && i < start + hi)) by {}
                assert(self@.cells =~= cleared(
                    g.cells,
                    wi,
                    first as int,
                    r + 1,
                    lo as int,
                    hi as int,
                ));
            }
            r += 1;
        }
    }

    /// Places a glider in the 3x3 block centred on `(row, col)`: clears the
    /// block, then sets alive the cell above the centre, the cell right of
    /// the centre and the bottom row of the block. Nothing wraps around the
    /// edges, so the whole block must lie inside the grid.
    pub fn add_glider_at(&mut self, row: u32, col: u32)
        requires
            old(self).wf(),
            1 <= row,
            row + 1 < old(self)@.height,
            1 <= col,
            col + 1 < old(self)@.width,
        ensures
            final(self).wf(),
            final(self)@ == glider_at(old(self)@, row as int, col as int),
    {
        let ghost g = self@;
        let w = self.width as usize;
        let r = row as usize;
        let c = col as usize;
        proof {
            assert((r + 1) * w + w <= g.width * g.height) by (nonlinear_arith)
                requires
                    r + 2 <= g.height,
                    w == g.width,
            ;
            assert((r - 1) * w + w == r * w) by (nonlinear_arith);
            assert(r * w + w == (r + 1) * w) by (nonlinear_arith);
            assert(0 <= (r - 1) * w) by (nonlinear_arith)
                requires
                    r >= 1,
            ;
        }
        self.clear_rows(r - 1, 3, c - 1, c + 2);
        bits_set(&mut self.cells, (r - 1) * w + c, true);
        bits_set(&mut self.cells, r * w + c + 1, true);
        for cc in c - 1..c + 2
            invariant
                self.wf(),
                self@.width == g.width,
                self@.height == g.height,
                w == g.width,
                grid_wf(g),
                r == row,
                c == col,
                r + 1 < g.height,
                c + 2 <= w,
                (r + 1) * w + w <= g.width * g.height,
                self@.cells == Seq::new(
                    g.cells.len(),
                    |i: int|
                        cleared(g.cells, w as int, r - 1, 3, c - 1, c + 2).update(
                            (r - 1) * w + c,
                            true,
                        ).update(r * w + c + 1, true)[i] || ((r + 1) * w + c - 1 <= i && i < (r
                            + 1) * w + cc),
                ),
        {
            bits_set(&mut self.cells, (r + 1) * w + cc, true);
            proof {
                assert(self@.cells =~= Seq::new(
                    g.cells.len(),
                    |i: int|
                        cleared(g.cells, w as int, r - 1, 3, c - 1, c + 2).update(
                            (r - 1) * w + c,
                            true,
                        ).update(r * w + c + 1, true)[i] || ((r + 1) * w + c - 1 <= i && i < (r
                            + 1) * w + cc + 1),
                ));
            }
        }
        proof {
            assert(self@.cells =~= glider_at(g, row as int, col as int).cells);
        }
    }

    /// Places a glider at linear offset `offset` in the top rows: clears
    /// positions `offset..offset + 5` of rows 0 to 4, then sets alive
    /// offsets 2 of row 1, 3 of row 2, and 1 to 3 of row 3. A block that runs
    /// past the end of a row continues on the next one.
    pub fn add_glider(&mut self, offset: usize)
        requires
            old(self).wf(),
            4 * old(self)@.width + offset + 5 <= old(self)@.cells.len(),
        ensures
            final(self).wf(),
            final(self)@ == glider_top(old(self)@, offset as int),
    {
        let ghost g = self@;
        let w = self.width as usize;
        self.clear_rows(0, 5, offset, offset + 5);
        bits_set(&mut self.cells, w + (2 + offset), true);
        bits_set(&mut self.cells, w * 2 + (3 + offset), true);
        for col in 1..4
            invariant
                self.wf(),
                self@.width == g.width,
                self@.height == g.height,
                w == g.width,
                4 * w + offset + 5 <= g.cells.len(),
                self@.cells == Seq::new(
                    g.cells.len(),
                    |i: int|
                        cleared(g.cells, w as int, 0, 5, offset as int, offset + 5).update(
                            w + offset + 2,
                            true,
                        ).update(2 * w + offset + 3, true)[i] || (3 * w + offset + 1 <= i && i
                            < 3 * w + offset + col),
                ),
        {
            bits_set(&mut self.cells, w * 3 + (col + offset), true);
            proof {
                assert(self@.cells =~= Seq::new(
                    g.cells.len(),
                    |i: int|
                        cleared(g.cells, w as int, 0, 5, offset as int, offset + 5).update(
                            w + offset + 2,
                            true,
                        ).update(2 * w + offset + 3, true)[i] || (3 * w + offset + 1 <= i && i
                            < 3 * w + offset + col + 1),
                ));
            }
        }
        proof {
            assert(self@.cells =~= glider_top(g, offset as int).cells);
        }
    }

    /// Linear index of the cell at `(row, column)`.
    pub fn get_index(&self, row: u32, column: u32) -> (r: usize)
        requires
            self.wf(),
            row < self@.height,
            column < self@.width,
        ensures
            r == index_of(self@, row as int, column as int),
            r < self@.cells.len(),
    {
        proof {
            lemma_index(self@, row as int, column as int);
        }
        (row * self.width + column) as usize
    }

    /// Number of live cells among the eight around `(row, column)`, with
    /// rows and columns wrapping around the edges.
    #[verifier::rlimit(60)]
    pub fn live_neighbor_count(&self, row: u32, column: u32) -> (r: u8)
        requires
            self.wf(),
            row < self@.height,
            column < self@.width,
        ensures
            r == live_count(self@, row as int, column as int),
    {
        proof {
            lemma_wrap(row as int, self.height as int);
            lemma_wrap(column as int, self.width as int);
        }
        let north = if row == 0 {
            self.height - 1
        } else {
            row - 1
        };
        let south = if row == self.height - 1 {
            0
        } else {
            row + 1
        };
        let west = if column == 0 {
            self.width - 1
        } else {
            column - 1
        };
        let east = if column == self.width - 1 {
            0
        } else {
            column + 1
        };
        let ghost g = self@;
        assert(north == (row - 1) % (g.height as int));
        assert(south == (row + 1) % (g.height as int));
        assert(west == (column - 1) % (g.width as int));
        assert(east == (column + 1) % (g.width as int));
        let mut count: u8 = 0;
        let nw = bits_get(&self.cells, self.get_index(north, west));
        assert(nw == cell_at(g, row - 1, column - 1));
        count += nw as u8;
        let n = bits_get(&self.cells, self.get_index(north, column));
        assert(n == cell_at(g, row - 1, column as int));
        count += n as u8;
        let ne = bits_get(&self.cells, self.get_index(north, east));
        assert(ne == cell_at(g, row - 1, column + 1));
        count += ne as u8;
        let w = bits_get(&self.cells, self.get_index(row, west));
        assert(w == cell_at(g, row as int, column - 1));
        count += w as u8;
        let e = bits_get(&self.cells, self.get_index(row, east));
        assert(e == cell_at(g, row as int, column + 1));
        count += e as u8;
        let sw = bits_get(&self.cells, self.get_index(south, west));
        assert(sw == cell_at(g, row + 1, column - 1));
        count += sw as u8;
        let s = bits_get(&self.cells, self.get_index(south, column));
        assert(s == cell_at(g, row + 1, column as int));
        count += s as u8;
        let se = bits_get(&self.cells, self.get_index(south, east));
        assert(se == cell_at(g, row + 1, column + 1));
        count += se as u8;
        count
    }

    /// Advances the universe by one generation. Every next state is computed
    /// from the current grid into a second bit set, which then replaces it.
    pub fn tick(&mut self)
        requires
            old(self).wf(),
        ensures
            final(self).wf(),
            final(self)@ == next_generation(old(self)@),
    {
        let ghost g = self@;
        let ghost gen = next_generation(g);
        let mut next = bits_clone(&self.cells);
        let mut row: u32 = 0;
        while row < self.height
            invariant
                self@ == g,
                gen == next_generation(g),
                grid_wf(g),
                0 <= row <= g.height,
                bits_of(next).len() == g.cells.len(),
                forall|i: int| 0 <= i < row * g.width ==> bits_of(next)[i] == gen.cells[i],
            decreases g.height - row,
        {
            let mut col: u32 = 0;
            while col < self.width
                invariant
                    self@ == g,
                    gen == next_generation(g),
                    grid_wf(g),
                    0 <= row < g.height,
                    0 <= col <= g.width,
                    bits_of(next).len() == g.cells.len(),
                    forall|i: int|
                        0 <= i < row * g.width + col ==> bits_of(next)[i] == gen.cells[i],
                decreases g.width - col,
            {
                let idx = self.get_index(row, col);
                let cell = bits_get(&self.cells, idx);
                let live_neighbors = self.live_neighbor_count(row, col);
                proof {
                    lemma_index(g, row as int, col as int);
                    assert(gen.cells[idx as int] == next_state(cell, live_neighbors as int));
                }
                let alive = next_cell_state(cell, live_neighbors);
                bits_set(&mut next, idx, alive);
                col += 1;
            }
            assert((row + 1) * g.width == row * g.width + g.width) by (nonlinear_arith);
            row += 1;
        }
        assert(row * g.width == g.cells.len()) by (nonlinear_arith)
            requires
                row == g.height,
                g.cells.len() == g.width * g.height,
        ;
        self.cells = next;
        assert(self@.cells =~= gen.cells);
    }
}

/// The B3/S23 rule on a cell's state and its number of live neighbours.
pub fn next_cell_state(alive: bool, live_neighbors: u8) -> (r: bool)
    ensures
        r == next_state(alive, live_neighbors as int),
{
    match (alive, live_neighbors) {
        (true, x) if x < 2 => false,
        (true, 3) => true,
        (true, x) if x > 3 => false,
        (false, 3) => true,
        (otherwise, _) => otherwise,
    }
}

} // verus!
