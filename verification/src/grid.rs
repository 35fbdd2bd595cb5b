//! The mathematical picture of a universe, and the rule of the game on it.
use vstd::arithmetic::div_mod::{
    lemma_add_mod_noop_right, lemma_fundamental_div_mod, lemma_fundamental_div_mod_converse,
    lemma_mod_add_multiples_vanish, lemma_mod_multiples_vanish,
};
use vstd::prelude::*;

verus! {

/// A grid of cells on a torus: `cells` holds one boolean per cell, row after
/// row, `true` for a live cell.
pub struct Grid {
    pub width: nat,
    pub height: nat,
    pub cells: Seq<bool>,
}

/// The rule of the game for one cell: a live cell stays alive with two or
/// three live neighbours, a dead cell comes alive with exactly three.
pub open spec fn next_state(alive: bool, neighbors: int) -> bool {
    if alive {
        neighbors == 2 || neighbors == 3
    } else {
        neighbors == 3
    }
}

/// A draw is a number in [0, 1) handed over as the bit pattern of a double.
/// Of two such numbers the smaller has the smaller pattern, so a draw is
/// compared by its pattern.  This is the pattern of 0.4: a cell is alive
/// with that probability.
pub const ALIVE_BELOW: u64 = 0x3FD9_9999_9999_999A;

/// Whether a draw makes a cell alive: it lies below 0.4.
pub open spec fn draw_is_alive(draw: u64) -> bool {
    draw < ALIVE_BELOW
}

/// The position that `x` falls on when a ring of `n` positions is walked
/// from position 0; `x` may be negative or beyond `n`.
pub open spec fn wrap(x: int, n: int) -> int {
    x % n
}

impl Grid {
    /// Both dimensions are positive and there is one cell for each position.
    pub open spec fn wf(self) -> bool {
        &&& self.width > 0
        &&& self.height > 0
        &&& self.cells.len() == self.width * self.height
    }

    /// The grid of the given dimensions in which position `(row, col)` is
    /// alive exactly if `f(row, col)` holds.
    pub open spec fn from_fn(width: nat, height: nat, f: spec_fn(int, int) -> bool) -> Grid {
        Grid {
            width,
            height,
            cells: Seq::new(width * height, |i: int| f(i / (width as int), i % (width as int))),
        }
    }

    /// The grid of the given dimensions with no live cell.
    pub open spec fn dead(width: nat, height: nat) -> Grid {
        Grid { width, height, cells: Seq::new(width * height, |i: int| false) }
    }

    /// `(row, col)` is a position of this grid.
    pub open spec fn has(self, row: int, col: int) -> bool {
        0 <= row < self.height && 0 <= col < self.width
    }

    /// Every position listed in `coords` is a position of this grid.
    pub open spec fn has_all(self, coords: Seq<(u32, u32)>) -> bool {
        forall|k: int| 0 <= k < coords.len() ==> self.has((#[trigger] coords[k]).0 as int, coords[k].1 as int)
    }

    /// The place of `(row, col)` in `cells`.
    pub open spec fn index(self, row: int, col: int) -> int {
        row * self.width + col
    }

    /// Whether the cell at `(row, col)` is alive.
    pub open spec fn alive(self, row: int, col: int) -> bool {
        self.cells[self.index(row, col)]
    }

    /// One for a live cell, zero for a dead one.
    pub open spec fn live(self, row: int, col: int) -> int {
        if self.alive(row, col) {
            1
        } else {
            0
        }
    }

    /// The row above `row`; above the first row lies the last.
    pub open spec fn north(self, row: int) -> int {
        if row == 0 {
            self.height - 1
        } else {
            row - 1
        }
    }

    /// The row below `row`; below the last row lies the first.
    pub open spec fn south(self, row: int) -> int {
        if row == self.height - 1 {
            0
        } else {
            row + 1
        }
    }

    /// The column left of `col`; left of the first column lies the last.
    pub open spec fn west(self, col: int) -> int {
        if col == 0 {
            self.width - 1
        } else {
            col - 1
        }
    }

    /// The column right of `col`; right of the last column lies the first.
    pub open spec fn east(self, col: int) -> int {
        if col == self.width - 1 {
            0
        } else {
            col + 1
        }
    }

    /// The number of live cells among the eight neighbours of `(row, col)`.
    /// On a grid with fewer than three rows or columns one cell can be a
    /// neighbour in more than one direction, and counts once for each.
    pub open spec fn neighbor_count(self, row: int, col: int) -> int {
        self.live(self.north(row), self.west(col)) + self.live(self.north(row), col) + self.live(
            self.north(row),
            self.east(col),
        ) + self.live(row, self.west(col)) + self.live(row, self.east(col)) + self.live(
            self.south(row),
            self.west(col),
        ) + self.live(self.south(row), col) + self.live(self.south(row), self.east(col))
    }

    /// Whether the cell at `(row, col)` is alive in the next generation.
    pub open spec fn next_alive(self, row: int, col: int) -> bool {
        next_state(self.alive(row, col), self.neighbor_count(row, col))
    }

    /// The next generation: every cell decided from this grid alone.
    pub open spec fn step(self) -> Grid {
        Grid::from_fn(self.width, self.height, |row: int, col: int| self.next_alive(row, col))
    }

    /// This grid with every cell dead.
    pub open spec fn cleared(self) -> Grid {
        Grid::dead(self.width, self.height)
    }

    /// The grid of the given dimensions whose cells are decided one by one
    /// by `draws`, in row-major order.
    pub open spec fn drawn(width: nat, height: nat, draws: Seq<u64>) -> Grid {
        Grid { width, height, cells: Seq::new(draws.len(), |i: int| draw_is_alive(draws[i])) }
    }

    /// This grid with the cell at `(row, col)` flipped.
    pub open spec fn toggled(self, row: int, col: int) -> Grid {
        Grid {
            cells: self.cells.update(self.index(row, col), !self.alive(row, col)),
            ..self
        }
    }

    /// This grid with every position listed in `coords` alive as well.
    pub open spec fn seeded(self, coords: Seq<(u32, u32)>) -> Grid {
        Grid::from_fn(
            self.width,
            self.height,
            |row: int, col: int| self.alive(row, col) || coords.contains((row as u32, col as u32)),
        )
    }

    /// This grid moved `dr` rows down and `dc` columns to the right, round
    /// the torus: what was at `(r, c)` is at `(r + dr, c + dc)`, wrapped.
    pub open spec fn translated(self, dr: int, dc: int) -> Grid {
        Grid::from_fn(
            self.width,
            self.height,
            |r: int, c: int| self.alive(wrap(r - dr, self.height as int), wrap(c - dc, self.width as int)),
        )
    }

    /// Whether a pattern anchored at `(row, col)` puts a cell on `(r, c)`:
    /// one of its offsets, added to the anchor and wrapped round the grid,
    /// gives that position.
    pub open spec fn covers(self, offsets: Seq<(i32, i32)>, row: int, col: int, r: int, c: int) -> bool {
        exists|k: int|
            0 <= k < offsets.len() && r == wrap(row + (#[trigger] offsets[k]).0, self.height as int)
                && c == wrap(col + offsets[k].1, self.width as int)
    }

    /// This grid with a pattern stamped on it at the anchor `(row, col)`:
    /// what was alive stays alive.
    pub open spec fn stamped(self, offsets: Seq<(i32, i32)>, row: int, col: int) -> Grid {
        Grid::from_fn(
            self.width,
            self.height,
            |r: int, c: int| self.alive(r, c) || self.covers(offsets, row, col, r, c),
        )
    }
}

/// Wrapping near the ring: a position at most one turn off is brought back
/// by adding or taking away `n` once.
pub proof fn lemma_wrap_near(x: int, n: int)
    requires
        0 < n,
        -n <= x < 2 * n,
    ensures
        wrap(x, n) == if x < 0 {
            x + n
        } else if x < n {
            x
        } else {
            x - n
        },
{
    if x < 0 {
        lemma_fundamental_div_mod_converse(x, n, -1, x + n);
    } else if x < n {
        lemma_fundamental_div_mod_converse(x, n, 0, x);
    } else {
        lemma_fundamental_div_mod_converse(x, n, 1, x - n);
    }
}

/// Wrapping a sum may wrap one of its terms first.
pub proof fn lemma_wrap_sum(x: int, y: int, n: int)
    requires
        0 < n,
    ensures
        wrap(wrap(x, n) + y, n) == wrap(x + y, n),
        wrap(x + y + n, n) == wrap(x + y, n),
        0 <= wrap(x, n) < n,
{
    lemma_add_mod_noop_right(y, x, n);
    assert((y + (x % n)) % n == (y + x) % n);
    lemma_mod_add_multiples_vanish(x + y, n);
    lemma_fundamental_div_mod(x, n);
}

/// Whole turns round the ring change nothing.
pub proof fn lemma_wrap_turns(x: int, turns: int, n: int)
    requires
        0 < n,
    ensures
        wrap(x + turns * n, n) == wrap(x, n),
{
    lemma_mod_multiples_vanish(turns, x, n);
    assert(n * turns + x == x + turns * n) by (nonlinear_arith);
}

/// Positions and places in `cells` correspond one to one: the place of a
/// position lies inside `cells` and gives the position back.
pub proof fn lemma_index_of_position(width: int, height: int, row: int, col: int)
    requires
        0 <= row < height,
        0 <= col < width,
    ensures
        0 <= row * width + col < width * height,
        (row * width + col) / width == row,
        (row * width + col) % width == col,
{
    lemma_fundamental_div_mod_converse(row * width + col, width, row, col);
    assert(row * width + col < width * height) by (nonlinear_arith)
        requires
            0 <= row < height,
            0 <= col < width,
    ;
    assert(0 <= row * width) by (nonlinear_arith)
        requires
            0 <= row,
            0 < width,
    ;
}

/// Every place in `cells` is the place of one position of the grid.
pub proof fn lemma_position_of_index(width: int, height: int, i: int)
    requires
        0 < width,
        0 <= i < width * height,
    ensures
        0 <= i / width < height,
        0 <= i % width < width,
        (i / width) * width + i % width == i,
{
    lemma_fundamental_div_mod(i, width);
    let q = i / width;
    assert(0 <= q < height) by (nonlinear_arith)
        requires
            0 < width,
            0 <= i < width * height,
            i == width * q + i % width,
            0 <= i % width < width,
    ;
    assert(q * width == width * q) by (nonlinear_arith);
}

/// In a grid built from a predicate, a position is alive exactly if the
/// predicate holds of it.
pub proof fn lemma_from_fn(width: nat, height: nat, f: spec_fn(int, int) -> bool)
    requires
        width > 0,
        height > 0,
    ensures
        Grid::from_fn(width, height, f).wf(),
        Grid::from_fn(width, height, f).width == width,
        Grid::from_fn(width, height, f).height == height,
        forall|row: int, col: int|
            0 <= row < height && 0 <= col < width ==> #[trigger] Grid::from_fn(width, height, f).alive(
                row,
                col,
            ) == f(row, col),
{
    let g = Grid::from_fn(width, height, f);
    assert forall|row: int, col: int| 0 <= row < height && 0 <= col < width implies #[trigger] g.alive(
        row,
        col,
    ) == f(row, col) by {
        lemma_index_of_position(width as int, height as int, row, col);
    }
}

/// Two grids of the same dimensions that agree on every position are the
/// same grid.
pub proof fn lemma_grids_equal(a: Grid, b: Grid)
    requires
        a.wf(),
        b.wf(),
        a.width == b.width,
        a.height == b.height,
        forall|row: int, col: int| a.has(row, col) ==> a.alive(row, col) == b.alive(row, col),
    ensures
        a == b,
{
    assert forall|i: int| 0 <= i < a.cells.len() implies a.cells[i] == b.cells[i] by {
        lemma_position_of_index(a.width as int, a.height as int, i);
        let row = i / (a.width as int);
        let col = i % (a.width as int);
        assert(a.has(row, col));
        assert(a.alive(row, col) == b.alive(row, col));
    }
    assert(a.cells =~= b.cells);
}

} // verus!
