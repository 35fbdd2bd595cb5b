//! The universe: a grid of cells packed into a bit set, and the operations
//! that read it, change it and advance it by a generation.
use crate::bitset::{bit_values, packs};
use crate::error::GridError;
use crate::grid::{
    draw_is_alive, lemma_index_of_position, lemma_position_of_index, lemma_wrap_near, lemma_wrap_sum,
    lemma_wrap_turns, wrap, Grid, ALIVE_BELOW,
};
use vstd::arithmetic::div_mod::lemma_fundamental_div_mod;
use crate::patterns::{
    glider_cells, glider_offsets, pulsar_cells, pulsar_offsets, GLIDER_MIN_SIZE, PULSAR_MIN_SIZE,
};
use fixedbitset::FixedBitSet;
use vstd::prelude::*;

verus! {

/// A universe of fixed size.  Cell `(row, col)` is bit `row * width + col`
/// of `cells`.
#[derive(Debug)]
pub struct Universe {
    width: u32,
    height: u32,
    cells: FixedBitSet,
}

/// The position reached from `x` by going `delta` steps round a ring of `n`
/// positions, backwards for a negative `delta`.  Neither `x` nor `delta`
/// need lie inside the ring.
pub fn wrapped(x: u32, delta: i32, n: u32) -> (r: u32)
    requires
        n > 0,
    ensures
        r == wrap(x + delta, n as int),
        r < n,
{
    let base: u64 = (x % n) as u64;
    let shift: u64 = if delta >= 0 {
        (delta as u64) % (n as u64)
    } else {
        let back: u64 = ((-(delta as i64)) as u64) % (n as u64);
        if back == 0 {
            0
        } else {
            (n as u64) - back
        }
    };
    proof {
        let m = n as int;
        // `shift` lies a whole number of turns from `delta`.
        let turns = if delta >= 0 {
            -(delta as int / m)
        } else if (-delta) % m == 0 {
            (-delta) / m
        } else {
            (-delta) / m + 1
        };
        lemma_fundamental_div_mod(delta as int, m);
        lemma_fundamental_div_mod(-delta, m);
        assert(shift == delta + turns * m) by (nonlinear_arith)
            requires
                delta >= 0 ==> delta == m * (delta as int / m) + shift && turns == -(delta as int / m),
                delta < 0 && (-delta) % m == 0 ==> -delta == m * ((-delta) / m) && shift == 0 && turns
                    == (-delta) / m,
                delta < 0 && (-delta) % m != 0 ==> -delta == m * ((-delta) / m) + (m - shift) && turns
                    == (-delta) / m + 1,
        ;
        lemma_wrap_turns(x + delta, turns, m);
        lemma_wrap_sum(x as int, shift as int, m);
    }
    ((base + shift) % (n as u64)) as u32
}

/// Whether a draw makes a cell alive.
pub fn is_alive_draw(draw: u64) -> (alive: bool)
    ensures
        alive == draw_is_alive(draw),
{
    draw < ALIVE_BELOW
}

/// Whether one of the first `k` positions of `coords` has the place `i`
/// among the cells of `g`.
spec fn seeds(g: Grid, coords: Seq<(u32, u32)>, k: int, i: int) -> bool {
    exists|j: int| 0 <= j < k && i == g.index((#[trigger] coords[j]).0 as int, coords[j].1 as int)
}

/// Whether one of the first `k` offsets, added to the anchor and wrapped,
/// gives the position whose place among the cells of `g` is `i`.
spec fn stamps(g: Grid, offsets: Seq<(i32, i32)>, row: int, col: int, k: int, i: int) -> bool {
    exists|j: int|
        0 <= j < k && i == g.index(
            wrap(row + (#[trigger] offsets[j]).0, g.height as int),
            wrap(col + offsets[j].1, g.width as int),
        )
}

/// The position one step back from `x` on a ring of `n` positions for
/// `k == 0`, `x` itself for `k == 1`, the position one step on for `k == 2`.
spec fn beside(x: int, k: int, n: int) -> int {
    if k == 0 {
        if x == 0 {
            n - 1
        } else {
            x - 1
        }
    } else if k == 1 {
        x
    } else {
        if x == n - 1 {
            0
        } else {
            x + 1
        }
    }
}

/// The live cells among the first `k` of the nine cells round `(row, col)`,
/// taken row by row, the cell itself left out.
spec fn counted(g: Grid, row: int, col: int, k: int) -> int
    decreases k,
{
    if k <= 0 {
        0
    } else {
        counted(g, row, col, k - 1) + if k == 5 {
            0
        } else {
            g.live(beside(row, (k - 1) / 3, g.height as int), beside(col, (k - 1) % 3, g.width as int))
        }
    }
}

/// All nine cells taken, the count is that of the eight neighbours.
proof fn lemma_counted_all(g: Grid, row: int, col: int)
    ensures
        counted(g, row, col, 9) == g.neighbor_count(row, col),
{
    reveal_with_fuel(counted, 10);
}

impl View for Universe {
    type V = Grid;

    closed spec fn view(&self) -> Grid {
        Grid {
            width: self.width as nat,
            height: self.height as nat,
            cells: bit_values(self.cells),
        }
    }
}

impl Universe {
    /// What holds of every universe that this crate hands out: it has at
    /// least one cell and no more than a `u32` can count, and one bit for
    /// each cell.
    pub open spec fn wf(&self) -> bool {
        &&& self@.wf()
        &&& self@.cells.len() <= u32::MAX
    }

    /// A universe of `width` columns and `height` rows with every cell
    /// dead.  A universe without cells, or with more cells than a `u32` can
    /// count, is refused.
    pub fn new(width: u32, height: u32) -> (result: Result<Universe, GridError>)
        ensures
            match result {
                Ok(u) => width > 0 && height > 0 && width * height <= u32::MAX && u@ == Grid::dead(
                    width as nat,
                    height as nat,
                ) && u.wf(),
                Err(GridError::ZeroDimension) => width == 0 || height == 0,
                Err(GridError::TooLarge) => width > 0 && height > 0 && width * height > u32::MAX,
                Err(_) => false,
            },
    {
        if width == 0 || height == 0 {
            return Err(GridError::ZeroDimension);
        }
        assert(width * height <= 0xffff_ffff * 0xffff_ffff) by (nonlinear_arith)
            requires
                width <= 0xffff_ffff,
                height <= 0xffff_ffff,
        ;
        let size: u64 = (width as u64) * (height as u64);
        if size > u32::MAX as u64 {
            return Err(GridError::TooLarge);
        }
        let cells = FixedBitSet::with_capacity(size as usize);
        Ok(Universe { width, height, cells })
    }

    /// The number of columns.
    pub fn width(&self) -> (w: u32)
        requires
            self.wf(),
        ensures
            w == self@.width,
            w > 0,
    {
        self.width
    }

    /// The number of rows.
    pub fn height(&self) -> (h: u32)
        requires
            self.wf(),
        ensures
            h == self@.height,
            h > 0,
    {
        self.height
    }

    /// The place of cell `(row, column)` among the bits.  Nothing is
    /// wrapped here: the position must lie inside the universe.
    pub fn get_index(&self, row: u32, column: u32) -> (idx: usize)
        requires
            self.wf(),
            self@.has(row as int, column as int),
        ensures
            idx == self@.index(row as int, column as int),
            idx < self@.cells.len(),
    {
        proof {
            lemma_index_of_position(self.width as int, self.height as int, row as int, column as int);
        }
        ((row as u64) * (self.width as u64) + (column as u64)) as usize
    }

    /// Whether the cell at `(row, column)` is alive, as 1 or 0.
    fn live_at(&self, row: u32, column: u32) -> (n: u8)
        requires
            self.wf(),
            self@.has(row as int, column as int),
        ensures
            n == self@.live(row as int, column as int),
    {
        let idx = self.get_index(row, column);
        if self.cells.contains(idx) {
            1
        } else {
            0
        }
    }

    /// The number of live cells among the eight neighbours of
    /// `(row, column)`, found by going one step back, none and one step on
    /// in each direction: a step back is taken as a whole turn less one.
    pub fn live_neighbor_count(&self, row: u32, column: u32) -> (count: u8)
        requires
            self.wf(),
            self@.has(row as int, column as int),
        ensures
            count == self@.neighbor_count(row as int, column as int),
            count <= 8,
    {
        let row_shifts: [u32; 3] = [self.height - 1, 0, 1];
        let col_shifts: [u32; 3] = [self.width - 1, 0, 1];
        let mut count: u8 = 0;
        for i in 0..3usize
            invariant
                self.wf(),
                self@.has(row as int, column as int),
                row_shifts@ == seq![(self.height - 1) as u32, 0u32, 1u32],
                col_shifts@ == seq![(self.width - 1) as u32, 0u32, 1u32],
                count == counted(self@, row as int, column as int, 3 * i),
                count <= 3 * i,
        {
            for j in 0..3usize
                invariant
                    self.wf(),
                    self@.has(row as int, column as int),
                    i < 3,
                    row_shifts@ == seq![(self.height - 1) as u32, 0u32, 1u32],
                    col_shifts@ == seq![(self.width - 1) as u32, 0u32, 1u32],
                    count == counted(self@, row as int, column as int, 3 * i + j),
                    count <= 3 * i + j,
            {
                proof {
                    reveal_with_fuel(counted, 2);
                    lemma_wrap_near(row + row_shifts@[i as int], self.height as int);
                    lemma_wrap_near(column + col_shifts@[j as int], self.width as int);
                }
                if !(i == 1 && j == 1) {
                    let neighbor_row = ((row as u64 + row_shifts[i] as u64) % (self.height as u64)) as u32;
                    let neighbor_col = ((column as u64 + col_shifts[j] as u64) % (self.width as u64)) as u32;
                    count += self.live_at(neighbor_row, neighbor_col);
                }
            }
        }
        proof {
            lemma_counted_all(self@, row as int, column as int);
        }
        count
    }

    /// The number of live cells among the eight neighbours of
    /// `(row, column)`, by eight lookups.
    pub fn live_neighbor_count_performant(&self, row: u32, column: u32) -> (count: u8)
        requires
            self.wf(),
            self@.has(row as int, column as int),
        ensures
            count == self@.neighbor_count(row as int, column as int),
            count <= 8,
    {
        let north = if row == 0 {
            self.height - 1
        } else {
            row - 1
        };
        let south = if row == self.height - 1 {
            0
        } else {
            row + 1
        };
        let west = if column == 0 {
            self.width - 1
        } else {
            column - 1
        };
        let east = if column == self.width - 1 {
            0
        } else {
            column + 1
        };
        let mut count: u8 = 0;
        count += self.live_at(north, west);
        count += self.live_at(north, column);
        count += self.live_at(north, east);
        count += self.live_at(row, west);
        count += self.live_at(row, east);
        count += self.live_at(south, west);
        count += self.live_at(south, column);
        count += self.live_at(south, east);
        count
    }

    /// Advances the universe by one generation.  Every cell is decided from
    /// the generation before: the new cells are written to a copy, which
    /// replaces the old cells at the end.
    pub fn tick(&mut self)
        requires
            old(self).wf(),
        ensures
            final(self)@ == old(self)@.step(),
            final(self).wf(),
    {
        let ghost before = self@;
        let mut next = self.cells.clone();
        assert(0 * before.width == 0) by (nonlinear_arith);
        for row in 0..self.height
            invariant
                self@ == before,
                self.wf(),
                bit_values(next).len() == before.cells.len(),
                forall|i: int|
                    0 <= i < row * before.width ==> bit_values(next)[i] == before.next_alive(
                        i / (before.width as int),
                        i % (before.width as int),
                    ),
        {
            for col in 0..self.width
                invariant
                    self@ == before,
                    self.wf(),
                    row < self.height,
                    bit_values(next).len() == before.cells.len(),
                    forall|i: int|
                        0 <= i < row * before.width + col ==> bit_values(next)[i]
                            == before.next_alive(i / (before.width as int), i % (before.width as int)),
            {
                let idx = self.get_index(row, col);
                let cell = self.cells.contains(idx);
                let live_neighbors = self.live_neighbor_count_performant(row, col);
                let next_state = match (cell, live_neighbors) {
                    (true, 2) | (true, 3) => true,
                    (true, _) => false,
                    (false, 3) => true,
                    (false, _) => false,
                };
                proof {
                    lemma_index_of_position(
                        before.width as int,
                        before.height as int,
                        row as int,
                        col as int,
                    );
                }
                next.set(idx, next_state);
            }
            assert((row + 1) * before.width == row * before.width + before.width) by (nonlinear_arith);
        }
        self.cells = next;
        proof {
            assert(before.height * before.width == before.width * before.height) by (nonlinear_arith);
            assert(self@.cells =~= before.step().cells);
        }
    }

    /// Flips the cell at `(row, column)`.  A position outside the universe
    /// is refused; it is not wrapped.
    pub fn toggle_cell(&mut self, row: u32, column: u32) -> (result: Result<(), GridError>)
        requires
            old(self).wf(),
        ensures
            final(self).wf(),
            match result {
                Ok(()) => old(self)@.has(row as int, column as int) && final(self)@ == old(self)@.toggled(
                    row as int,
                    column as int,
                ),
                Err(e) => e == GridError::OutOfBounds && !old(self)@.has(row as int, column as int)
                    && final(self)@ == old(self)@,
            },
    {
        if row >= self.height || column >= self.width {
            return Err(GridError::OutOfBounds);
        }
        let idx = self.get_index(row, column);
        let alive = self.cells.contains(idx);
        self.cells.set(idx, !alive);
        Ok(())
    }

    /// Makes every listed cell alive.  If one of the positions lies outside
    /// the universe the whole list is refused and no cell is changed.
    pub fn set_cells(&mut self, cells: &[(u32, u32)]) -> (result: Result<(), GridError>)
        requires
            old(self).wf(),
        ensures
            final(self).wf(),
            match result {
                Ok(()) => old(self)@.has_all(cells@) && final(self)@ == old(self)@.seeded(cells@),
                Err(e) => e == GridError::OutOfBounds && !old(self)@.has_all(cells@) && final(self)@ == old(
                    self,
                )@,
            },
    {
        let ghost before = self@;
        for k in 0..cells.len()
            invariant
                self@ == before,
                self.wf(),
                forall|j: int| 0 <= j < k ==> before.has((#[trigger] cells@[j]).0 as int, cells@[j].1 as int),
        {
            let (row, col) = cells[k];
            if row >= self.height || col >= self.width {
                return Err(GridError::OutOfBounds);
            }
        }
        for k in 0..cells.len()
            invariant
                self.wf(),
                self@.width == before.width,
                self@.height == before.height,
                before.wf(),
                before.has_all(cells@),
                forall|i: int|
                    0 <= i < before.cells.len() ==> #[trigger] self@.cells[i] == (before.cells[i] || seeds(
                        before,
                        cells@,
                        k as int,
                        i,
                    )),
        {
            let ghost earlier = self@;
            let (row, col) = cells[k];
            assert(before.has(cells@[k as int].0 as int, cells@[k as int].1 as int));
            let idx = self.get_index(row, col);
            self.cells.set(idx, true);
            proof {
                assert forall|i: int| 0 <= i < before.cells.len() implies #[trigger] self@.cells[i] == (
                before.cells[i] || seeds(before, cells@, k + 1, i)) by {
                    assert(earlier.cells[i] == (before.cells[i] || seeds(before, cells@, k as int, i)));
                    if seeds(before, cells@, k as int, i) {
                        let j = choose|j: int|
                            0 <= j < k && i == before.index(
                                (#[trigger] cells@[j]).0 as int,
                                cells@[j].1 as int,
                            );
                        assert(0 <= j < k + 1);
                    }
                    if i == idx {
                        assert(i == before.index(cells@[k as int].0 as int, cells@[k as int].1 as int));
                    }
                    if seeds(before, cells@, k + 1, i) && i != idx {
                        let j = choose|j: int|
                            0 <= j < k + 1 && i == before.index(
                                (#[trigger] cells@[j]).0 as int,
                                cells@[j].1 as int,
                            );
                        assert(j < k);
                    }
                }
            }
        }
        proof {
            let after = before.seeded(cells@);
            let n = cells@.len() as int;
            assert forall|i: int| 0 <= i < before.cells.len() implies self@.cells[i] == after.cells[i] by {
                lemma_position_of_index(before.width as int, before.height as int, i);
                let row = i / (before.width as int);
                let col = i % (before.width as int);
                assert(self@.cells[i] == (before.cells[i] || seeds(before, cells@, n, i)));
                if cells@.contains((row as u32, col as u32)) {
                    let j = choose|j: int| 0 <= j < cells@.len() && cells@[j] == (row as u32, col as u32);
                    assert(i == before.index(cells@[j].0 as int, cells@[j].1 as int));
                }
                if seeds(before, cells@, n, i) {
                    let j = choose|j: int|
                        0 <= j < n && i == before.index((#[trigger] cells@[j]).0 as int, cells@[j].1 as int);
                    lemma_index_of_position(
                        before.width as int,
                        before.height as int,
                        cells@[j].0 as int,
                        cells@[j].1 as int,
                    );
                    assert(cells@[j] == (row as u32, col as u32));
                }
            }
            assert(self@.cells =~= after.cells);
        }
        Ok(())
    }

    /// Stamps a pattern on the universe: each offset is added to the anchor
    /// `(row, column)` and wrapped round the universe on its own, and the
    /// cell found there is made alive.
    fn stamp(&mut self, row: u32, column: u32, offsets: &Vec<(i32, i32)>)
        requires
            old(self).wf(),
        ensures
            final(self)@ == old(self)@.stamped(offsets@, row as int, column as int),
            final(self).wf(),
    {
        let ghost before = self@;
        for k in 0..offsets.len()
            invariant
                self.wf(),
                self@.width == before.width,
                self@.height == before.height,
                before.wf(),
                forall|i: int|
                    0 <= i < before.cells.len() ==> #[trigger] self@.cells[i] == (before.cells[i] || stamps(
                        before,
                        offsets@,
                        row as int,
                        column as int,
                        k as int,
                        i,
                    )),
        {
            let ghost earlier = self@;
            let (dr, dc) = offsets[k];
            let r = wrapped(row, dr, self.height);
            let c = wrapped(column, dc, self.width);
            let idx = self.get_index(r, c);
            self.cells.set(idx, true);
            proof {
                assert forall|i: int| 0 <= i < before.cells.len() implies #[trigger] self@.cells[i] == (
                before.cells[i] || stamps(before, offsets@, row as int, column as int, k + 1, i)) by {
                    assert(earlier.cells[i] == (before.cells[i] || stamps(
                        before,
                        offsets@,
                        row as int,
                        column as int,
                        k as int,
                        i,
                    )));
                    if stamps(before, offsets@, row as int, column as int, k as int, i) {
                        let j = choose|j: int|
                            0 <= j < k && i == before.index(
                                wrap(row + (#[trigger] offsets@[j]).0, before.height as int),
                                wrap(column + offsets@[j].1, before.width as int),
                            );
                        assert(0 <= j < k + 1);
                    }
                    if i == idx {
                        assert(i == before.index(
                            wrap(row + offsets@[k as int].0, before.height as int),
                            wrap(column + offsets@[k as int].1, before.width as int),
                        ));
                    }
                    if stamps(before, offsets@, row as int, column as int, k + 1, i) && i != idx {
                        let j = choose|j: int|
                            0 <= j < k + 1 && i == before.index(
                                wrap(row + (#[trigger] offsets@[j]).0, before.height as int),
                                wrap(column + offsets@[j].1, before.width as int),
                            );
                        assert(j < k);
                    }
                }
            }
        }
        proof {
            let after = before.stamped(offsets@, row as int, column as int);
            let n = offsets@.len() as int;
            assert forall|i: int| 0 <= i < before.cells.len() implies self@.cells[i] == after.cells[i] by {
                lemma_position_of_index(before.width as int, before.height as int, i);
                let r = i / (before.width as int);
                let c = i % (before.width as int);
                assert(self@.cells[i] == (before.cells[i] || stamps(
                    before,
                    offsets@,
                    row as int,
                    column as int,
                    n,
                    i,
                )));
                if before.covers(offsets@, row as int, column as int, r, c) {
                    let j = choose|j: int|
                        0 <= j < offsets@.len() && r == wrap(
                            row + (#[trigger] offsets@[j]).0,
                            before.height as int,
                        ) && c == wrap(column + offsets@[j].1, before.width as int);
                    assert(i == before.index(
                        wrap(row + offsets@[j].0, before.height as int),
                        wrap(column + offsets@[j].1, before.width as int),
                    ));
                }
                if stamps(before, offsets@, row as int, column as int, n, i) {
                    let j = choose|j: int|
                        0 <= j < n && i == before.index(
                            wrap(row + (#[trigger] offsets@[j]).0, before.height as int),
                            wrap(column + offsets@[j].1, before.width as int),
                        );
                    lemma_wrap_sum(row + offsets@[j].0, 0, before.height as int);
                    lemma_wrap_sum(column + offsets@[j].1, 0, before.width as int);
                    lemma_index_of_position(
                        before.width as int,
                        before.height as int,
                        wrap(row + offsets@[j].0, before.height as int),
                        wrap(column + offsets@[j].1, before.width as int),
                    );
                    assert(before.covers(offsets@, row as int, column as int, r, c));
                }
            }
            assert(self@.cells =~= after.cells);
        }
    }

    /// Stamps a glider whose middle is `(row, column)`; the anchor and each
    /// of the five cells are wrapped round the universe.  What was alive
    /// stays alive.  A universe of fewer than three rows or columns, on
    /// which the cells of the glider would fall on one another, is refused.
    pub fn add_glider(&mut self, row: u32, column: u32) -> (result: Result<(), GridError>)
        requires
            old(self).wf(),
        ensures
            final(self).wf(),
            match result {
                Ok(()) => old(self)@.width >= GLIDER_MIN_SIZE && old(self)@.height >= GLIDER_MIN_SIZE
                    && final(self)@ == old(self)@.stamped(glider_offsets(), row as int, column as int),
                Err(e) => e == GridError::GridTooSmall && (old(self)@.width < GLIDER_MIN_SIZE || old(
                    self,
                )@.height < GLIDER_MIN_SIZE) && final(self)@ == old(self)@,
            },
    {
        if self.width < GLIDER_MIN_SIZE || self.height < GLIDER_MIN_SIZE {
            return Err(GridError::GridTooSmall);
        }
        let pattern = glider_cells();
        self.stamp(row, column, &pattern);
        Ok(())
    }

    /// Stamps a pulsar whose centre is `(row, column)`; the anchor and each
    /// of the forty-eight cells are wrapped round the universe.  What was
    /// alive stays alive.  A universe of fewer than fifteen rows or columns
    /// is refused.
    pub fn add_pulsar(&mut self, row: u32, column: u32) -> (result: Result<(), GridError>)
        requires
            old(self).wf(),
        ensures
            final(self).wf(),
            match result {
                Ok(()) => old(self)@.width >= PULSAR_MIN_SIZE && old(self)@.height >= PULSAR_MIN_SIZE
                    && final(self)@ == old(self)@.stamped(pulsar_offsets(), row as int, column as int),
                Err(e) => e == GridError::GridTooSmall && (old(self)@.width < PULSAR_MIN_SIZE || old(
                    self,
                )@.height < PULSAR_MIN_SIZE) && final(self)@ == old(self)@,
            },
    {
        if self.width < PULSAR_MIN_SIZE || self.height < PULSAR_MIN_SIZE {
            return Err(GridError::GridTooSmall);
        }
        let pattern = pulsar_cells();
        self.stamp(row, column, &pattern);
        Ok(())
    }

    /// Replaces every cell by the outcome of a draw: cell `i`, in row-major
    /// order, is alive exactly if `draws[i]` lies below 0.4.  There must be
    /// one draw for each cell, or nothing is changed.
    pub fn set_random(&mut self, draws: &[u64]) -> (result: Result<(), GridError>)
        requires
            old(self).wf(),
        ensures
            final(self).wf(),
            match result {
                Ok(()) => draws@.len() == old(self)@.cells.len() && final(self)@ == Grid::drawn(
                    old(self)@.width,
                    old(self)@.height,
                    draws@,
                ),
                Err(e) => e == GridError::LengthMismatch && draws@.len() != old(self)@.cells.len()
                    && final(self)@ == old(self)@,
            },
    {
        let size: usize = ((self.width as u64) * (self.height as u64)) as usize;
        if draws.len() != size {
            return Err(GridError::LengthMismatch);
        }
        let mut cells = FixedBitSet::with_capacity(size);
        for i in 0..size
            invariant
                draws@.len() == size,
                bit_values(cells).len() == size,
                forall|j: int| 0 <= j < i ==> bit_values(cells)[j] == draw_is_alive(draws@[j]),
        {
            cells.set(i, is_alive_draw(draws[i]));
        }
        self.cells = cells;
        proof {
            assert(self@.cells =~= Grid::drawn(self@.width, self@.height, draws@).cells);
        }
        Ok(())
    }

    /// Replaces the cells by as many dead ones.
    pub fn clear(&mut self)
        requires
            old(self).wf(),
        ensures
            final(self)@ == old(self)@.cleared(),
            final(self).wf(),
    {
        let size: usize = ((self.width as u64) * (self.height as u64)) as usize;
        self.cells = FixedBitSet::with_capacity(size);
    }

    /// The cells as they are stored: 32 to a block, cell `i` in block
    /// `i / 32` at bit `i % 32`.
    pub fn cells(&self) -> (blocks: &[u32])
        requires
            self.wf(),
        ensures
            packs(blocks@, self@.cells),
    {
        self.cells.as_slice()
    }

    /// The bit set that holds the cells.
    pub fn get_cells(&self) -> (cells: &FixedBitSet)
        requires
            self.wf(),
        ensures
            bit_values(*cells) == self@.cells,
    {
        &self.cells
    }
}

} // verus!
