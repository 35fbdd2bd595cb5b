//! What holds of the game on every grid: the dimensions never change, the
//! edges of the torus are joined both ways, and the rule does not care where
//! on the torus a pattern lies.
use crate::grid::{
    lemma_from_fn, lemma_grids_equal, lemma_index_of_position, lemma_wrap_near, lemma_wrap_sum, wrap,
    Grid,
};
use vstd::prelude::*;

verus! {

/// In the next generation a cell is alive exactly if the rule says so of
/// the cell and its eight neighbours in this generation.
pub proof fn lemma_step_cell(g: Grid, row: int, col: int)
    requires
        g.wf(),
        g.has(row, col),
    ensures
        g.step().alive(row, col) == g.next_alive(row, col),
{
    lemma_from_fn(g.width, g.height, |r: int, c: int| g.next_alive(r, c));
}

/// No operation changes the dimensions of a grid, and each leaves exactly
/// one cell for every position: a step, a toggle, seeding, stamping,
/// clearing, drawing afresh and moving round the torus.
pub proof fn lemma_dimensions_kept(
    g: Grid,
    row: int,
    col: int,
    coords: Seq<(u32, u32)>,
    offsets: Seq<(i32, i32)>,
    draws: Seq<u64>,
)
    requires
        g.wf(),
    ensures
        g.step().wf() && g.step().width == g.width && g.step().height == g.height,
        g.has(row, col) ==> g.toggled(row, col).wf() && g.toggled(row, col).width == g.width
            && g.toggled(row, col).height == g.height,
        g.seeded(coords).wf() && g.seeded(coords).width == g.width && g.seeded(coords).height
            == g.height,
        g.stamped(offsets, row, col).wf() && g.stamped(offsets, row, col).width == g.width
            && g.stamped(offsets, row, col).height == g.height,
        g.cleared().wf() && g.cleared().width == g.width && g.cleared().height == g.height,
        draws.len() == g.cells.len() ==> Grid::drawn(g.width, g.height, draws).wf(),
        g.translated(row, col).wf() && g.translated(row, col).width == g.width && g.translated(
            row,
            col,
        ).height == g.height,
        Grid::dead(g.width, g.height).wf(),
{
    if g.has(row, col) {
        lemma_index_of_position(g.width as int, g.height as int, row, col);
    }
}

/// A toggle flips the cell it names and no other.
pub proof fn lemma_toggled_cell(g: Grid, row: int, col: int, r: int, c: int)
    requires
        g.wf(),
        g.has(row, col),
        g.has(r, c),
    ensures
        g.toggled(row, col).alive(r, c) == if r == row && c == col {
            !g.alive(r, c)
        } else {
            g.alive(r, c)
        },
{
    lemma_index_of_position(g.width as int, g.height as int, row, col);
    lemma_index_of_position(g.width as int, g.height as int, r, c);
}

/// After seeding, a cell is alive exactly if it was alive or is listed.
pub proof fn lemma_seeded_cell(g: Grid, coords: Seq<(u32, u32)>, r: int, c: int)
    requires
        g.wf(),
        g.has(r, c),
    ensures
        g.seeded(coords).alive(r, c) == (g.alive(r, c) || coords.contains((r as u32, c as u32))),
{
    lemma_from_fn(
        g.width,
        g.height,
        |row: int, col: int| g.alive(row, col) || coords.contains((row as u32, col as u32)),
    );
}

/// After stamping, a cell is alive exactly if it was alive or the pattern
/// covers it.
pub proof fn lemma_stamped_cell(g: Grid, offsets: Seq<(i32, i32)>, row: int, col: int, r: int, c: int)
    requires
        g.wf(),
        g.has(r, c),
    ensures
        g.stamped(offsets, row, col).alive(r, c) == (g.alive(r, c) || g.covers(offsets, row, col, r, c)),
{
    lemma_from_fn(
        g.width,
        g.height,
        |r: int, c: int| g.alive(r, c) || g.covers(offsets, row, col, r, c),
    );
}

/// A cleared grid has no live cell, and clearing it once more changes
/// nothing.
pub proof fn lemma_clear_idempotent(g: Grid)
    requires
        g.wf(),
    ensures
        g.cleared().cleared() == g.cleared(),
        forall|row: int, col: int| g.has(row, col) ==> !g.cleared().alive(row, col),
{
    assert forall|row: int, col: int| g.has(row, col) implies !g.cleared().alive(row, col) by {
        lemma_index_of_position(g.width as int, g.height as int, row, col);
    }
}

/// The edges are joined both ways: a live cell is counted by each of the
/// eight cells that lie one step from it, a step over an edge included.
pub proof fn lemma_live_cell_is_counted(g: Grid, row: int, col: int, dr: int, dc: int)
    requires
        g.wf(),
        g.has(row, col),
        g.alive(row, col),
        -1 <= dr <= 1,
        -1 <= dc <= 1,
        dr != 0 || dc != 0,
    ensures
        g.has(wrap(row + dr, g.height as int), wrap(col + dc, g.width as int)),
        g.neighbor_count(wrap(row + dr, g.height as int), wrap(col + dc, g.width as int)) >= 1,
{
    lemma_wrap_near(row + dr, g.height as int);
    lemma_wrap_near(col + dc, g.width as int);
    let r = wrap(row + dr, g.height as int);
    let c = wrap(col + dc, g.width as int);
    let back_r = if dr == 1 {
        g.north(r)
    } else if dr == 0 {
        r
    } else {
        g.south(r)
    };
    let back_c = if dc == 1 {
        g.west(c)
    } else if dc == 0 {
        c
    } else {
        g.east(c)
    };
    assert(back_r == row && back_c == col);
    assert(g.live(back_r, back_c) == 1);
}

/// Whether `(r, c)` is one of the eight cells round `(row, col)` on the
/// torus of `g`.
pub open spec fn around(g: Grid, row: int, col: int, r: int, c: int) -> bool {
    &&& r == g.north(row) || r == row || r == g.south(row)
    &&& c == g.west(col) || c == col || c == g.east(col)
    &&& r != row || c != col
}

/// What a cell adds to the counts of others: on a grid of at least three
/// rows and three columns, a dead cell that comes alive raises by one the
/// count of each of the eight cells round it, over the edges as within the
/// grid, and leaves every other count as it was.
pub proof fn lemma_cell_adds_to_its_neighbors(g: Grid, row: int, col: int, r: int, c: int)
    requires
        g.wf(),
        g.width >= 3,
        g.height >= 3,
        g.has(row, col),
        !g.alive(row, col),
        g.has(r, c),
    ensures
        g.toggled(row, col).neighbor_count(r, c) == g.neighbor_count(r, c) + if around(
            g,
            row,
            col,
            r,
            c,
        ) {
            1int
        } else {
            0int
        },
{
    let t = g.toggled(row, col);
    lemma_toggled_cell(g, row, col, g.north(r), g.west(c));
    lemma_toggled_cell(g, row, col, g.north(r), c);
    lemma_toggled_cell(g, row, col, g.north(r), g.east(c));
    lemma_toggled_cell(g, row, col, r, g.west(c));
    lemma_toggled_cell(g, row, col, r, g.east(c));
    lemma_toggled_cell(g, row, col, g.south(r), g.west(c));
    lemma_toggled_cell(g, row, col, g.south(r), c);
    lemma_toggled_cell(g, row, col, g.south(r), g.east(c));
    assert(t.north(r) == g.north(r) && t.south(r) == g.south(r));
    assert(t.west(c) == g.west(c) && t.east(c) == g.east(c));
}

/// A live cell in the corner `(0, 0)` is counted by the three cells of the
/// last row, the two of its own row and the three of the next row that lie
/// round it, on a grid with at least two rows and two columns.
pub proof fn lemma_corner_is_counted_across_edges(g: Grid)
    requires
        g.wf(),
        g.width >= 2,
        g.height >= 2,
        g.alive(0, 0),
    ensures
        g.neighbor_count(g.height - 1, g.width - 1) >= 1,
        g.neighbor_count(g.height - 1, 0) >= 1,
        g.neighbor_count(g.height - 1, 1) >= 1,
        g.neighbor_count(0, g.width - 1) >= 1,
        g.neighbor_count(0, 1) >= 1,
        g.neighbor_count(1, g.width - 1) >= 1,
        g.neighbor_count(1, 0) >= 1,
        g.neighbor_count(1, 1) >= 1,
{
    let h = g.height as int;
    let w = g.width as int;
    lemma_wrap_near(-1, h);
    lemma_wrap_near(1, h);
    lemma_wrap_near(0, h);
    lemma_wrap_near(-1, w);
    lemma_wrap_near(1, w);
    lemma_wrap_near(0, w);
    lemma_live_cell_is_counted(g, 0, 0, -1, -1);
    lemma_live_cell_is_counted(g, 0, 0, -1, 0);
    lemma_live_cell_is_counted(g, 0, 0, -1, 1);
    lemma_live_cell_is_counted(g, 0, 0, 0, -1);
    lemma_live_cell_is_counted(g, 0, 0, 0, 1);
    lemma_live_cell_is_counted(g, 0, 0, 1, -1);
    lemma_live_cell_is_counted(g, 0, 0, 1, 0);
    lemma_live_cell_is_counted(g, 0, 0, 1, 1);
}

/// Moving one step back or on and then `d` positions back round a ring
/// gives the same position as moving `d` positions back first.
proof fn lemma_wrap_shift(x: int, d: int, n: int)
    requires
        0 < n,
        0 <= x < n,
    ensures
        0 <= wrap(x - d, n) < n,
        wrap((if x == 0 { n - 1 } else { x - 1 }) - d, n) == if wrap(x - d, n) == 0 {
            n - 1
        } else {
            wrap(x - d, n) - 1
        },
        wrap((if x == n - 1 { 0 } else { x + 1 }) - d, n) == if wrap(x - d, n) == n - 1 {
            0
        } else {
            wrap(x - d, n) + 1
        },
{
    let y = wrap(x - d, n);
    lemma_wrap_sum(x - d, 0, n);
    lemma_wrap_near(x - 1, n);
    lemma_wrap_near(x + 1, n);
    lemma_wrap_near(y - 1, n);
    lemma_wrap_near(y + 1, n);
    lemma_wrap_sum(x - 1, -d, n);
    lemma_wrap_sum(x + 1, -d, n);
    lemma_wrap_sum(x - d, -1, n);
    lemma_wrap_sum(x - d, 1, n);
}

/// On a ring, `r` lies `dr` positions on from where `t` falls exactly if
/// the position `dr` back from `r` is where `t` falls.
proof fn lemma_wrap_moved(r: int, dr: int, t: int, n: int)
    requires
        0 < n,
        0 <= r < n,
    ensures
        (wrap(r - dr, n) == wrap(t, n)) <==> (r == wrap(t + dr, n)),
{
    lemma_wrap_sum(t + dr, -dr, n);
    lemma_wrap_sum(r - dr, dr, n);
    lemma_wrap_sum(t, dr, n);
    lemma_wrap_near(r, n);
    assert(t + dr + (-dr) == t);
    assert(r - dr + dr == r);
}

/// In a grid that was moved, a cell is alive exactly if the cell that was
/// moved onto it was.
pub proof fn lemma_translated_cell(g: Grid, dr: int, dc: int, row: int, col: int)
    requires
        g.wf(),
        g.has(row, col),
    ensures
        g.translated(dr, dc).alive(row, col) == g.alive(
            wrap(row - dr, g.height as int),
            wrap(col - dc, g.width as int),
        ),
        g.has(wrap(row - dr, g.height as int), wrap(col - dc, g.width as int)),
{
    lemma_from_fn(
        g.width,
        g.height,
        |r: int, c: int| g.alive(wrap(r - dr, g.height as int), wrap(c - dc, g.width as int)),
    );
    lemma_wrap_sum(row - dr, 0, g.height as int);
    lemma_wrap_sum(col - dc, 0, g.width as int);
}

/// In a grid that was moved, a cell has as many live neighbours as the cell
/// that was moved onto it had.
pub proof fn lemma_translated_count(g: Grid, dr: int, dc: int, row: int, col: int)
    requires
        g.wf(),
        g.has(row, col),
    ensures
        g.translated(dr, dc).neighbor_count(row, col) == g.neighbor_count(
            wrap(row - dr, g.height as int),
            wrap(col - dc, g.width as int),
        ),
{
    let h = g.height as int;
    let w = g.width as int;
    let t = g.translated(dr, dc);
    let y = wrap(row - dr, h);
    let x = wrap(col - dc, w);
    lemma_wrap_shift(row, dr, h);
    lemma_wrap_shift(col, dc, w);
    lemma_translated_cell(g, dr, dc, t.north(row), t.west(col));
    lemma_translated_cell(g, dr, dc, t.north(row), col);
    lemma_translated_cell(g, dr, dc, t.north(row), t.east(col));
    lemma_translated_cell(g, dr, dc, row, t.west(col));
    lemma_translated_cell(g, dr, dc, row, t.east(col));
    lemma_translated_cell(g, dr, dc, t.south(row), t.west(col));
    lemma_translated_cell(g, dr, dc, t.south(row), col);
    lemma_translated_cell(g, dr, dc, t.south(row), t.east(col));
    assert(wrap(t.north(row) - dr, h) == g.north(y));
    assert(wrap(t.south(row) - dr, h) == g.south(y));
    assert(wrap(t.west(col) - dc, w) == g.west(x));
    assert(wrap(t.east(col) - dc, w) == g.east(x));
}

/// The rule does not care where on the torus a pattern lies: to move a
/// grid and then take a step gives the same grid as to take the step and
/// then move.
pub proof fn lemma_step_translated(g: Grid, dr: int, dc: int)
    requires
        g.wf(),
    ensures
        g.translated(dr, dc).step() == g.step().translated(dr, dc),
{
    let h = g.height as int;
    let w = g.width as int;
    let t = g.translated(dr, dc);
    let a = t.step();
    let b = g.step().translated(dr, dc);
    assert forall|row: int, col: int| a.has(row, col) implies a.alive(row, col) == b.alive(row, col) by {
        let y = wrap(row - dr, h);
        let x = wrap(col - dc, w);
        lemma_step_cell(t, row, col);
        lemma_translated_cell(g.step(), dr, dc, row, col);
        lemma_step_cell(g, y, x);
        lemma_translated_cell(g, dr, dc, row, col);
        lemma_translated_count(g, dr, dc, row, col);
        assert(t.neighbor_count(row, col) == g.neighbor_count(y, x));
    }
    lemma_grids_equal(a, b);
}

/// To stamp a pattern and then move the grid gives the same grid as to
/// move the grid and then stamp the pattern at the anchor moved likewise.
pub proof fn lemma_stamped_translated(
    g: Grid,
    offsets: Seq<(i32, i32)>,
    row: int,
    col: int,
    dr: int,
    dc: int,
)
    requires
        g.wf(),
    ensures
        g.stamped(offsets, row, col).translated(dr, dc) == g.translated(dr, dc).stamped(
            offsets,
            row + dr,
            col + dc,
        ),
{
    let h = g.height as int;
    let w = g.width as int;
    let s = g.stamped(offsets, row, col);
    let t = g.translated(dr, dc);
    let a = s.translated(dr, dc);
    let b = t.stamped(offsets, row + dr, col + dc);
    lemma_from_fn(g.width, g.height, |r: int, c: int| g.alive(r, c) || g.covers(offsets, row, col, r, c));
    lemma_from_fn(
        g.width,
        g.height,
        |r: int, c: int| t.alive(r, c) || t.covers(offsets, row + dr, col + dc, r, c),
    );
    assert forall|r: int, c: int| a.has(r, c) implies a.alive(r, c) == b.alive(r, c) by {
        let y = wrap(r - dr, h);
        let x = wrap(c - dc, w);
        lemma_translated_cell(s, dr, dc, r, c);
        lemma_translated_cell(g, dr, dc, r, c);
        assert(a.alive(r, c) == (g.alive(y, x) || g.covers(offsets, row, col, y, x)));
        assert(b.alive(r, c) == (g.alive(y, x) || t.covers(offsets, row + dr, col + dc, r, c)));
        assert forall|k: int| 0 <= k < offsets.len() implies ((y == wrap(row + offsets[k].0, h) && x
            == wrap(col + offsets[k].1, w)) <==> (r == wrap(row + dr + offsets[k].0, h) && c == wrap(
            col + dc + offsets[k].1,
            w,
        ))) by {
            lemma_wrap_moved(r, dr, row + offsets[k].0, h);
            lemma_wrap_moved(c, dc, col + offsets[k].1, w);
            lemma_wrap_sum(row + offsets[k].0, 0, h);
            lemma_wrap_sum(col + offsets[k].1, 0, w);
            assert(row + offsets[k].0 + dr == row + dr + offsets[k].0);
            assert(col + offsets[k].1 + dc == col + dc + offsets[k].1);
        }
        if g.covers(offsets, row, col, y, x) {
            let k = choose|k: int|
                0 <= k < offsets.len() && y == wrap(row + (#[trigger] offsets[k]).0, h) && x == wrap(
                    col + offsets[k].1,
                    w,
                );
            assert(r == wrap(row + dr + offsets[k].0, h) && c == wrap(col + dc + offsets[k].1, w));
        }
        if t.covers(offsets, row + dr, col + dc, r, c) {
            let k = choose|k: int|
                0 <= k < offsets.len() && r == wrap(row + dr + (#[trigger] offsets[k]).0, h) && c
                    == wrap(col + dc + offsets[k].1, w);
            assert(y == wrap(row + offsets[k].0, h) && x == wrap(col + offsets[k].1, w));
        }
    }
    lemma_grids_equal(a, b);
}

/// A grid without a live cell stays as it is when it is moved, and when it
/// takes a step.
pub proof fn lemma_dead_stays_dead(width: nat, height: nat, dr: int, dc: int)
    requires
        width > 0,
        height > 0,
    ensures
        Grid::dead(width, height).translated(dr, dc) == Grid::dead(width, height),
        Grid::dead(width, height).step() == Grid::dead(width, height),
{
    let d = Grid::dead(width, height);
    assert forall|r: int, c: int| d.has(r, c) implies !d.alive(r, c) by {
        lemma_index_of_position(width as int, height as int, r, c);
    }
    assert forall|r: int, c: int| d.has(r, c) implies d.translated(dr, dc).alive(r, c) == d.alive(
        r,
        c,
    ) by {
        lemma_translated_cell(d, dr, dc, r, c);
    }
    lemma_grids_equal(d.translated(dr, dc), d);
    assert forall|r: int, c: int| d.has(r, c) implies d.step().alive(r, c) == d.alive(r, c) by {
        lemma_step_cell(d, r, c);
        assert(d.has(d.north(r), d.west(c)) && d.has(d.south(r), d.east(c)));
    }
    lemma_grids_equal(d.step(), d);
}

/// A pattern stamped on an empty grid and then moved is the pattern
/// stamped at the anchor moved likewise.
pub proof fn lemma_pattern_moved(
    width: nat,
    height: nat,
    offsets: Seq<(i32, i32)>,
    row: int,
    col: int,
    dr: int,
    dc: int,
)
    requires
        width > 0,
        height > 0,
    ensures
        Grid::dead(width, height).stamped(offsets, row, col).translated(dr, dc) == Grid::dead(
            width,
            height,
        ).stamped(offsets, row + dr, col + dc),
{
    lemma_stamped_translated(Grid::dead(width, height), offsets, row, col, dr, dc);
    lemma_dead_stays_dead(width, height, dr, dc);
}

} // verus!
