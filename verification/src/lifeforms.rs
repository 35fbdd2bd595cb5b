//! What the rule does to four patterns wherever they lie on the torus: the
//! block stands still, the blinker turns, the glider travels and the pulsar
//! comes back.
use crate::grid::{
    lemma_from_fn, lemma_grids_equal, lemma_index_of_position, lemma_wrap_near, lemma_wrap_sum,
    next_state, wrap, Grid,
};
use crate::laws::{
    lemma_dead_stays_dead, lemma_dimensions_kept, lemma_pattern_moved, lemma_step_cell,
    lemma_step_translated, lemma_translated_count,
};
use crate::patterns::{
    blinker_column_offsets, blinker_row_offsets, block_offsets, glider_offsets,
    lemma_pulsar_offsets_are_its_shape, pulsar_offsets, pulsar_shape,
};
use vstd::prelude::*;

verus! {

/// One if `f` holds of `(r, c)`, else zero.
spec fn one_if(f: spec_fn(int, int) -> bool, r: int, c: int) -> int {
    if f(r, c) {
        1
    } else {
        0
    }
}

/// What the rule makes of position `(r, c)` on a torus of `h` rows and `w`
/// columns whose live cells are those of which `f` holds.
spec fn shape_next(f: spec_fn(int, int) -> bool, w: int, h: int, r: int, c: int) -> bool {
    let north = if r == 0 { h - 1 } else { r - 1 };
    let south = if r == h - 1 { 0 } else { r + 1 };
    let west = if c == 0 { w - 1 } else { c - 1 };
    let east = if c == w - 1 { 0 } else { c + 1 };
    next_state(
        f(r, c),
        one_if(f, north, west) + one_if(f, north, c) + one_if(f, north, east) + one_if(f, r, west)
            + one_if(f, r, east) + one_if(f, south, west) + one_if(f, south, c) + one_if(
            f,
            south,
            east,
        ),
    )
}

/// If the rule turns the shape `f` into the shape `f2` at every position,
/// a step turns the grid of `f` into the grid of `f2`.
proof fn lemma_shape_step(
    width: nat,
    height: nat,
    f: spec_fn(int, int) -> bool,
    f2: spec_fn(int, int) -> bool,
)
    requires
        width > 0,
        height > 0,
        forall|r: int, c: int|
            0 <= r < height && 0 <= c < width ==> #[trigger] shape_next(
                f,
                width as int,
                height as int,
                r,
                c,
            ) == f2(r, c),
    ensures
        Grid::from_fn(width, height, f).step() == Grid::from_fn(width, height, f2),
{
    let g = Grid::from_fn(width, height, f);
    let g2 = Grid::from_fn(width, height, f2);
    lemma_from_fn(width, height, f);
    lemma_from_fn(width, height, f2);
    assert forall|r: int, c: int| g.has(r, c) implies g.step().alive(r, c) == g2.alive(r, c) by {
        lemma_step_cell(g, r, c);
        assert(g.has(g.north(r), g.west(c)) && g.has(g.south(r), g.east(c)));
        assert(g.live(g.north(r), g.west(c)) == one_if(f, g.north(r), g.west(c)));
        assert(g.live(g.north(r), c) == one_if(f, g.north(r), c));
        assert(g.live(g.north(r), g.east(c)) == one_if(f, g.north(r), g.east(c)));
        assert(g.live(r, g.west(c)) == one_if(f, r, g.west(c)));
        assert(g.live(r, g.east(c)) == one_if(f, r, g.east(c)));
        assert(g.live(g.south(r), g.west(c)) == one_if(f, g.south(r), g.west(c)));
        assert(g.live(g.south(r), c) == one_if(f, g.south(r), c));
        assert(g.live(g.south(r), g.east(c)) == one_if(f, g.south(r), g.east(c)));
        assert(g.next_alive(r, c) == shape_next(f, width as int, height as int, r, c));
    }
    lemma_dimensions_kept(g, 0, 0, Seq::empty(), Seq::empty(), Seq::empty());
    lemma_grids_equal(g.step(), g2);
}

/// If a pattern stamped at `(row, col)` covers exactly the positions of
/// which `f` holds, stamping it on an empty grid gives the grid of `f`.
proof fn lemma_shape_stamped(
    width: nat,
    height: nat,
    offsets: Seq<(i32, i32)>,
    row: int,
    col: int,
    f: spec_fn(int, int) -> bool,
)
    requires
        width > 0,
        height > 0,
        forall|r: int, c: int|
            0 <= r < height && 0 <= c < width ==> #[trigger] Grid::dead(width, height).covers(
                offsets,
                row,
                col,
                r,
                c,
            ) == f(r, c),
    ensures
        Grid::dead(width, height).stamped(offsets, row, col) == Grid::from_fn(width, height, f),
{
    let d = Grid::dead(width, height);
    let a = d.stamped(offsets, row, col);
    let b = Grid::from_fn(width, height, f);
    lemma_from_fn(width, height, f);
    lemma_from_fn(width, height, |r: int, c: int| d.alive(r, c) || d.covers(offsets, row, col, r, c));
    lemma_dead_stays_dead(width, height, 0, 0);
    assert forall|r: int, c: int| a.has(r, c) implies a.alive(r, c) == b.alive(r, c) by {
        lemma_index_of_position(width as int, height as int, r, c);
        assert(!d.alive(r, c));
    }
    lemma_grids_equal(a, b);
}

/// The block with its upper left cell at `(1, 1)`.
spec fn block_shape(r: int, c: int) -> bool {
    1 <= r <= 2 && 1 <= c <= 2
}

/// The blinker lying in row 1 about `(1, 1)`.
spec fn blinker_row_shape(r: int, c: int) -> bool {
    r == 1 && 0 <= c <= 2
}

/// The blinker standing in column 1 about `(1, 1)`.
spec fn blinker_column_shape(r: int, c: int) -> bool {
    c == 1 && 0 <= r <= 2
}

/// The glider about `(1, 1)` and what it has become after one, two, three
/// and four steps.
spec fn glider_shape(phase: int, r: int, c: int) -> bool {
    if phase == 0 {
        (r == 0 && c == 1) || (r == 1 && c == 2) || (r == 2 && 0 <= c <= 2)
    } else if phase == 1 {
        (r == 1 && (c == 0 || c == 2)) || (r == 2 && (c == 1 || c == 2)) || (r == 3 && c == 1)
    } else if phase == 2 {
        (r == 1 && c == 2) || (r == 2 && (c == 0 || c == 2)) || (r == 3 && (c == 1 || c == 2))
    } else if phase == 3 {
        (r == 1 && c == 1) || (r == 2 && (c == 2 || c == 3)) || (r == 3 && (c == 1 || c == 2))
    } else {
        (r == 1 && c == 2) || (r == 2 && c == 3) || (r == 3 && 1 <= c <= 3)
    }
}

/// The glider about `(1, 1)` takes one step from each of its first four
/// forms to the next.
proof fn lemma_glider_phase(width: nat, height: nat, phase: int)
    requires
        width >= 5,
        height >= 5,
        0 <= phase < 4,
    ensures
        Grid::from_fn(width, height, |r: int, c: int| glider_shape(phase, r, c)).step()
            == Grid::from_fn(width, height, |r: int, c: int| glider_shape(phase + 1, r, c)),
{
    let f = |r: int, c: int| glider_shape(phase, r, c);
    let f2 = |r: int, c: int| glider_shape(phase + 1, r, c);
    assert forall|r: int, c: int| 0 <= r < height && 0 <= c < width implies #[trigger] shape_next(
        f,
        width as int,
        height as int,
        r,
        c,
    ) == f2(r, c) by {
    }
    lemma_shape_step(width, height, f, f2);
}

/// On a ring of more than `x` positions the position `x` is itself.
proof fn lemma_wrap_small(n: int)
    requires
        n >= 3,
    ensures
        wrap(0, n) == 0,
        wrap(1, n) == 1,
        wrap(2, n) == 2,
        n >= 4 ==> wrap(3, n) == 3,
{
    lemma_wrap_near(0, n);
    lemma_wrap_near(1, n);
    lemma_wrap_near(2, n);
    if n >= 4 {
        lemma_wrap_near(3, n);
    }
}

/// The block stamped at `(1, 1)` is the block shape.
proof fn lemma_block_placed(width: nat, height: nat)
    requires
        width >= 3,
        height >= 3,
    ensures
        Grid::dead(width, height).stamped(block_offsets(), 1, 1) == Grid::from_fn(
            width,
            height,
            |r: int, c: int| block_shape(r, c),
        ),
{
    let d = Grid::dead(width, height);
    let o = block_offsets();
    lemma_wrap_small(width as int);
    lemma_wrap_small(height as int);
    assert forall|r: int, c: int| 0 <= r < height && 0 <= c < width implies #[trigger] d.covers(
        o,
        1,
        1,
        r,
        c,
    ) == block_shape(r, c) by {
        if block_shape(r, c) {
            let k = (r - 1) * 2 + (c - 1);
            assert(o[k] == ((r - 1) as i32, (c - 1) as i32));
        }
    }
    lemma_shape_stamped(width, height, o, 1, 1, |r: int, c: int| block_shape(r, c));
}

/// The two blinkers stamped at `(1, 1)` are the two blinker shapes.
proof fn lemma_blinker_placed(width: nat, height: nat)
    requires
        width >= 3,
        height >= 3,
    ensures
        Grid::dead(width, height).stamped(blinker_row_offsets(), 1, 1) == Grid::from_fn(
            width,
            height,
            |r: int, c: int| blinker_row_shape(r, c),
        ),
        Grid::dead(width, height).stamped(blinker_column_offsets(), 1, 1) == Grid::from_fn(
            width,
            height,
            |r: int, c: int| blinker_column_shape(r, c),
        ),
{
    let d = Grid::dead(width, height);
    let across = blinker_row_offsets();
    let down = blinker_column_offsets();
    lemma_wrap_small(width as int);
    lemma_wrap_small(height as int);
    assert forall|r: int, c: int| 0 <= r < height && 0 <= c < width implies #[trigger] d.covers(
        across,
        1,
        1,
        r,
        c,
    ) == blinker_row_shape(r, c) by {
        if blinker_row_shape(r, c) {
            assert(across[c] == (0i32, (c - 1) as i32));
        }
    }
    lemma_shape_stamped(width, height, across, 1, 1, |r: int, c: int| blinker_row_shape(r, c));
    assert forall|r: int, c: int| 0 <= r < height && 0 <= c < width implies #[trigger] d.covers(
        down,
        1,
        1,
        r,
        c,
    ) == blinker_column_shape(r, c) by {
        if blinker_column_shape(r, c) {
            assert(down[r] == ((r - 1) as i32, 0i32));
        }
    }
    lemma_shape_stamped(width, height, down, 1, 1, |r: int, c: int| blinker_column_shape(r, c));
}

/// The glider stamped at `(1, 1)` is its first form, and stamped at
/// `(2, 2)` its form after four steps.
proof fn lemma_glider_placed(width: nat, height: nat)
    requires
        width >= 4,
        height >= 4,
    ensures
        Grid::dead(width, height).stamped(glider_offsets(), 1, 1) == Grid::from_fn(
            width,
            height,
            |r: int, c: int| glider_shape(0, r, c),
        ),
        Grid::dead(width, height).stamped(glider_offsets(), 2, 2) == Grid::from_fn(
            width,
            height,
            |r: int, c: int| glider_shape(4, r, c),
        ),
{
    let d = Grid::dead(width, height);
    let o = glider_offsets();
    lemma_wrap_small(width as int);
    lemma_wrap_small(height as int);
    assert(o[0] == (-1i32, 0i32) && o[1] == (0i32, 1i32) && o[2] == (1i32, -1i32) && o[3] == (1i32, 0i32)
        && o[4] == (1i32, 1i32));
    assert forall|r: int, c: int| 0 <= r < height && 0 <= c < width implies #[trigger] d.covers(
        o,
        1,
        1,
        r,
        c,
    ) == glider_shape(0, r, c) by {
        if glider_shape(0, r, c) {
            let k = if r == 0 {
                0
            } else if r == 1 {
                1
            } else {
                c + 2
            };
            assert(r == wrap(1 + o[k].0, height as int) && c == wrap(1 + o[k].1, width as int));
        }
    }
    lemma_shape_stamped(width, height, o, 1, 1, |r: int, c: int| glider_shape(0, r, c));
    assert forall|r: int, c: int| 0 <= r < height && 0 <= c < width implies #[trigger] d.covers(
        o,
        2,
        2,
        r,
        c,
    ) == glider_shape(4, r, c) by {
        if glider_shape(4, r, c) {
            let k = if r == 1 {
                0
            } else if r == 2 {
                1
            } else {
                c + 1
            };
            assert(r == wrap(2 + o[k].0, height as int) && c == wrap(2 + o[k].1, width as int));
        }
    }
    lemma_shape_stamped(width, height, o, 2, 2, |r: int, c: int| glider_shape(4, r, c));
}

/// A block is a still life: wherever it is stamped on an empty grid of at
/// least three rows and three columns, a step leaves the grid as it is, and
/// each of its four cells has exactly three live neighbours.
pub proof fn lemma_block_stands_still(width: nat, height: nat, row: int, col: int)
    requires
        width >= 3,
        height >= 3,
    ensures
        Grid::dead(width, height).stamped(block_offsets(), row, col).step() == Grid::dead(
            width,
            height,
        ).stamped(block_offsets(), row, col),
        forall|dr: int, dc: int|
            0 <= dr <= 1 && 0 <= dc <= 1 ==> #[trigger] Grid::dead(width, height).stamped(
                block_offsets(),
                row,
                col,
            ).neighbor_count(wrap(row + dr, height as int), wrap(col + dc, width as int)) == 3,
{
    let h = height as int;
    let w = width as int;
    let d = Grid::dead(width, height);
    let f = |r: int, c: int| block_shape(r, c);
    let base = d.stamped(block_offsets(), 1, 1);
    let b = d.stamped(block_offsets(), row, col);
    lemma_block_placed(width, height);
    assert forall|r: int, c: int| 0 <= r < height && 0 <= c < width implies #[trigger] shape_next(
        f,
        w,
        h,
        r,
        c,
    ) == f(r, c) by {
    }
    lemma_shape_step(width, height, f, f);
    lemma_from_fn(width, height, f);
    lemma_pattern_moved(width, height, block_offsets(), 1, 1, row - 1, col - 1);
    assert(1 + (row - 1) == row && 1 + (col - 1) == col);
    assert(b == base.translated(row - 1, col - 1));
    lemma_step_translated(base, row - 1, col - 1);
    lemma_wrap_small(h);
    lemma_wrap_small(w);
    assert forall|dr: int, dc: int| 0 <= dr <= 1 && 0 <= dc <= 1 implies #[trigger] b.neighbor_count(
        wrap(row + dr, h),
        wrap(col + dc, w),
    ) == 3 by {
        let r = wrap(row + dr, h);
        let c = wrap(col + dc, w);
        lemma_wrap_sum(row + dr, -(row - 1), h);
        lemma_wrap_sum(col + dc, -(col - 1), w);
        assert(row + dr + (-(row - 1)) == dr + 1);
        assert(col + dc + (-(col - 1)) == dc + 1);
        assert(wrap(r - (row - 1), h) == dr + 1);
        assert(wrap(c - (col - 1), w) == dc + 1);
        lemma_translated_count(base, row - 1, col - 1, r, c);
        assert(base.has(base.north(dr + 1), base.west(dc + 1)));
        assert(base.has(base.south(dr + 1), base.east(dc + 1)));
        assert(base.neighbor_count(dr + 1, dc + 1) == 3);
    }
}

/// A blinker has period two: wherever it is stamped on an empty grid of at
/// least four rows and four columns, a step turns the three cells in a row
/// into the three cells in a column through the same middle cell, and the
/// next step turns them back.
pub proof fn lemma_blinker_turns(width: nat, height: nat, row: int, col: int)
    requires
        width >= 4,
        height >= 4,
    ensures
        Grid::dead(width, height).stamped(blinker_row_offsets(), row, col).step() == Grid::dead(
            width,
            height,
        ).stamped(blinker_column_offsets(), row, col),
        Grid::dead(width, height).stamped(blinker_column_offsets(), row, col).step() == Grid::dead(
            width,
            height,
        ).stamped(blinker_row_offsets(), row, col),
        Grid::dead(width, height).stamped(blinker_row_offsets(), row, col).step().step()
            == Grid::dead(width, height).stamped(blinker_row_offsets(), row, col),
{
    let h = height as int;
    let w = width as int;
    let d = Grid::dead(width, height);
    let across = |r: int, c: int| blinker_row_shape(r, c);
    let down = |r: int, c: int| blinker_column_shape(r, c);
    let lying = d.stamped(blinker_row_offsets(), 1, 1);
    let standing = d.stamped(blinker_column_offsets(), 1, 1);
    lemma_blinker_placed(width, height);
    assert forall|r: int, c: int| 0 <= r < height && 0 <= c < width implies #[trigger] shape_next(
        across,
        w,
        h,
        r,
        c,
    ) == down(r, c) by {
    }
    lemma_shape_step(width, height, across, down);
    assert forall|r: int, c: int| 0 <= r < height && 0 <= c < width implies #[trigger] shape_next(
        down,
        w,
        h,
        r,
        c,
    ) == across(r, c) by {
    }
    lemma_shape_step(width, height, down, across);
    lemma_from_fn(width, height, across);
    lemma_from_fn(width, height, down);
    lemma_pattern_moved(width, height, blinker_row_offsets(), 1, 1, row - 1, col - 1);
    lemma_pattern_moved(width, height, blinker_column_offsets(), 1, 1, row - 1, col - 1);
    assert(1 + (row - 1) == row && 1 + (col - 1) == col);
    lemma_step_translated(lying, row - 1, col - 1);
    lemma_step_translated(standing, row - 1, col - 1);
}

/// A glider travels: wherever it is stamped on an empty grid of at least
/// five rows and five columns, four steps give the glider stamped one row
/// further down and one column further right, which is the first grid
/// moved by one row and one column round the torus.
pub proof fn lemma_glider_travels(width: nat, height: nat, row: int, col: int)
    requires
        width >= 5,
        height >= 5,
    ensures
        Grid::dead(width, height).stamped(glider_offsets(), row, col).step().step().step().step()
            == Grid::dead(width, height).stamped(glider_offsets(), row + 1, col + 1),
        Grid::dead(width, height).stamped(glider_offsets(), row, col).step().step().step().step()
            == Grid::dead(width, height).stamped(glider_offsets(), row, col).translated(1, 1),
{
    let d = Grid::dead(width, height);
    let g0 = Grid::from_fn(width, height, |r: int, c: int| glider_shape(0, r, c));
    let g1 = Grid::from_fn(width, height, |r: int, c: int| glider_shape(1, r, c));
    let g2 = Grid::from_fn(width, height, |r: int, c: int| glider_shape(2, r, c));
    let g3 = Grid::from_fn(width, height, |r: int, c: int| glider_shape(3, r, c));
    let g4 = Grid::from_fn(width, height, |r: int, c: int| glider_shape(4, r, c));
    lemma_glider_placed(width, height);
    lemma_glider_phase(width, height, 0);
    lemma_glider_phase(width, height, 1);
    lemma_glider_phase(width, height, 2);
    lemma_glider_phase(width, height, 3);
    assert(g0.step() == g1 && g1.step() == g2 && g2.step() == g3 && g3.step() == g4);
    lemma_from_fn(width, height, |r: int, c: int| glider_shape(0, r, c));
    lemma_from_fn(width, height, |r: int, c: int| glider_shape(1, r, c));
    lemma_from_fn(width, height, |r: int, c: int| glider_shape(2, r, c));
    lemma_from_fn(width, height, |r: int, c: int| glider_shape(3, r, c));
    let dr = row - 1;
    let dc = col - 1;
    lemma_pattern_moved(width, height, glider_offsets(), 1, 1, dr, dc);
    lemma_pattern_moved(width, height, glider_offsets(), 2, 2, dr, dc);
    lemma_pattern_moved(width, height, glider_offsets(), row, col, 1, 1);
    assert(1 + dr == row && 1 + dc == col && 2 + dr == row + 1 && 2 + dc == col + 1);
    let start = d.stamped(glider_offsets(), row, col);
    assert(start == g0.translated(dr, dc));
    lemma_step_translated(g0, dr, dc);
    lemma_step_translated(g1, dr, dc);
    lemma_step_translated(g2, dr, dc);
    lemma_step_translated(g3, dr, dc);
    assert(start.step() == g1.translated(dr, dc));
    assert(start.step().step() == g2.translated(dr, dc));
    assert(start.step().step().step() == g3.translated(dr, dc));
    assert(start.step().step().step().step() == g4.translated(dr, dc));
}

/// The distance between `x` and 8.
spec fn from_eight(x: int) -> int {
    if x < 8 {
        8 - x
    } else {
        x - 8
    }
}

/// The pulsar about `(8, 8)` in its three generations, each said for one
/// quarter by the distances `a` and `b` of a cell from row 8 and column 8.
spec fn pulsar_form(phase: int, r: int, c: int) -> bool {
    let a = from_eight(r);
    let b = from_eight(c);
    if phase == 0 {
        ((a == 1 || a == 6) && 2 <= b <= 4) || ((b == 1 || b == 6) && 2 <= a <= 4)
    } else if phase == 1 {
        (a == 1 && (b == 2 || b == 3)) || (a == 2 && (b == 1 || b == 3 || b == 5)) || (a == 3 && (b == 1
            || b == 2 || b == 5 || b == 6 || b == 7)) || (a == 5 && (b == 2 || b == 3)) || ((a == 6 || a
            == 7) && b == 3)
    } else {
        (a == 1 && 2 <= b <= 4) || (a == 2 && (b == 1 || b == 3 || b == 5)) || (a == 3 && (b == 1 || b
            == 2 || b == 4 || b == 5 || b == 6)) || (a == 4 && (b == 1 || b == 3 || b == 6)) || (a == 5
            && (b == 2 || b == 3)) || (a == 6 && (b == 3 || b == 4))
    }
}

/// The pulsar about `(8, 8)` takes one step from each of its generations to
/// the next, and from the third to the first.
proof fn lemma_pulsar_phase(width: nat, height: nat, phase: int)
    requires
        width >= 16,
        height >= 16,
        0 <= phase < 3,
    ensures
        Grid::from_fn(width, height, |r: int, c: int| pulsar_form(phase, r, c)).step()
            == Grid::from_fn(
            width,
            height,
            |r: int, c: int| pulsar_form(if phase == 2 { 0 } else { phase + 1 }, r, c),
        ),
{
    let next = if phase == 2 { 0 } else { phase + 1 };
    let f = |r: int, c: int| pulsar_form(phase, r, c);
    let f2 = |r: int, c: int| pulsar_form(next, r, c);
    assert forall|r: int, c: int| 0 <= r < height && 0 <= c < width implies #[trigger] shape_next(
        f,
        width as int,
        height as int,
        r,
        c,
    ) == f2(r, c) by {
    }
    lemma_shape_step(width, height, f, f2);
}

/// The pulsar stamped at `(8, 8)` is its first generation.
proof fn lemma_pulsar_placed(width: nat, height: nat)
    requires
        width >= 15,
        height >= 15,
    ensures
        Grid::dead(width, height).stamped(pulsar_offsets(), 8, 8) == Grid::from_fn(
            width,
            height,
            |r: int, c: int| pulsar_form(0, r, c),
        ),
{
    let d = Grid::dead(width, height);
    let o = pulsar_offsets();
    let h = height as int;
    let w = width as int;
    lemma_pulsar_offsets_are_its_shape();
    assert forall|r: int, c: int| 0 <= r < height && 0 <= c < width implies #[trigger] d.covers(
        o,
        8,
        8,
        r,
        c,
    ) == pulsar_form(0, r, c) by {
        assert(pulsar_form(0, r, c) == pulsar_shape(r - 8, c - 8));
        if d.covers(o, 8, 8, r, c) {
            let k = choose|k: int|
                0 <= k < o.len() && r == wrap(8 + (#[trigger] o[k]).0, h) && c == wrap(8 + o[k].1, w);
            assert(pulsar_shape(o[k].0 as int, o[k].1 as int));
            lemma_wrap_near(8 + o[k].0, h);
            lemma_wrap_near(8 + o[k].1, w);
        }
        if pulsar_shape(r - 8, c - 8) {
            let k = choose|k: int| 0 <= k < 48 && (#[trigger] o[k]).0 == r - 8 && o[k].1 == c - 8;
            lemma_wrap_near(r, h);
            lemma_wrap_near(c, w);
            assert(r == wrap(8 + o[k].0, h) && c == wrap(8 + o[k].1, w));
        }
    }
    lemma_shape_stamped(width, height, o, 8, 8, |r: int, c: int| pulsar_form(0, r, c));
}

/// A pulsar has period three: wherever it is stamped on an empty grid of at
/// least sixteen rows and sixteen columns, three steps give the same grid
/// again.
pub proof fn lemma_pulsar_returns(width: nat, height: nat, row: int, col: int)
    requires
        width >= 16,
        height >= 16,
    ensures
        Grid::dead(width, height).stamped(pulsar_offsets(), row, col).step().step().step()
            == Grid::dead(width, height).stamped(pulsar_offsets(), row, col),
{
    let d = Grid::dead(width, height);
    let g0 = Grid::from_fn(width, height, |r: int, c: int| pulsar_form(0, r, c));
    let g1 = Grid::from_fn(width, height, |r: int, c: int| pulsar_form(1, r, c));
    let g2 = Grid::from_fn(width, height, |r: int, c: int| pulsar_form(2, r, c));
    lemma_pulsar_placed(width, height);
    lemma_pulsar_phase(width, height, 0);
    lemma_pulsar_phase(width, height, 1);
    lemma_pulsar_phase(width, height, 2);
    assert(g0.step() == g1 && g1.step() == g2 && g2.step() == g0);
    lemma_from_fn(width, height, |r: int, c: int| pulsar_form(0, r, c));
    lemma_from_fn(width, height, |r: int, c: int| pulsar_form(1, r, c));
    lemma_from_fn(width, height, |r: int, c: int| pulsar_form(2, r, c));
    let dr = row - 8;
    let dc = col - 8;
    lemma_pattern_moved(width, height, pulsar_offsets(), 8, 8, dr, dc);
    assert(8 + dr == row && 8 + dc == col);
    let start = d.stamped(pulsar_offsets(), row, col);
    assert(start == g0.translated(dr, dc));
    lemma_step_translated(g0, dr, dc);
    lemma_step_translated(g1, dr, dc);
    lemma_step_translated(g2, dr, dc);
    assert(start.step() == g1.translated(dr, dc));
    assert(start.step().step() == g2.translated(dr, dc));
}

} // verus!
