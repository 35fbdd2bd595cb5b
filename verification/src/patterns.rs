//! The two patterns that a universe can stamp on itself, each as a list of
//! offsets `(rows down, columns right)` from an anchor cell.
use vstd::prelude::*;

verus! {

/// The fewest rows and columns on which a glider is stamped.
pub const GLIDER_MIN_SIZE: u32 = 3;

/// The fewest rows and columns on which a pulsar is stamped: the width of
/// the oscillator in its widest generation.
pub const PULSAR_MIN_SIZE: u32 = 15;

/// The five cells of a glider heading down and to the right:
///
/// ```text
/// . X .
/// . . X
/// X X X
/// ```
///
/// The anchor is the middle of the three by three square.
pub open spec fn glider_offsets() -> Seq<(i32, i32)> {
    seq![(-1i32, 0i32), (0i32, 1i32), (1i32, -1i32), (1i32, 0i32), (1i32, 1i32)]
}

/// The four cells of a block, the anchor being its upper left cell.
pub open spec fn block_offsets() -> Seq<(i32, i32)> {
    seq![(0i32, 0i32), (0i32, 1i32), (1i32, 0i32), (1i32, 1i32)]
}

/// The three cells of a blinker lying in a row, the anchor in the middle.
pub open spec fn blinker_row_offsets() -> Seq<(i32, i32)> {
    seq![(0i32, -1i32), (0i32, 0i32), (0i32, 1i32)]
}

/// The three cells of a blinker standing in a column, the anchor in the
/// middle.
pub open spec fn blinker_column_offsets() -> Seq<(i32, i32)> {
    seq![(-1i32, 0i32), (0i32, 0i32), (1i32, 0i32)]
}

/// The forty-eight cells of a pulsar about its centre, the anchor: in each
/// quarter three bars of three cells, at distance 1 and 6 from the axes.
pub open spec fn pulsar_offsets() -> Seq<(i32, i32)> {
    seq![
        (-6i32, -4i32), (-6i32, -3i32), (-6i32, -2i32), (-6i32, 2i32), (-6i32, 3i32), (-6i32, 4i32),
        (-4i32, -6i32), (-4i32, -1i32), (-4i32, 1i32), (-4i32, 6i32),
        (-3i32, -6i32), (-3i32, -1i32), (-3i32, 1i32), (-3i32, 6i32),
        (-2i32, -6i32), (-2i32, -1i32), (-2i32, 1i32), (-2i32, 6i32),
        (-1i32, -4i32), (-1i32, -3i32), (-1i32, -2i32), (-1i32, 2i32), (-1i32, 3i32), (-1i32, 4i32),
        (1i32, -4i32), (1i32, -3i32), (1i32, -2i32), (1i32, 2i32), (1i32, 3i32), (1i32, 4i32),
        (2i32, -6i32), (2i32, -1i32), (2i32, 1i32), (2i32, 6i32),
        (3i32, -6i32), (3i32, -1i32), (3i32, 1i32), (3i32, 6i32),
        (4i32, -6i32), (4i32, -1i32), (4i32, 1i32), (4i32, 6i32),
        (6i32, -4i32), (6i32, -3i32), (6i32, -2i32), (6i32, 2i32), (6i32, 3i32), (6i32, 4i32),
    ]
}

/// Whether `(dr, dc)` is an offset of the pulsar, said by its shape: one
/// coordinate is 1 or 6 away from the centre, the other 2, 3 or 4.
pub open spec fn pulsar_shape(dr: int, dc: int) -> bool {
    let r = if dr < 0 { -dr } else { dr };
    let c = if dc < 0 { -dc } else { dc };
    ((r == 1 || r == 6) && 2 <= c <= 4) || ((c == 1 || c == 6) && 2 <= r <= 4)
}

/// The offsets of the glider.
pub fn glider_cells() -> (cells: Vec<(i32, i32)>)
    ensures
        cells@ == glider_offsets(),
{
    let cells = vec![(-1i32, 0i32), (0i32, 1i32), (1i32, -1i32), (1i32, 0i32), (1i32, 1i32)];
    assert(cells@ =~= glider_offsets());
    cells
}

/// The offsets of the pulsar.
pub fn pulsar_cells() -> (cells: Vec<(i32, i32)>)
    ensures
        cells@ == pulsar_offsets(),
{
    let cells = vec![
        (-6i32, -4i32), (-6i32, -3i32), (-6i32, -2i32), (-6i32, 2i32), (-6i32, 3i32), (-6i32, 4i32),
        (-4i32, -6i32), (-4i32, -1i32), (-4i32, 1i32), (-4i32, 6i32),
        (-3i32, -6i32), (-3i32, -1i32), (-3i32, 1i32), (-3i32, 6i32),
        (-2i32, -6i32), (-2i32, -1i32), (-2i32, 1i32), (-2i32, 6i32),
        (-1i32, -4i32), (-1i32, -3i32), (-1i32, -2i32), (-1i32, 2i32), (-1i32, 3i32), (-1i32, 4i32),
        (1i32, -4i32), (1i32, -3i32), (1i32, -2i32), (1i32, 2i32), (1i32, 3i32), (1i32, 4i32),
        (2i32, -6i32), (2i32, -1i32), (2i32, 1i32), (2i32, 6i32),
        (3i32, -6i32), (3i32, -1i32), (3i32, 1i32), (3i32, 6i32),
        (4i32, -6i32), (4i32, -1i32), (4i32, 1i32), (4i32, 6i32),
        (6i32, -4i32), (6i32, -3i32), (6i32, -2i32), (6i32, 2i32), (6i32, 3i32), (6i32, 4i32),
    ];
    assert(cells@ =~= pulsar_offsets());
    cells
}

/// The list of the pulsar's offsets holds exactly the offsets of its
/// shape, each of them once: there are forty-eight.
pub proof fn lemma_pulsar_offsets_are_its_shape()
    ensures
        pulsar_offsets().len() == 48,
        pulsar_offsets().no_duplicates(),
        forall|dr: int, dc: int|
            pulsar_shape(dr, dc) <==> exists|k: int|
                0 <= k < 48 && (#[trigger] pulsar_offsets()[k]).0 == dr && pulsar_offsets()[k].1 == dc,
{
    let s = pulsar_offsets();
    assert(s.len() == 48);
    assert forall|dr: int, dc: int| pulsar_shape(dr, dc) implies exists|k: int|
        0 <= k < 48 && (#[trigger] s[k]).0 == dr && s[k].1 == dc by {
        if dr == -6 {
            assert(s[0] == (-6i32, -4i32) && s[1] == (-6i32, -3i32) && s[2] == (-6i32, -2i32));
            assert(s[3] == (-6i32, 2i32) && s[4] == (-6i32, 3i32) && s[5] == (-6i32, 4i32));
        } else if dr == -4 {
            assert(s[6] == (-4i32, -6i32) && s[7] == (-4i32, -1i32) && s[8] == (-4i32, 1i32) && s[9] == (
                -4i32,
                6i32,
            ));
        } else if dr == -3 {
            assert(s[10] == (-3i32, -6i32) && s[11] == (-3i32, -1i32) && s[12] == (-3i32, 1i32) && s[13]
                == (-3i32, 6i32));
        } else if dr == -2 {
            assert(s[14] == (-2i32, -6i32) && s[15] == (-2i32, -1i32) && s[16] == (-2i32, 1i32) && s[17]
                == (-2i32, 6i32));
        } else if dr == -1 {
            assert(s[18] == (-1i32, -4i32) && s[19] == (-1i32, -3i32) && s[20] == (-1i32, -2i32));
            assert(s[21] == (-1i32, 2i32) && s[22] == (-1i32, 3i32) && s[23] == (-1i32, 4i32));
        } else if dr == 1 {
            assert(s[24] == (1i32, -4i32) && s[25] == (1i32, -3i32) && s[26] == (1i32, -2i32));
            assert(s[27] == (1i32, 2i32) && s[28] == (1i32, 3i32) && s[29] == (1i32, 4i32));
        } else if dr == 2 {
            assert(s[30] == (2i32, -6i32) && s[31] == (2i32, -1i32) && s[32] == (2i32, 1i32) && s[33] == (
                2i32,
                6i32,
            ));
        } else if dr == 3 {
            assert(s[34] == (3i32, -6i32) && s[35] == (3i32, -1i32) && s[36] == (3i32, 1i32) && s[37] == (
                3i32,
                6i32,
            ));
        } else if dr == 4 {
            assert(s[38] == (4i32, -6i32) && s[39] == (4i32, -1i32) && s[40] == (4i32, 1i32) && s[41] == (
                4i32,
                6i32,
            ));
        } else {
            assert(s[42] == (6i32, -4i32) && s[43] == (6i32, -3i32) && s[44] == (6i32, -2i32));
            assert(s[45] == (6i32, 2i32) && s[46] == (6i32, 3i32) && s[47] == (6i32, 4i32));
        }
    }
}

} // verus!
