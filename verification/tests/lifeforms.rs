use game_of_life::patterns::{glider_cells, pulsar_cells, GLIDER_MIN_SIZE, PULSAR_MIN_SIZE};
use game_of_life::{GridError, Universe};

fn alive(u: &Universe) -> Vec<(u32, u32)> {
    let mut out = Vec::new();
    for row in 0..u.height() {
        for col in 0..u.width() {
            if u.get_cells().contains(u.get_index(row, col)) {
                out.push((row, col));
            }
        }
    }
    out
}

fn moved(cells: &[(u32, u32)], dr: u32, dc: u32, height: u32, width: u32) -> Vec<(u32, u32)> {
    let mut out: Vec<(u32, u32)> =
        cells.iter().map(|&(r, c)| ((r + dr) % height, (c + dc) % width)).collect();
    out.sort();
    out
}

#[test]
fn a_live_corner_is_counted_across_every_edge() {
    let (h, w) = (5u32, 7u32);
    let mut u = Universe::new(w, h).unwrap();
    u.toggle_cell(0, 0).unwrap();
    let around = [
        (h - 1, w - 1),
        (h - 1, 0),
        (h - 1, 1),
        (0, w - 1),
        (0, 1),
        (1, w - 1),
        (1, 0),
        (1, 1),
    ];
    for row in 0..h {
        for col in 0..w {
            let expected = if around.contains(&(row, col)) { 1 } else { 0 };
            assert_eq!(u.live_neighbor_count_performant(row, col), expected);
            assert_eq!(u.live_neighbor_count(row, col), expected);
        }
    }
}

#[test]
fn wrap_is_the_same_in_both_directions() {
    // A cell in the far corner is counted by the near corner, and the near
    // corner by the far one.
    let mut u = Universe::new(6, 4).unwrap();
    u.toggle_cell(3, 5).unwrap();
    assert_eq!(u.live_neighbor_count_performant(0, 0), 1);
    assert_eq!(u.live_neighbor_count_performant(0, 5), 1);
    assert_eq!(u.live_neighbor_count_performant(3, 0), 1);
    u.toggle_cell(3, 5).unwrap();
    u.toggle_cell(0, 0).unwrap();
    assert_eq!(u.live_neighbor_count_performant(3, 5), 1);
    assert_eq!(u.live_neighbor_count_performant(3, 0), 1);
    assert_eq!(u.live_neighbor_count_performant(0, 5), 1);
}

#[test]
fn a_block_stands_still() {
    for (w, h, row, col) in [(6u32, 6u32, 2u32, 2u32), (3, 3, 0, 0), (8, 5, 4, 7), (4, 4, 3, 3)] {
        let mut u = Universe::new(w, h).unwrap();
        let block =
            [(row, col), (row, (col + 1) % w), ((row + 1) % h, col), ((row + 1) % h, (col + 1) % w)];
        u.set_cells(&block).unwrap();
        let before = alive(&u);
        for &(r, c) in block.iter() {
            assert_eq!(u.live_neighbor_count_performant(r, c), 3);
        }
        u.tick();
        assert_eq!(alive(&u), before);
        for &(r, c) in block.iter() {
            assert_eq!(u.live_neighbor_count_performant(r, c), 3);
        }
        u.tick();
        assert_eq!(alive(&u), before);
    }
}

#[test]
fn a_block_on_two_columns_does_not_stand() {
    let mut u = Universe::new(2, 6).unwrap();
    u.set_cells(&[(2, 0), (2, 1), (3, 0), (3, 1)]).unwrap();
    assert_eq!(u.live_neighbor_count_performant(2, 0), 5);
    u.tick();
    assert_eq!(alive(&u), vec![(1, 0), (1, 1), (4, 0), (4, 1)]);
}

#[test]
fn a_blinker_turns_and_turns_back() {
    let mut u = Universe::new(7, 6).unwrap();
    u.set_cells(&[(2, 2), (2, 3), (2, 4)]).unwrap();
    u.tick();
    assert_eq!(alive(&u), vec![(1, 3), (2, 3), (3, 3)]);
    u.tick();
    assert_eq!(alive(&u), vec![(2, 2), (2, 3), (2, 4)]);
}

#[test]
fn a_blinker_turns_across_the_edges_of_a_small_grid() {
    let mut u = Universe::new(4, 4).unwrap();
    u.set_cells(&[(0, 3), (0, 0), (0, 1)]).unwrap();
    u.tick();
    assert_eq!(alive(&u), vec![(0, 0), (1, 0), (3, 0)]);
    u.tick();
    assert_eq!(alive(&u), vec![(0, 0), (0, 1), (0, 3)]);
}

#[test]
fn the_glider_has_its_five_cells() {
    assert_eq!(GLIDER_MIN_SIZE, 3);
    assert_eq!(glider_cells(), vec![(-1, 0), (0, 1), (1, -1), (1, 0), (1, 1)]);
    let mut u = Universe::new(6, 6).unwrap();
    assert_eq!(u.add_glider(2, 2), Ok(()));
    assert_eq!(alive(&u), vec![(1, 2), (2, 3), (3, 1), (3, 2), (3, 3)]);
}

#[test]
fn a_glider_is_wrapped_round_the_edges() {
    let mut u = Universe::new(7, 5).unwrap();
    u.add_glider(0, 0).unwrap();
    assert_eq!(alive(&u), vec![(0, 1), (1, 0), (1, 1), (1, 6), (4, 0)]);

    let mut far = Universe::new(7, 5).unwrap();
    far.add_glider(4, 6).unwrap();
    assert_eq!(alive(&far), vec![(0, 0), (0, 5), (0, 6), (3, 6), (4, 0)]);

    // An anchor outside the grid is wrapped as well: row 10 is row 0 of
    // five, column 15 is column 1 of seven.
    let mut outside = Universe::new(7, 5).unwrap();
    outside.add_glider(10, 15).unwrap();
    let mut inside = Universe::new(7, 5).unwrap();
    inside.add_glider(0, 1).unwrap();
    assert_eq!(alive(&outside), alive(&inside));

    let mut least = Universe::new(3, 3).unwrap();
    least.add_glider(1, 1).unwrap();
    assert_eq!(alive(&least), vec![(0, 1), (1, 2), (2, 0), (2, 1), (2, 2)]);
}

#[test]
fn a_glider_is_refused_on_a_grid_too_small() {
    let mut narrow = Universe::new(2, 9).unwrap();
    narrow.toggle_cell(4, 1).unwrap();
    assert_eq!(narrow.add_glider(3, 1), Err(GridError::GridTooSmall));
    assert_eq!(alive(&narrow), vec![(4, 1)]);
    let mut low = Universe::new(9, 2).unwrap();
    assert_eq!(low.add_glider(0, 0), Err(GridError::GridTooSmall));
    assert!(alive(&low).is_empty());
}

#[test]
fn stamping_keeps_what_was_alive() {
    let mut u = Universe::new(6, 6).unwrap();
    u.set_cells(&[(0, 0), (2, 3), (5, 5)]).unwrap();
    u.add_glider(2, 2).unwrap();
    assert_eq!(alive(&u), vec![(0, 0), (1, 2), (2, 3), (3, 1), (3, 2), (3, 3), (5, 5)]);
    u.add_glider(2, 2).unwrap();
    assert_eq!(alive(&u).len(), 7);
}

#[test]
fn a_glider_moves_one_cell_down_and_right_in_four_steps() {
    let mut u = Universe::new(7, 5).unwrap();
    u.add_glider(0, 0).unwrap();
    u.tick();
    assert_eq!(alive(&u), vec![(0, 1), (0, 6), (1, 0), (1, 1), (2, 0)]);
    u.tick();
    assert_eq!(alive(&u), vec![(0, 1), (1, 1), (1, 6), (2, 0), (2, 1)]);
    u.tick();
    assert_eq!(alive(&u), vec![(0, 0), (1, 1), (1, 2), (2, 0), (2, 1)]);
    u.tick();
    assert_eq!(alive(&u), vec![(0, 1), (1, 2), (2, 0), (2, 1), (2, 2)]);
    let mut next = Universe::new(7, 5).unwrap();
    next.add_glider(1, 1).unwrap();
    assert_eq!(alive(&u), alive(&next));
}

#[test]
fn a_glider_travels_from_every_anchor_of_a_large_grid() {
    let (w, h) = (40u32, 33u32);
    for &(row, col) in
        [(0u32, 0u32), (16, 20), (32, 39), (0, 39), (32, 0), (31, 38), (1, 1), (7, 39)].iter()
    {
        let mut u = Universe::new(w, h).unwrap();
        u.add_glider(row, col).unwrap();
        let start = alive(&u);
        assert_eq!(start.len(), 5);
        for _ in 0..4 {
            u.tick();
        }
        assert_eq!(alive(&u), moved(&start, 1, 1, h, w));
        for _ in 0..4 * 35 {
            u.tick();
        }
        assert_eq!(alive(&u), moved(&start, 36 % h, 36 % w, h, w));
    }
}

#[test]
fn glider_on_six_by_six_comes_back_moved_after_four_steps() {
    let seed = [(1u32, 2u32), (2, 3), (3, 1), (3, 2), (3, 3)];
    let mut u = Universe::new(6, 6).unwrap();
    u.set_cells(&seed).unwrap();
    for _ in 0..4 {
        u.tick();
    }
    assert_eq!(alive(&u), vec![(2, 3), (3, 4), (4, 2), (4, 3), (4, 4)]);
    assert_eq!(alive(&u), moved(&seed, 1, 1, 6, 6));
    // One step more the glider has its next form, which is no copy of the
    // first.
    u.tick();
    assert_eq!(alive(&u), vec![(3, 2), (3, 4), (4, 3), (4, 4), (5, 3)]);
    assert_ne!(alive(&u), moved(&seed, 1, 1, 6, 6));
    for _ in 0..3 {
        u.tick();
    }
    assert_eq!(alive(&u), moved(&seed, 2, 2, 6, 6));
}

#[test]
fn the_pulsar_has_forty_eight_cells_in_four_like_quarters() {
    assert_eq!(PULSAR_MIN_SIZE, 15);
    let cells = pulsar_cells();
    assert_eq!(cells.len(), 48);
    let mut sorted = cells.clone();
    sorted.sort();
    sorted.dedup();
    assert_eq!(sorted.len(), 48);
    for &(r, c) in cells.iter() {
        assert!(cells.contains(&(-r, c)));
        assert!(cells.contains(&(r, -c)));
        assert!(cells.contains(&(c, r)));
        let (a, b) = (r.abs(), c.abs());
        assert!(((a == 1 || a == 6) && (2..=4).contains(&b)) || ((b == 1 || b == 6) && (2..=4).contains(&a)));
    }
}

#[test]
fn a_pulsar_is_stamped_about_its_centre() {
    let mut u = Universe::new(17, 17).unwrap();
    assert_eq!(u.add_pulsar(8, 8), Ok(()));
    let cells = alive(&u);
    assert_eq!(cells.len(), 48);
    let row_two: Vec<u32> = cells.iter().filter(|p| p.0 == 2).map(|p| p.1).collect();
    assert_eq!(row_two, vec![4, 5, 6, 10, 11, 12]);
    let row_four: Vec<u32> = cells.iter().filter(|p| p.0 == 4).map(|p| p.1).collect();
    assert_eq!(row_four, vec![2, 7, 9, 14]);
    let row_seven: Vec<u32> = cells.iter().filter(|p| p.0 == 7).map(|p| p.1).collect();
    assert_eq!(row_seven, vec![4, 5, 6, 10, 11, 12]);
    assert!(cells.iter().all(|p| p.0 != 8 && p.1 != 8 && p.0 != 3 && p.0 != 13));
}

#[test]
fn a_pulsar_comes_back_after_three_steps() {
    let mut u = Universe::new(18, 16).unwrap();
    u.add_pulsar(3, 15).unwrap();
    let start = alive(&u);
    assert_eq!(start.len(), 48);
    u.tick();
    assert_eq!(alive(&u).len(), 56);
    u.tick();
    assert_eq!(alive(&u).len(), 72);
    u.tick();
    assert_eq!(alive(&u), start);
}

#[test]
fn a_pulsar_needs_sixteen_rows_and_columns_to_come_back() {
    let mut enough = Universe::new(16, 16).unwrap();
    enough.add_pulsar(0, 15).unwrap();
    let start = alive(&enough);
    for _ in 0..3 {
        enough.tick();
    }
    assert_eq!(alive(&enough), start);

    let mut tight = Universe::new(15, 15).unwrap();
    tight.add_pulsar(7, 7).unwrap();
    let start = alive(&tight);
    for _ in 0..3 {
        tight.tick();
    }
    assert_ne!(alive(&tight), start);
}

#[test]
fn a_glider_needs_five_rows_and_columns_to_travel() {
    let mut tight = Universe::new(4, 4).unwrap();
    tight.add_glider(1, 1).unwrap();
    let start = alive(&tight);
    for _ in 0..4 {
        tight.tick();
    }
    assert_ne!(alive(&tight), moved(&start, 1, 1, 4, 4));

    let mut enough = Universe::new(5, 5).unwrap();
    enough.add_glider(4, 4).unwrap();
    let start = alive(&enough);
    for _ in 0..4 {
        enough.tick();
    }
    assert_eq!(alive(&enough), moved(&start, 1, 1, 5, 5));
}

#[test]
fn a_pulsar_is_wrapped_round_the_edges() {
    let mut u = Universe::new(16, 15).unwrap();
    u.add_pulsar(0, 0).unwrap();
    let cells = alive(&u);
    assert_eq!(cells.len(), 48);
    assert_eq!(cells[..8].to_vec(), vec![(1, 2), (1, 3), (1, 4), (1, 12), (1, 13), (1, 14), (2, 1), (2, 6)]);
    let mut centred = Universe::new(16, 15).unwrap();
    centred.add_pulsar(7, 8).unwrap();
    assert_eq!(moved(&cells, 7, 8, 15, 16), alive(&centred));
}

#[test]
fn a_pulsar_is_refused_on_a_grid_too_small() {
    let mut u = Universe::new(14, 40).unwrap();
    u.toggle_cell(0, 0).unwrap();
    assert_eq!(u.add_pulsar(20, 7), Err(GridError::GridTooSmall));
    assert_eq!(alive(&u), vec![(0, 0)]);
    let mut low = Universe::new(40, 14).unwrap();
    assert_eq!(low.add_pulsar(7, 7), Err(GridError::GridTooSmall));
    assert!(alive(&low).is_empty());
    let mut least = Universe::new(15, 15).unwrap();
    assert_eq!(least.add_pulsar(7, 7), Ok(()));
    assert_eq!(alive(&least).len(), 48);
}

#[test]
fn a_cell_that_comes_alive_adds_one_to_each_cell_round_it() {
    let (w, h) = (6u32, 4u32);
    for &(row, col) in [(0u32, 0u32), (3, 5), (1, 2), (0, 5), (3, 0)].iter() {
        let mut u = Universe::new(w, h).unwrap();
        u.set_cells(&[(1, 1), (2, 4), (3, 3)]).unwrap();
        let mut before = Vec::new();
        for r in 0..h {
            for c in 0..w {
                before.push(u.live_neighbor_count_performant(r, c));
            }
        }
        u.toggle_cell(row, col).unwrap();
        for r in 0..h {
            for c in 0..w {
                let dr = (r + h - row) % h;
                let dc = (c + w - col) % w;
                let near = (dr == 0 || dr == 1 || dr == h - 1) && (dc == 0 || dc == 1 || dc == w - 1);
                let add = if near && (r, c) != (row, col) { 1 } else { 0 };
                assert_eq!(u.live_neighbor_count_performant(r, c), before[(r * w + c) as usize] + add);
            }
        }
    }
}

#[test]
fn a_step_does_not_care_where_the_pattern_lies() {
    // The same cells moved by three rows and nine columns round the torus
    // give, after some steps, the same cells moved likewise.
    let (w, h) = (11u32, 9u32);
    let seed = [(0u32, 1u32), (1, 2), (2, 0), (2, 1), (2, 2), (5, 5), (5, 6), (6, 5), (4, 9), (4, 10), (4, 0)];
    let mut here = Universe::new(w, h).unwrap();
    here.set_cells(&seed).unwrap();
    let mut there = Universe::new(w, h).unwrap();
    there.set_cells(&moved(&seed, 3, 9, h, w)).unwrap();
    for _ in 0..10 {
        here.tick();
        there.tick();
        assert_eq!(moved(&alive(&here), 3, 9, h, w), alive(&there));
    }
}
