use game_of_life::universe::{is_alive_draw, wrapped};
use game_of_life::{GridError, Universe};

fn live_cells(u: &Universe) -> Vec<(u32, u32)> {
    let mut out = Vec::new();
    for row in 0..u.height() {
        for col in 0..u.width() {
            if u.get_cells().contains(u.get_index(row, col)) {
                out.push((row, col));
            }
        }
    }
    out
}

#[test]
fn new_universe_is_dead_and_has_one_bit_per_cell() {
    let u = Universe::new(7, 5).unwrap();
    assert_eq!(u.width(), 7);
    assert_eq!(u.height(), 5);
    assert_eq!(u.get_cells().len(), 35);
    assert_eq!(u.cells().len(), 2);
    assert!(live_cells(&u).is_empty());
}

#[test]
fn new_refuses_zero_dimensions() {
    assert_eq!(Universe::new(0, 4).unwrap_err(), GridError::ZeroDimension);
    assert_eq!(Universe::new(4, 0).unwrap_err(), GridError::ZeroDimension);
    assert_eq!(Universe::new(0, 0).unwrap_err(), GridError::ZeroDimension);
}

#[test]
fn new_refuses_more_cells_than_u32_counts() {
    assert_eq!(Universe::new(65536, 65536).unwrap_err(), GridError::TooLarge);
    assert_eq!(Universe::new(u32::MAX, 2).unwrap_err(), GridError::TooLarge);
    assert_eq!(Universe::new(u32::MAX, u32::MAX).unwrap_err(), GridError::TooLarge);
    assert!(Universe::new(4096, 2048).is_ok());
}

#[test]
fn index_is_row_major() {
    let u = Universe::new(7, 5).unwrap();
    assert_eq!(u.get_index(0, 0), 0);
    assert_eq!(u.get_index(0, 6), 6);
    assert_eq!(u.get_index(1, 0), 7);
    assert_eq!(u.get_index(3, 4), 25);
    assert_eq!(u.get_index(4, 6), 34);
}

#[test]
fn toggle_flips_one_cell_and_back() {
    let mut u = Universe::new(4, 3).unwrap();
    assert_eq!(u.toggle_cell(2, 1), Ok(()));
    assert_eq!(live_cells(&u), vec![(2, 1)]);
    assert_eq!(u.toggle_cell(0, 3), Ok(()));
    assert_eq!(live_cells(&u), vec![(0, 3), (2, 1)]);
    assert_eq!(u.toggle_cell(2, 1), Ok(()));
    assert_eq!(live_cells(&u), vec![(0, 3)]);
    assert_eq!(u.get_cells().len(), 12);
}

#[test]
fn toggle_refuses_a_position_outside() {
    let mut u = Universe::new(4, 3).unwrap();
    u.toggle_cell(1, 1).unwrap();
    assert_eq!(u.toggle_cell(3, 0), Err(GridError::OutOfBounds));
    assert_eq!(u.toggle_cell(0, 4), Err(GridError::OutOfBounds));
    assert_eq!(u.toggle_cell(u32::MAX, u32::MAX), Err(GridError::OutOfBounds));
    assert_eq!(live_cells(&u), vec![(1, 1)]);
}

#[test]
fn set_cells_makes_the_listed_cells_alive() {
    let mut u = Universe::new(5, 4).unwrap();
    u.toggle_cell(0, 0).unwrap();
    assert_eq!(u.set_cells(&[(3, 4), (1, 2), (1, 2), (0, 0)]), Ok(()));
    assert_eq!(live_cells(&u), vec![(0, 0), (1, 2), (3, 4)]);
    assert_eq!(u.set_cells(&[]), Ok(()));
    assert_eq!(live_cells(&u), vec![(0, 0), (1, 2), (3, 4)]);
}

#[test]
fn set_cells_refuses_the_whole_list_for_one_position_outside() {
    let mut u = Universe::new(5, 4).unwrap();
    u.toggle_cell(2, 2).unwrap();
    assert_eq!(u.set_cells(&[(0, 1), (4, 0), (1, 1)]), Err(GridError::OutOfBounds));
    assert_eq!(u.set_cells(&[(0, 1), (0, 5)]), Err(GridError::OutOfBounds));
    assert_eq!(live_cells(&u), vec![(2, 2)]);
}

#[test]
fn neighbours_of_a_single_cell_in_the_middle() {
    let mut u = Universe::new(5, 5).unwrap();
    u.toggle_cell(2, 2).unwrap();
    for row in 0..5 {
        for col in 0..5 {
            let near = (1..=3).contains(&row) && (1..=3).contains(&col) && (row, col) != (2, 2);
            let expected = if near { 1 } else { 0 };
            assert_eq!(u.live_neighbor_count_performant(row, col), expected);
            assert_eq!(u.live_neighbor_count(row, col), expected);
        }
    }
}

#[test]
fn neighbours_on_narrow_grids_count_a_cell_once_for_each_direction() {
    let mut one = Universe::new(1, 1).unwrap();
    assert_eq!(one.live_neighbor_count(0, 0), 0);
    one.toggle_cell(0, 0).unwrap();
    assert_eq!(one.live_neighbor_count(0, 0), 8);
    assert_eq!(one.live_neighbor_count_performant(0, 0), 8);

    let mut two = Universe::new(2, 2).unwrap();
    two.toggle_cell(0, 0).unwrap();
    assert_eq!(two.live_neighbor_count(0, 0), 0);
    assert_eq!(two.live_neighbor_count(0, 1), 2);
    assert_eq!(two.live_neighbor_count(1, 0), 2);
    assert_eq!(two.live_neighbor_count(1, 1), 4);
    for row in 0..2 {
        for col in 0..2 {
            assert_eq!(
                two.live_neighbor_count(row, col),
                two.live_neighbor_count_performant(row, col)
            );
        }
    }

    let mut strip = Universe::new(3, 1).unwrap();
    strip.set_cells(&[(0, 0), (0, 1)]).unwrap();
    assert_eq!(strip.live_neighbor_count(0, 0), 5);
    assert_eq!(strip.live_neighbor_count(0, 1), 5);
    assert_eq!(strip.live_neighbor_count(0, 2), 6);
    assert_eq!(strip.live_neighbor_count_performant(0, 2), 6);
}

#[test]
fn tick_applies_the_rule_to_every_count() {
    // A live cell with 0, 1, 2, 3 and 4 live neighbours, and a dead cell
    // with 2 and 3.
    let mut u = Universe::new(9, 9).unwrap();
    u.set_cells(&[(4, 4), (3, 3), (3, 5), (5, 3), (5, 5)]).unwrap();
    assert_eq!(u.live_neighbor_count_performant(4, 4), 4);
    assert_eq!(u.live_neighbor_count_performant(3, 3), 1);
    assert_eq!(u.live_neighbor_count_performant(3, 4), 3);
    assert_eq!(u.live_neighbor_count_performant(2, 4), 2);
    u.tick();
    assert_eq!(live_cells(&u), vec![(3, 4), (4, 3), (4, 5), (5, 4)]);

    let mut line = Universe::new(8, 8).unwrap();
    line.set_cells(&[(2, 2), (2, 3), (2, 4), (2, 5)]).unwrap();
    assert_eq!(line.live_neighbor_count_performant(2, 2), 1);
    assert_eq!(line.live_neighbor_count_performant(2, 3), 2);
    line.tick();
    assert_eq!(live_cells(&line), vec![(1, 3), (1, 4), (2, 3), (2, 4), (3, 3), (3, 4)]);

    let mut lone = Universe::new(4, 4).unwrap();
    lone.toggle_cell(1, 1).unwrap();
    lone.tick();
    assert!(live_cells(&lone).is_empty());
}

#[test]
fn tick_reads_only_the_generation_before() {
    // A full row on three columns: every cell of the grid sees three live
    // cells or, in the row itself, two, so the whole grid comes alive.
    let mut u = Universe::new(3, 3).unwrap();
    u.set_cells(&[(1, 0), (1, 1), (1, 2)]).unwrap();
    u.tick();
    assert_eq!(live_cells(&u).len(), 9);
    u.tick();
    assert!(live_cells(&u).is_empty());
}

#[test]
fn tick_on_the_smallest_grids() {
    let mut one = Universe::new(1, 1).unwrap();
    one.toggle_cell(0, 0).unwrap();
    one.tick();
    assert!(live_cells(&one).is_empty());
    assert_eq!(one.get_cells().len(), 1);

    let mut two = Universe::new(2, 2).unwrap();
    two.toggle_cell(0, 0).unwrap();
    two.tick();
    assert!(live_cells(&two).is_empty());
}

#[test]
fn dimensions_stay_after_every_operation() {
    let mut u = Universe::new(20, 17).unwrap();
    let blocks = (20 * 17 + 31) / 32;
    let check = |u: &Universe| {
        assert_eq!(u.width(), 20);
        assert_eq!(u.height(), 17);
        assert_eq!(u.get_cells().len(), 340);
        assert_eq!(u.cells().len(), blocks);
    };
    check(&u);
    u.toggle_cell(3, 3).unwrap();
    check(&u);
    u.set_cells(&[(0, 0), (16, 19)]).unwrap();
    check(&u);
    u.add_glider(5, 5).unwrap();
    check(&u);
    u.add_pulsar(8, 8).unwrap();
    check(&u);
    u.tick();
    check(&u);
    u.set_random(&vec![0u64; 340]).unwrap();
    check(&u);
    u.clear();
    check(&u);
    assert!(u.toggle_cell(17, 0).is_err());
    check(&u);
}

#[test]
fn clear_twice_is_clear_once() {
    let mut u = Universe::new(6, 6).unwrap();
    u.set_cells(&[(1, 2), (2, 3), (3, 1), (3, 2), (3, 3)]).unwrap();
    u.clear();
    assert!(live_cells(&u).is_empty());
    let once: Vec<u32> = u.cells().to_vec();
    u.clear();
    assert!(live_cells(&u).is_empty());
    assert_eq!(u.cells().to_vec(), once);
    assert_eq!(once, vec![0, 0]);
    assert_eq!(u.get_cells().len(), 36);
}

#[test]
fn cells_are_packed_thirty_two_to_a_block() {
    let mut u = Universe::new(10, 7).unwrap();
    u.set_cells(&[(0, 0), (0, 5), (3, 1), (3, 2), (6, 9)]).unwrap();
    let blocks = u.cells();
    assert_eq!(blocks.len(), 3);
    assert_eq!(blocks[0], (1 << 0) | (1 << 5) | (1 << 31));
    assert_eq!(blocks[1], 1 << 0);
    assert_eq!(blocks[2], 1 << 5);
    for i in 0..70usize {
        let bit = (blocks[i / 32] >> (i % 32)) & 1 == 1;
        assert_eq!(bit, u.get_cells().contains(i));
    }
}

#[test]
fn a_draw_is_alive_below_two_fifths() {
    assert_eq!(game_of_life::grid::ALIVE_BELOW, 0.4f64.to_bits());
    assert!(is_alive_draw(0.0f64.to_bits()));
    assert!(is_alive_draw(0.25f64.to_bits()));
    assert!(is_alive_draw(0.39999999999999997f64.to_bits()));
    assert!(!is_alive_draw(0.4f64.to_bits()));
    assert!(!is_alive_draw(0.40000000000000008f64.to_bits()));
    assert!(!is_alive_draw(0.5f64.to_bits()));
    assert!(!is_alive_draw(0.9999999999999999f64.to_bits()));
    let mut x = 0.0f64;
    while x < 1.0 {
        assert_eq!(is_alive_draw(x.to_bits()), x < 0.4);
        x += 0.001;
    }
}

#[test]
fn set_random_decides_each_cell_by_its_draw() {
    let mut u = Universe::new(3, 2).unwrap();
    u.set_cells(&[(0, 0), (1, 2)]).unwrap();
    let draws: Vec<u64> = [0.9f64, 0.1, 0.4, 0.39, 0.0, 0.75].iter().map(|x| x.to_bits()).collect();
    assert_eq!(u.set_random(&draws), Ok(()));
    assert_eq!(live_cells(&u), vec![(0, 1), (1, 0), (1, 1)]);
    assert_eq!(u.get_cells().len(), 6);
}

#[test]
fn set_random_refuses_a_wrong_number_of_draws() {
    let mut u = Universe::new(3, 2).unwrap();
    u.toggle_cell(1, 1).unwrap();
    assert_eq!(u.set_random(&[0u64; 5]), Err(GridError::LengthMismatch));
    assert_eq!(u.set_random(&[0u64; 7]), Err(GridError::LengthMismatch));
    assert_eq!(u.set_random(&[]), Err(GridError::LengthMismatch));
    assert_eq!(live_cells(&u), vec![(1, 1)]);
}

#[test]
fn set_random_gives_about_two_fifths_live_cells() {
    // Draws from a fixed linear congruential sequence, each turned into a
    // double in [0, 1) of 53 bits.
    let mut state: u64 = 0x2545_F491_4F6C_DD1D;
    let mut draws = Vec::new();
    for _ in 0..(200 * 200) {
        state = state.wrapping_mul(6364136223846793005).wrapping_add(1442695040888963407);
        let unit = (state >> 11) as f64 / (1u64 << 53) as f64;
        assert!((0.0..1.0).contains(&unit));
        draws.push(unit.to_bits());
    }
    let mut u = Universe::new(200, 200).unwrap();
    u.set_random(&draws).unwrap();
    let live = u.get_cells().count_ones(..);
    let fraction = live as f64 / 40000.0;
    assert!((fraction - 0.4).abs() < 0.02, "fraction of live cells: {}", fraction);
}

#[test]
fn wrapped_goes_round_the_ring() {
    assert_eq!(wrapped(0, -1, 5), 4);
    assert_eq!(wrapped(4, 1, 5), 0);
    assert_eq!(wrapped(2, 0, 5), 2);
    assert_eq!(wrapped(0, -4, 5), 1);
    assert_eq!(wrapped(3, 4, 5), 2);
    assert_eq!(wrapped(12, 1, 5), 3);
    assert_eq!(wrapped(12, -3, 5), 4);
    assert_eq!(wrapped(u32::MAX, 1, 7), ((u32::MAX as u64 + 1) % 7) as u32);
    assert_eq!(wrapped(u32::MAX, -6, u32::MAX), u32::MAX - 6);
    assert_eq!(wrapped(0, 0, 1), 0);
    // More than a whole turn, either way.
    assert_eq!(wrapped(2, 13, 5), 0);
    assert_eq!(wrapped(2, -13, 5), 4);
    assert_eq!(wrapped(2, -10, 5), 2);
    assert_eq!(wrapped(0, i32::MAX, 7), 1);
    assert_eq!(wrapped(0, i32::MIN, 7), 5);
    assert_eq!(wrapped(u32::MAX, i32::MIN, 1), 0);
    for x in 0..12u32 {
        for delta in -12..12i32 {
            let expected = (x as i64 + delta as i64).rem_euclid(5) as u32;
            assert_eq!(wrapped(x, delta, 5), expected);
        }
    }
}
