use gpu_life::TextureManager;

#[test]
fn clear_data_is_all_dead() {
    let tm = TextureManager::new(3, 2);
    let data = tm.create_clear_data();
    assert_eq!(data.len(), 3 * 2 * 4);
    for cell in 0..6 {
        assert_eq!(&data[cell * 4..cell * 4 + 4], &[0, 0, 0, 255]);
    }
}

#[test]
fn pattern_data_marks_exactly_the_positions() {
    let tm = TextureManager::new(4, 4);
    let data = tm.create_pattern_data(&vec![(1, 2), (3, 0)]);
    assert_eq!(data.len(), 64);
    for y in 0..4u32 {
        for x in 0..4u32 {
            let idx = ((y * 4 + x) * 4) as usize;
            let expected: u8 = if (x, y) == (1, 2) || (x, y) == (3, 0) { 255 } else { 0 };
            assert_eq!(data[idx], expected, "red at ({}, {})", x, y);
            assert_eq!(data[idx + 1], expected);
            assert_eq!(data[idx + 2], expected);
            assert_eq!(data[idx + 3], 255);
        }
    }
}

#[test]
fn pattern_data_drops_out_of_bounds_positions() {
    let tm = TextureManager::new(4, 4);
    let data = tm.create_pattern_data(&vec![(7, 7), (4, 0), (0, 4)]);
    assert_eq!(data, tm.create_clear_data());
}

#[test]
fn pattern_data_with_duplicate_positions() {
    let tm = TextureManager::new(3, 3);
    let once = tm.create_pattern_data(&vec![(1, 1)]);
    let twice = tm.create_pattern_data(&vec![(1, 1), (1, 1)]);
    assert_eq!(once, twice);
}

#[test]
fn pattern_data_empty_round_trips_to_all_dead() {
    let tm = TextureManager::new(5, 5);
    let marked = tm.create_pattern_data(&vec![(0, 0), (2, 3), (4, 4)]);
    let cleared = tm.create_pattern_data(&Vec::new());
    assert_ne!(marked, cleared);
    assert_eq!(cleared, tm.create_clear_data());
    // the two buffers differ only at the previously marked cells
    for cell in 0..25usize {
        let x = (cell % 5) as u32;
        let y = (cell / 5) as u32;
        let marked_here = [(0, 0), (2, 3), (4, 4)].contains(&(x, y));
        for c in 0..4 {
            if marked[cell * 4 + c] != cleared[cell * 4 + c] {
                assert!(marked_here, "unexpected difference at ({}, {})", x, y);
            }
        }
    }
}

#[test]
fn random_data_all_live_at_density_one() {
    let tm = TextureManager::new(4, 3);
    let live = vec![true; 12];
    let data = tm.create_random_data(&live);
    assert_eq!(data.len(), 4 * 3 * 4);
    for cell in 0..12 {
        assert_eq!(&data[cell * 4..cell * 4 + 4], &[255, 255, 255, 255]);
    }
}

#[test]
fn random_data_all_dead_at_density_zero() {
    let tm = TextureManager::new(4, 3);
    let live = vec![false; 12];
    let data = tm.create_random_data(&live);
    assert_eq!(data, tm.create_clear_data());
}

#[test]
fn random_data_mixed_flags() {
    let tm = TextureManager::new(2, 2);
    let data = tm.create_random_data(&vec![true, false, false, true]);
    assert_eq!(data[0], 255); // cell (0, 0)
    assert_eq!(data[4], 0); // cell (1, 0)
    assert_eq!(data[8], 0); // cell (0, 1)
    assert_eq!(data[12], 255); // cell (1, 1)
    assert_eq!(data[3], 255);
    assert_eq!(data[7], 255);
}

#[test]
fn disc_marks_exactly_squared_distance_at_most_r_squared() {
    let tm = TextureManager::new(9, 9);
    let mut data = tm.create_clear_data();
    tm.add_cells_in_area(&mut data, 4, 4, 2);
    for y in 0..9i64 {
        for x in 0..9i64 {
            let idx = ((y * 9 + x) * 4) as usize;
            let inside = (x - 4) * (x - 4) + (y - 4) * (y - 4) <= 4;
            let expected: u8 = if inside { 255 } else { 0 };
            assert_eq!(data[idx], expected, "red at ({}, {})", x, y);
            assert_eq!(data[idx + 3], 255);
        }
    }
}

#[test]
fn disc_radius_zero_marks_only_the_center() {
    let tm = TextureManager::new(5, 5);
    let mut data = tm.create_clear_data();
    tm.add_cells_in_area(&mut data, 2, 2, 0);
    for cell in 0..25usize {
        let expected: u8 = if cell == 2 * 5 + 2 { 255 } else { 0 };
        assert_eq!(data[cell * 4], expected);
    }
}

#[test]
fn disc_with_center_outside_grid_clips() {
    let tm = TextureManager::new(9, 9);
    let mut data = tm.create_clear_data();
    tm.add_cells_in_area(&mut data, 10, 4, 3);
    for y in 0..9i64 {
        for x in 0..9i64 {
            let idx = ((y * 9 + x) * 4) as usize;
            let inside = (x - 10) * (x - 10) + (y - 4) * (y - 4) <= 9;
            let expected: u8 = if inside { 255 } else { 0 };
            assert_eq!(data[idx], expected, "red at ({}, {})", x, y);
        }
    }
}

#[test]
fn disc_preserves_unrelated_cells() {
    let tm = TextureManager::new(8, 8);
    let mut data = tm.create_pattern_data(&vec![(7, 7), (0, 7)]);
    tm.add_cells_in_area(&mut data, 1, 1, 1);
    // the two previously marked far-away cells are untouched
    assert_eq!(data[((7 * 8 + 7) * 4) as usize], 255);
    assert_eq!(data[((7 * 8 + 0) * 4) as usize], 255);
    // a cell adjacent to the disc but outside it stays dead
    assert_eq!(data[((2 * 8 + 2) * 4) as usize], 0);
    // the disc itself is marked
    assert_eq!(data[((1 * 8 + 1) * 4) as usize], 255);
    assert_eq!(data[((1 * 8 + 2) * 4) as usize], 255);
    assert_eq!(data[((0 * 8 + 1) * 4) as usize], 255);
}
