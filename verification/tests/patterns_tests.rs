use gpu_life::Pattern;

#[test]
fn glider_offsets() {
    let p = Pattern::glider();
    assert_eq!(p.cells, vec![(1, 0), (2, 1), (0, 2), (1, 2), (2, 2)]);
}

#[test]
fn blinker_offsets() {
    let p = Pattern::blinker();
    assert_eq!(p.cells, vec![(-1, 0), (0, 0), (1, 0)]);
}

#[test]
fn beacon_offsets() {
    let p = Pattern::beacon();
    assert_eq!(p.cells, vec![(0, 0), (1, 0), (0, 1), (3, 2), (2, 3), (3, 3)]);
}

#[test]
fn toad_offsets() {
    let p = Pattern::toad();
    assert_eq!(p.cells, vec![(1, 0), (2, 0), (3, 0), (0, 1), (1, 1), (2, 1)]);
}

#[test]
fn spaceship_offsets() {
    let p = Pattern::lightweight_spaceship();
    assert_eq!(
        p.cells,
        vec![
            (0, 1),
            (3, 1),
            (4, 2),
            (0, 3),
            (4, 3),
            (1, 4),
            (2, 4),
            (3, 4),
            (4, 4)
        ]
    );
}

#[test]
fn pulsar_has_48_cells() {
    let p = Pattern::pulsar();
    assert_eq!(p.cells.len(), 48);
    assert_eq!(p.cells[0], (2, 0));
    assert_eq!(p.cells[47], (10, 12));
}

#[test]
fn glider_gun_has_36_cells() {
    let p = Pattern::gospel_glider_gun();
    assert_eq!(p.cells.len(), 36);
    assert_eq!(p.cells[0], (0, 4));
    assert_eq!(p.cells[35], (35, 3));
}

#[test]
fn blinker_centered_on_small_grid() {
    let p = Pattern::blinker();
    let positions = p.scaled_for_grid(10, 10);
    assert_eq!(positions, vec![(4, 5), (5, 5), (6, 5)]);
}

#[test]
fn glider_positions_on_tiny_grid_all_dropped() {
    let p = Pattern::glider();
    let positions = p.scaled_for_grid(1, 1);
    assert_eq!(positions, Vec::<(u32, u32)>::new());
}

#[test]
fn scaled_positions_always_in_bounds() {
    let grids = [(1u32, 1u32), (3, 7), (13, 5), (40, 20), (200, 200), (250, 9)];
    let patterns = [
        Pattern::glider(),
        Pattern::blinker(),
        Pattern::beacon(),
        Pattern::toad(),
        Pattern::lightweight_spaceship(),
        Pattern::pulsar(),
        Pattern::gospel_glider_gun(),
    ];
    for &(w, h) in grids.iter() {
        for p in patterns.iter() {
            for &(x, y) in p.scaled_for_grid(w, h).iter() {
                assert!(x < w, "x {} out of bounds for width {}", x, w);
                assert!(y < h, "y {} out of bounds for height {}", y, h);
            }
        }
    }
}

#[test]
fn glider_replicated_four_times_on_large_grid() {
    let p = Pattern::glider();
    let positions = p.scaled_for_grid(200, 200);
    assert_eq!(positions.len(), 20);
    // first replica is anchored at (100 - 30, 100 - 30)
    assert_eq!(positions[0], (71, 70));
    // second replica is anchored at (100 + 30, 100 - 30)
    assert_eq!(positions[5], (131, 70));
}

#[test]
fn glider_single_below_large_grid_threshold() {
    let p = Pattern::glider();
    let positions = p.scaled_for_grid(199, 1000);
    assert_eq!(positions.len(), 5);
    assert_eq!(positions[0], (99 + 1, 500));
}

#[test]
fn glider_gun_stays_single_on_large_grid() {
    let p = Pattern::gospel_glider_gun();
    let positions = p.scaled_for_grid(200, 200);
    assert_eq!(positions.len(), 36);
    assert_eq!(positions[0], (100, 104));
}

#[test]
fn blinker_stays_single_on_large_grid() {
    let p = Pattern::blinker();
    let positions = p.scaled_for_grid(250, 250);
    assert_eq!(positions, vec![(124, 125), (125, 125), (126, 125)]);
}
