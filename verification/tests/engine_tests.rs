use gpu_life::GameOfLife;

fn live_cells(game: &GameOfLife, w: u32, h: u32) -> Vec<(u32, u32)> {
    let mut cells = Vec::new();
    for y in 0..h {
        for x in 0..w {
            if game.get_cell_state(x, y) >= 128 {
                cells.push((x, y));
            }
        }
    }
    cells
}

#[test]
fn new_engine_is_all_dead() {
    let game = GameOfLife::new(10, 8);
    assert_eq!(game.width, 10);
    assert_eq!(game.height, 8);
    assert_eq!(game.current.len(), 10 * 8 * 4);
    assert_eq!(live_cells(&game, 10, 8), vec![]);
}

#[test]
fn set_and_get_cell() {
    let mut game = GameOfLife::new(6, 6);
    game.set_cell(2, 3, 255);
    assert_eq!(game.get_cell_state(2, 3), 255);
    assert_eq!(game.get_cell_state(3, 2), 0);
    game.set_cell(2, 3, 0);
    assert_eq!(game.get_cell_state(2, 3), 0);
}

#[test]
fn set_cell_out_of_bounds_is_ignored() {
    let mut game = GameOfLife::new(4, 4);
    game.set_cell(4, 0, 255);
    game.set_cell(0, 4, 255);
    game.set_cell(1000, 1000, 255);
    assert_eq!(live_cells(&game, 4, 4), vec![]);
    assert_eq!(game.get_cell_state(4, 0), 0);
}

#[test]
fn toggle_cell_flips_state() {
    let mut game = GameOfLife::new(5, 5);
    game.toggle_cell(1, 1);
    assert_eq!(game.get_cell_state(1, 1), 255);
    game.toggle_cell(1, 1);
    assert_eq!(game.get_cell_state(1, 1), 0);
    // a cell stored at exactly the threshold is treated as dead and toggles on
    game.set_cell(2, 2, 128);
    game.toggle_cell(2, 2);
    assert_eq!(game.get_cell_state(2, 2), 255);
}

#[test]
fn clear_then_step_stays_all_dead() {
    let mut game = GameOfLife::new(12, 9);
    game.randomize(&vec![true; 12 * 9]);
    game.clear();
    game.step();
    assert_eq!(live_cells(&game, 12, 9), vec![]);
}

#[test]
fn lone_cell_dies_after_one_step() {
    let mut game = GameOfLife::new(5, 5);
    game.set_cell(2, 2, 255);
    game.step();
    assert_eq!(live_cells(&game, 5, 5), vec![]);
}

#[test]
fn blinker_oscillates_with_period_two() {
    let mut game = GameOfLife::new(20, 20);
    game.load_oscillator();
    let horizontal = vec![(9, 10), (10, 10), (11, 10)];
    let vertical = vec![(10, 9), (10, 10), (10, 11)];
    assert_eq!(live_cells(&game, 20, 20), horizontal);
    game.step();
    assert_eq!(live_cells(&game, 20, 20), vertical);
    game.step();
    assert_eq!(live_cells(&game, 20, 20), horizontal);
}

#[test]
fn block_is_a_still_life() {
    let mut game = GameOfLife::new(8, 8);
    game.set_cell(3, 3, 255);
    game.set_cell(4, 3, 255);
    game.set_cell(3, 4, 255);
    game.set_cell(4, 4, 255);
    game.step();
    assert_eq!(live_cells(&game, 8, 8), vec![(3, 3), (4, 3), (3, 4), (4, 4)]);
}

#[test]
fn glider_translates_by_one_after_four_steps() {
    let mut game = GameOfLife::new(20, 20);
    game.load_glider();
    let start = live_cells(&game, 20, 20);
    assert_eq!(start, vec![(11, 10), (12, 11), (10, 12), (11, 12), (12, 12)]);
    for _ in 0..4 {
        game.step();
    }
    let expected: Vec<(u32, u32)> = start.iter().map(|&(x, y)| (x + 1, y + 1)).collect();
    let mut after = live_cells(&game, 20, 20);
    let mut expected_sorted = expected.clone();
    after.sort();
    expected_sorted.sort();
    assert_eq!(after, expected_sorted);
}

#[test]
fn step_wraps_around_the_torus() {
    // a horizontal blinker laid across the left edge flips to vertical
    let mut game = GameOfLife::new(7, 7);
    game.set_cell(6, 3, 255);
    game.set_cell(0, 3, 255);
    game.set_cell(1, 3, 255);
    game.step();
    assert_eq!(live_cells(&game, 7, 7), vec![(0, 2), (0, 3), (0, 4)]);
}

#[test]
fn step_swaps_the_generation_buffers() {
    let mut game = GameOfLife::new(6, 6);
    game.load_oscillator();
    let before = game.current.clone();
    game.step();
    assert_eq!(game.next, before);
    assert_ne!(game.current, before);
}

#[test]
fn seeding_fills_both_buffers() {
    let mut game = GameOfLife::new(6, 6);
    game.load_glider();
    assert_eq!(game.current, game.next);
    game.randomize(&vec![true; 36]);
    assert_eq!(game.current, game.next);
}

#[test]
fn randomize_extremes_are_deterministic() {
    let mut game = GameOfLife::new(7, 5);
    game.randomize(&vec![true; 35]);
    assert_eq!(live_cells(&game, 7, 5).len(), 35);
    game.randomize(&vec![false; 35]);
    assert_eq!(live_cells(&game, 7, 5), vec![]);
}

#[test]
fn resize_discards_content_and_matches_request() {
    let mut game = GameOfLife::new(10, 8);
    game.load_pulsar();
    game.resize(5, 6, &vec![false; 30]);
    assert_eq!(game.width, 5);
    assert_eq!(game.height, 6);
    assert_eq!(game.current.len(), 5 * 6 * 4);
    assert_eq!(game.next.len(), 5 * 6 * 4);
    assert_eq!(live_cells(&game, 5, 6), vec![]);
}

#[test]
fn resize_reseeds_with_given_decisions() {
    let mut game = GameOfLife::new(4, 4);
    game.resize(2, 2, &vec![true, false, false, true]);
    assert_eq!(live_cells(&game, 2, 2), vec![(0, 0), (1, 1)]);
}

#[test]
fn load_patterns_have_expected_cell_counts() {
    let mut game = GameOfLife::new(80, 80);
    game.load_glider();
    assert_eq!(live_cells(&game, 80, 80).len(), 5);
    game.load_oscillator();
    assert_eq!(live_cells(&game, 80, 80).len(), 3);
    game.load_beacon();
    assert_eq!(live_cells(&game, 80, 80).len(), 6);
    game.load_toad();
    assert_eq!(live_cells(&game, 80, 80).len(), 6);
    game.load_spaceship();
    assert_eq!(live_cells(&game, 80, 80).len(), 9);
    game.load_pulsar();
    assert_eq!(live_cells(&game, 80, 80).len(), 48);
    game.load_glider_gun();
    assert_eq!(live_cells(&game, 80, 80).len(), 36);
}

#[test]
fn beacon_oscillates_with_period_two() {
    let mut game = GameOfLife::new(16, 16);
    game.load_beacon();
    let start = live_cells(&game, 16, 16);
    game.step();
    let middle = live_cells(&game, 16, 16);
    assert_ne!(start, middle);
    game.step();
    assert_eq!(live_cells(&game, 16, 16), start);
}

#[test]
fn toad_oscillates_with_period_two() {
    let mut game = GameOfLife::new(16, 16);
    game.load_toad();
    let start = live_cells(&game, 16, 16);
    game.step();
    assert_ne!(live_cells(&game, 16, 16), start);
    game.step();
    assert_eq!(live_cells(&game, 16, 16), start);
}

#[test]
fn blinker_period_two_on_odd_and_even_grids() {
    for &(w, h) in [(5u32, 5u32), (6, 9), (31, 12)].iter() {
        let mut game = GameOfLife::new(w, h);
        game.load_oscillator();
        let start = game.current.clone();
        game.step();
        game.step();
        assert_eq!(game.current, start, "period 2 failed on {}x{}", w, h);
    }
}

#[test]
fn draw_line_horizontal() {
    let mut game = GameOfLife::new(8, 8);
    game.draw_line(1, 2, 5, 2);
    assert_eq!(
        live_cells(&game, 8, 8),
        vec![(1, 2), (2, 2), (3, 2), (4, 2), (5, 2)]
    );
}

#[test]
fn draw_line_vertical_reversed() {
    let mut game = GameOfLife::new(8, 8);
    game.draw_line(3, 6, 3, 2);
    assert_eq!(
        live_cells(&game, 8, 8),
        vec![(3, 2), (3, 3), (3, 4), (3, 5), (3, 6)]
    );
}

#[test]
fn draw_line_diagonal() {
    let mut game = GameOfLife::new(8, 8);
    game.draw_line(0, 0, 4, 4);
    assert_eq!(
        live_cells(&game, 8, 8),
        vec![(0, 0), (1, 1), (2, 2), (3, 3), (4, 4)]
    );
}

#[test]
fn draw_line_shallow_slope() {
    let mut game = GameOfLife::new(8, 8);
    game.draw_line(0, 0, 4, 2);
    assert_eq!(
        live_cells(&game, 8, 8),
        vec![(0, 0), (1, 1), (2, 1), (3, 2), (4, 2)]
    );
}

#[test]
fn draw_line_single_point() {
    let mut game = GameOfLife::new(4, 4);
    game.draw_line(2, 2, 2, 2);
    assert_eq!(live_cells(&game, 4, 4), vec![(2, 2)]);
}

#[test]
fn draw_line_clips_to_the_grid() {
    let mut game = GameOfLife::new(2, 2);
    game.draw_line(0, 0, 3, 3);
    assert_eq!(live_cells(&game, 2, 2), vec![(0, 0), (1, 1)]);
}

#[test]
fn add_cells_in_area_on_the_current_generation() {
    let mut game = GameOfLife::new(9, 9);
    game.add_cells_in_area(4, 4, 1);
    assert_eq!(
        live_cells(&game, 9, 9),
        vec![(4, 3), (3, 4), (4, 4), (5, 4), (4, 5)]
    );
}

#[test]
fn get_cell_state_out_of_bounds_is_zero() {
    let game = GameOfLife::new(3, 3);
    assert_eq!(game.get_cell_state(3, 0), 0);
    assert_eq!(game.get_cell_state(0, 3), 0);
}
