use wasm_game_of_life::{CommonSpaceships, FillPolicy, GridError, Universe};

fn sized(width: u32, height: u32) -> Universe {
    let mut universe = Universe::new();
    universe.set_width(width).unwrap();
    universe.set_height(height).unwrap();
    universe
}

fn input_spaceship() -> Universe {
    let mut universe = sized(6, 6);
    universe.set_cells(&[(1, 2), (2, 3), (3, 1), (3, 2), (3, 3)]).unwrap();
    universe
}

fn expected_spaceship() -> Universe {
    let mut universe = sized(6, 6);
    universe.set_cells(&[(2, 1), (2, 3), (3, 2), (3, 3), (4, 2)]).unwrap();
    universe
}

fn alive(universe: &Universe) -> Vec<(u32, u32)> {
    let cells = universe.get_cells();
    let w = universe.width();
    (0..cells.len()).filter(|&i| cells[i]).map(|i| (i as u32 / w, i as u32 % w)).collect()
}

#[test]
fn test_tick() {
    let mut input_universe = input_spaceship();
    let expected_universe = expected_spaceship();

    input_universe.tick();
    assert_eq!(&input_universe.get_cells(), &expected_universe.get_cells());
}

#[test]
fn glider_tick_gives_exact_cells() {
    let mut universe = input_spaceship();
    universe.tick();
    assert_eq!(alive(&universe), vec![(2, 1), (2, 3), (3, 2), (3, 3), (4, 2)]);
}

#[test]
fn new_is_128_square_and_dead() {
    let universe = Universe::new();
    assert_eq!(universe.width(), 128);
    assert_eq!(universe.height(), 128);
    let cells = universe.get_cells();
    assert_eq!(cells.len(), 128 * 128);
    assert!(cells.iter().all(|&c| !c));
}

#[test]
fn cells_length_is_width_times_height() {
    let universe = Universe::with_fill(7, 3, FillPolicy::AllDead).unwrap();
    assert_eq!(universe.get_cells().len(), 21);
    let mut universe = sized(5, 9);
    assert_eq!(universe.get_cells().len(), 45);
    universe.set_width(2).unwrap();
    assert_eq!(universe.get_cells().len(), 18);
    universe.set_height(1).unwrap();
    assert_eq!(universe.get_cells().len(), 2);
}

#[test]
fn tick_is_deterministic() {
    let coords = vec![(0, 0), (0, 1), (1, 1), (2, 3), (4, 4), (3, 0), (4, 1)];
    let mut a = Universe::with_fill(5, 5, FillPolicy::Explicit(coords.clone())).unwrap();
    let mut b = Universe::with_fill(5, 5, FillPolicy::Explicit(coords)).unwrap();
    a.tick();
    b.tick();
    assert_eq!(a.get_cells(), b.get_cells());
}

#[test]
fn block_is_still_life() {
    let mut universe = sized(6, 6);
    universe.set_cells(&[(2, 2), (2, 3), (3, 2), (3, 3)]).unwrap();
    let before = universe.get_cells();
    universe.tick();
    assert_eq!(universe.get_cells(), before);
    universe.tick();
    assert_eq!(universe.get_cells(), before);
}

#[test]
fn block_across_the_edge_is_still_life() {
    let mut universe = sized(5, 4);
    universe.set_cells(&[(3, 4), (3, 0), (0, 4), (0, 0)]).unwrap();
    let before = universe.get_cells();
    universe.tick();
    assert_eq!(universe.get_cells(), before);
}

#[test]
fn corner_cell_sees_wrapped_neighbours() {
    let universe = Universe::with_fill(3, 3, FillPolicy::Explicit(vec![(0, 0)])).unwrap();
    assert_eq!(universe.live_neighbour_count(0, 0), 0);
    for row in 0..3 {
        for col in 0..3 {
            if (row, col) != (0, 0) {
                assert_eq!(universe.live_neighbour_count(row, col), 1);
            }
        }
    }
}

#[test]
fn corner_counts_all_eight_wrapped_neighbours() {
    let coords = vec![(2, 2), (2, 0), (2, 1), (0, 2), (1, 2), (1, 0), (0, 1), (1, 1)];
    let universe = Universe::with_fill(3, 3, FillPolicy::Explicit(coords)).unwrap();
    assert_eq!(universe.live_neighbour_count(0, 0), 8);
}

#[test]
fn last_row_and_column_wrap_to_first() {
    let universe = Universe::with_fill(4, 4, FillPolicy::Explicit(vec![(0, 0), (0, 3), (3, 0)])).unwrap();
    assert_eq!(universe.live_neighbour_count(3, 3), 3);
    assert_eq!(universe.live_neighbour_count(2, 2), 0);
    assert_eq!(universe.live_neighbour_count(0, 0), 2);
}

#[test]
fn single_row_counts_with_multiplicity() {
    let universe = Universe::with_fill(3, 1, FillPolicy::Explicit(vec![(0, 1)])).unwrap();
    assert_eq!(universe.live_neighbour_count(0, 0), 3);
    assert_eq!(universe.live_neighbour_count(0, 1), 2);
}

#[test]
fn glider_moves_one_diagonal_step_in_four_ticks() {
    let mut universe = sized(10, 10);
    universe.add_spaceship(CommonSpaceships::Glider, 1, 1);
    for _ in 0..4 {
        universe.tick();
    }
    let mut expected = sized(10, 10);
    expected.add_spaceship(CommonSpaceships::Glider, 2, 2);
    assert_eq!(universe.get_cells(), expected.get_cells());
    assert_eq!(alive(&universe), vec![(2, 3), (3, 4), (4, 2), (4, 3), (4, 4)]);
}

#[test]
fn stamp_overwrites_dead_cells_too() {
    let mut universe = sized(5, 5);
    universe.set_cells(&[(0, 0), (1, 1), (2, 2)]).unwrap();
    universe.add_spaceship(CommonSpaceships::Glider, 0, 0);
    assert_eq!(alive(&universe), vec![(0, 1), (1, 2), (2, 0), (2, 1), (2, 2)]);
}

#[test]
fn stamp_is_clipped_at_the_edges() {
    let mut universe = sized(5, 5);
    universe.set_cells(&[(4, 0), (4, 1), (3, 3)]).unwrap();
    universe.add_spaceship(CommonSpaceships::Lightweight, 3, 2);
    // rows 0 and 1 of the pattern, columns 0 to 2, land on rows 3 and 4,
    // columns 2 to 4; the rest is dropped
    assert_eq!(alive(&universe), vec![(3, 3), (3, 4), (4, 0), (4, 1), (4, 2)]);
}

#[test]
fn stamp_outside_the_grid_changes_nothing() {
    let mut universe = sized(4, 4);
    universe.set_cells(&[(0, 0), (3, 3)]).unwrap();
    let before = universe.get_cells();
    universe.add_spaceship(CommonSpaceships::Heavyweight, 4, 0);
    universe.add_spaceship(CommonSpaceships::Heavyweight, 0, 4);
    universe.add_spaceship(CommonSpaceships::Middleweight, usize::MAX, usize::MAX);
    assert_eq!(universe.get_cells(), before);
}

#[test]
fn stamp_past_the_right_edge_keeps_the_next_row() {
    let mut universe = sized(4, 4);
    universe.add_spaceship(CommonSpaceships::Glider, 0, 3);
    // only pattern column 0 lands (column 3); nothing spills into column 0
    assert_eq!(alive(&universe), vec![(2, 3)]);
}

#[test]
fn resize_kills_every_cell() {
    let mut universe = sized(4, 4);
    universe.random_cells(&[true; 16]);
    assert!(universe.get_cells().iter().all(|&c| c));
    assert_eq!(universe.set_width(6), Ok(()));
    assert_eq!(universe.width(), 6);
    assert!(universe.get_cells().iter().all(|&c| !c));
    universe.set_cells(&[(1, 1), (3, 5)]).unwrap();
    assert_eq!(universe.set_height(2), Ok(()));
    assert_eq!(universe.height(), 2);
    let cells = universe.get_cells();
    assert_eq!(cells.len(), 12);
    assert!(cells.iter().all(|&c| !c));
}

#[test]
fn zero_dimension_is_refused() {
    let mut universe = input_spaceship();
    let before = universe.get_cells();
    assert_eq!(universe.set_width(0), Err(GridError::InvalidDimension));
    assert_eq!(universe.set_height(0), Err(GridError::InvalidDimension));
    assert_eq!(universe.width(), 6);
    assert_eq!(universe.height(), 6);
    assert_eq!(universe.get_cells(), before);
    assert!(matches!(Universe::with_fill(0, 3, FillPolicy::AllDead), Err(GridError::InvalidDimension)));
    assert!(matches!(Universe::with_fill(3, 0, FillPolicy::AllDead), Err(GridError::InvalidDimension)));
}

#[test]
fn out_of_bounds_is_refused() {
    let mut universe = input_spaceship();
    let before = universe.get_cells();
    assert_eq!(universe.get(6, 0), Err(GridError::OutOfBounds));
    assert_eq!(universe.get(0, 6), Err(GridError::OutOfBounds));
    assert_eq!(universe.set(6, 0, true), Err(GridError::OutOfBounds));
    assert_eq!(universe.toggle_cell(0, 6), Err(GridError::OutOfBounds));
    assert_eq!(universe.set_cells(&[(0, 0), (6, 1)]), Err(GridError::OutOfBounds));
    assert_eq!(universe.get_cells(), before);
    assert!(matches!(
        Universe::with_fill(3, 3, FillPolicy::Explicit(vec![(1, 1), (1, 3)])),
        Err(GridError::OutOfBounds)
    ));
}

#[test]
fn get_set_and_toggle_one_cell() {
    let mut universe = sized(3, 2);
    assert_eq!(universe.get(1, 2), Ok(false));
    assert_eq!(universe.toggle_cell(1, 2), Ok(()));
    assert_eq!(universe.get(1, 2), Ok(true));
    assert_eq!(universe.get_cells(), vec![false, false, false, false, false, true]);
    assert_eq!(universe.toggle_cell(1, 2), Ok(()));
    assert_eq!(universe.get(1, 2), Ok(false));
    assert_eq!(universe.set(0, 1, true), Ok(()));
    assert_eq!(universe.set(0, 1, true), Ok(()));
    assert_eq!(universe.get(0, 1), Ok(true));
    assert_eq!(universe.set(0, 1, false), Ok(()));
    assert_eq!(universe.get(0, 1), Ok(false));
}

#[test]
fn set_cells_leaves_others_alive() {
    let mut universe = sized(3, 3);
    universe.set_cells(&[(0, 0)]).unwrap();
    universe.set_cells(&[(2, 2), (2, 2), (1, 0)]).unwrap();
    assert_eq!(alive(&universe), vec![(0, 0), (1, 0), (2, 2)]);
}

#[test]
fn random_fill_takes_the_draws() {
    let draws = vec![true, false, false, true, true, false];
    let universe = Universe::with_fill(2, 3, FillPolicy::Random(draws.clone())).unwrap();
    assert_eq!(universe.get_cells(), draws);
    assert_eq!(alive(&universe), vec![(0, 0), (1, 1), (2, 0)]);
}

#[test]
fn dead_cells_keeps_dimensions() {
    let mut universe = input_spaceship();
    universe.dead_cells();
    assert_eq!(universe.width(), 6);
    assert_eq!(universe.height(), 6);
    assert_eq!(universe.get_cells(), vec![false; 36]);
}

#[test]
fn render_draws_one_line_per_row() {
    let universe = Universe::with_fill(3, 2, FillPolicy::Explicit(vec![(0, 1), (1, 2)])).unwrap();
    assert_eq!(universe.render(), "◻◼◻\n◻◻◼\n");
}

#[test]
fn cells_are_packed_32_to_a_block() {
    let mut universe = sized(6, 6);
    universe.set_cells(&[(0, 0), (1, 2), (5, 5)]).unwrap();
    let blocks = universe.cells();
    assert_eq!(blocks.len(), 2);
    assert_eq!(blocks[0], 1 | (1 << 8));
    assert_eq!(blocks[1], 1 << 3);
}

#[test]
fn patterns_have_their_shapes() {
    let (glider, w, h) = CommonSpaceships::Glider.pattern();
    assert_eq!((w, h), (3, 3));
    assert_eq!(glider, vec![false, true, false, false, false, true, true, true, true]);
    for (ship, w, h) in [
        (CommonSpaceships::Lightweight, 5, 4),
        (CommonSpaceships::Middleweight, 6, 5),
        (CommonSpaceships::Heavyweight, 7, 5),
    ] {
        let (cells, pw, ph) = ship.pattern();
        assert_eq!((pw, ph), (w, h));
        assert_eq!(cells.len(), w * h);
    }
    let (light, _, _) = CommonSpaceships::Lightweight.pattern();
    assert_eq!(light.iter().filter(|&&c| c).count(), 9);
}

#[test]
fn next_state_follows_the_rule() {
    // a live cell with one, two, three and four neighbours
    let mut universe = sized(8, 8);
    universe.set_cells(&[(1, 1), (1, 2)]).unwrap();
    universe.tick();
    assert!(universe.get_cells().iter().all(|&c| !c));
    let mut universe = sized(8, 8);
    universe.set_cells(&[(3, 3), (2, 3), (4, 3)]).unwrap();
    universe.tick();
    assert_eq!(alive(&universe), vec![(3, 2), (3, 3), (3, 4)]);
    let mut universe = sized(8, 8);
    universe.set_cells(&[(3, 3), (2, 2), (2, 4), (4, 2), (4, 4)]).unwrap();
    universe.tick();
    assert_eq!(universe.get(3, 3), Ok(false));
}

fn shifted_after_four_ticks(ship: CommonSpaceships, dr: u32, dc: u32) {
    let mut universe = sized(16, 16);
    universe.add_spaceship(ship, 4, 4);
    let before = alive(&universe);
    for _ in 0..4 {
        universe.tick();
    }
    let mut moved: Vec<(u32, u32)> = before.iter().map(|&(r, c)| (r + dr, c + dc)).collect();
    moved.sort();
    assert_eq!(alive(&universe), moved);
}

#[test]
fn every_catalogue_entry_is_a_spaceship() {
    shifted_after_four_ticks(CommonSpaceships::Glider, 1, 1);
    shifted_after_four_ticks(CommonSpaceships::Lightweight, 0, 2);
    shifted_after_four_ticks(CommonSpaceships::Middleweight, 0, 2);
    shifted_after_four_ticks(CommonSpaceships::Heavyweight, 0, 2);
}

#[test]
fn heavyweight_has_its_five_rows() {
    let (cells, w, h) = CommonSpaceships::Heavyweight.pattern();
    assert_eq!((w, h), (7, 5));
    let rows: Vec<String> = cells
        .chunks(w)
        .map(|row| row.iter().map(|&c| if c { 'X' } else { '.' }).collect())
        .collect();
    assert_eq!(rows, vec![".XXXXXX", "X.....X", "......X", "X....X.", "..XX..."]);
}

fn glider_cornered_at(a: u32, b: u32, w: u32, h: u32) -> Vec<(u32, u32)> {
    let shape = [(0, 1), (1, 2), (2, 0), (2, 1), (2, 2)];
    let mut cells: Vec<(u32, u32)> = shape.iter().map(|&(i, j)| ((a + i) % h, (b + j) % w)).collect();
    cells.sort();
    cells
}

#[test]
fn glider_across_the_edge_moves_round_the_torus() {
    let mut universe = sized(8, 7);
    universe.set_cells(&glider_cornered_at(6, 7, 8, 7)).unwrap();
    for _ in 0..4 {
        universe.tick();
    }
    assert_eq!(alive(&universe), glider_cornered_at(0, 0, 8, 7));
}
