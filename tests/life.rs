use game_of_life::{
    advance, neighbor_count, next_state, pointer_to_cell, toggle, Cell, Grid, GridError,
    SimulationState,
};

fn grid_with(size: usize, alive: &[(i64, i64)]) -> Grid {
    let mut g = Grid::new(size).unwrap();
    for &(x, y) in alive {
        g = toggle(&g, x, y).unwrap();
    }
    g
}

fn alive_cells(g: &Grid) -> Vec<(i64, i64)> {
    let n = g.size() as i64;
    let mut r = Vec::new();
    for x in 0..n {
        for y in 0..n {
            if g.get(x, y) == Cell::Alive {
                r.push((x, y));
            }
        }
    }
    r
}

#[test]
fn new_grid_is_all_dead() {
    for n in 1..=6usize {
        let g = Grid::new(n).unwrap();
        assert_eq!(g.size(), n);
        for x in 0..n as i64 {
            for y in 0..n as i64 {
                assert_eq!(g.get(x, y), Cell::Dead);
            }
        }
    }
}

#[test]
fn new_grid_of_size_zero_is_refused() {
    assert_eq!(Grid::new(0).unwrap_err(), GridError::InvalidSize);
}

#[test]
fn get_wraps_around_both_axes() {
    let g = grid_with(5, &[(4, 2), (3, 4)]);
    assert_eq!(g.get(-1, 2), g.get(4, 2));
    assert_eq!(g.get(-1, 2), Cell::Alive);
    assert_eq!(g.get(3, -1), g.get(3, 4));
    assert_eq!(g.get(3, -1), Cell::Alive);
    assert_eq!(g.get(9, 7), Cell::Alive);
    assert_eq!(g.get(-6, -3), Cell::Alive);
    assert_eq!(g.get(-6, -4), Cell::Dead);
    assert_eq!(g.get(i64::MIN, i64::MAX), g.get(i64::MIN.rem_euclid(5), i64::MAX.rem_euclid(5)));
}

#[test]
fn set_writes_one_cell() {
    let g = Grid::new(3).unwrap();
    let h = g.set(2, 0, Cell::Alive).unwrap();
    assert_eq!(alive_cells(&h), vec![(2, 0)]);
    assert_eq!(alive_cells(&g), vec![]);
    let k = h.set(2, 0, Cell::Dead).unwrap();
    assert_eq!(k, g);
}

#[test]
fn set_refuses_out_of_range_coordinates() {
    let g = Grid::new(3).unwrap();
    assert_eq!(g.set(3, 0, Cell::Alive).unwrap_err(), GridError::CoordinateOutOfBounds);
    assert_eq!(g.set(0, -1, Cell::Alive).unwrap_err(), GridError::CoordinateOutOfBounds);
}

#[test]
fn toggle_twice_restores_the_grid() {
    let g = grid_with(4, &[(0, 0), (1, 3), (2, 2)]);
    for x in 0..4 {
        for y in 0..4 {
            let once = toggle(&g, x, y).unwrap();
            assert_ne!(once, g);
            assert_ne!(once.get(x, y), g.get(x, y));
            let twice = toggle(&once, x, y).unwrap();
            assert_eq!(twice, g);
        }
    }
}

#[test]
fn toggle_rejects_coordinates_outside_the_grid() {
    let g = grid_with(4, &[(1, 1)]);
    assert_eq!(toggle(&g, 4, 0).unwrap_err(), GridError::CoordinateOutOfBounds);
    assert_eq!(toggle(&g, -1, 0).unwrap_err(), GridError::CoordinateOutOfBounds);
    assert_eq!(toggle(&g, 0, 4).unwrap_err(), GridError::CoordinateOutOfBounds);
    assert_eq!(alive_cells(&g), vec![(1, 1)]);
}

#[test]
fn advance_is_deterministic() {
    let g = grid_with(6, &[(0, 1), (1, 2), (2, 0), (2, 1), (2, 2), (5, 5)]);
    let a = advance(&g);
    let b = advance(&g);
    assert_eq!(a, b);
    assert_eq!(alive_cells(&g), vec![(0, 1), (1, 2), (2, 0), (2, 1), (2, 2), (5, 5)]);
}

#[test]
fn block_is_a_still_life() {
    let g = grid_with(4, &[(1, 1), (1, 2), (2, 1), (2, 2)]);
    assert_eq!(advance(&g), g);
    let h = grid_with(6, &[(5, 5), (5, 0), (0, 5), (0, 0)]);
    assert_eq!(advance(&h), h);
}

#[test]
fn lonely_cell_dies() {
    let g = grid_with(5, &[(2, 2)]);
    assert_eq!(neighbor_count(&g, 2, 2), 0);
    assert_eq!(alive_cells(&advance(&g)), vec![]);
    let h = grid_with(5, &[(2, 2), (2, 3)]);
    assert_eq!(neighbor_count(&h, 2, 2), 1);
    assert_eq!(alive_cells(&advance(&h)), vec![]);
}

#[test]
fn crowded_cell_dies() {
    let g = grid_with(5, &[(2, 2), (1, 2), (3, 2), (2, 1), (2, 3)]);
    assert_eq!(neighbor_count(&g, 2, 2), 4);
    assert_eq!(advance(&g).get(2, 2), Cell::Dead);
}

#[test]
fn dead_cell_with_three_neighbours_is_born() {
    let g = grid_with(5, &[(1, 1), (1, 3), (3, 2)]);
    assert_eq!(g.get(2, 2), Cell::Dead);
    assert_eq!(neighbor_count(&g, 2, 2), 3);
    assert_eq!(advance(&g).get(2, 2), Cell::Alive);
}

#[test]
fn neighbour_count_wraps_at_corners() {
    let g = grid_with(4, &[(3, 3), (0, 3), (3, 0)]);
    assert_eq!(neighbor_count(&g, 0, 0), 3);
    assert_eq!(neighbor_count(&g, -4, 8), 3);
    assert_eq!(advance(&g).get(0, 0), Cell::Alive);
}

#[test]
fn single_cell_grid() {
    let dead = Grid::new(1).unwrap();
    assert_eq!(neighbor_count(&dead, 0, 0), 0);
    assert_eq!(advance(&dead).get(0, 0), Cell::Dead);
    let alive = toggle(&dead, 0, 0).unwrap();
    assert_eq!(neighbor_count(&alive, 0, 0), 8);
    assert_eq!(neighbor_count(&alive, 7, -3), 8);
    assert_eq!(advance(&alive).get(0, 0), Cell::Dead);
}

#[test]
fn column_of_three_on_three_by_three_torus() {
    // On a 3x3 torus every cell neighbours all eight others: the two other
    // column cells keep each live cell alive, and each dead cell sees three.
    let g = grid_with(3, &[(1, 0), (1, 1), (1, 2)]);
    for x in 0..3 {
        for y in 0..3 {
            let expected = if x == 1 { 2 } else { 3 };
            assert_eq!(neighbor_count(&g, x, y), expected);
        }
    }
    let once = advance(&g);
    assert_eq!(alive_cells(&once).len(), 9);
    let twice = advance(&once);
    assert_eq!(alive_cells(&twice), vec![]);
}

#[test]
fn blinker_oscillates_on_a_larger_grid() {
    let g = grid_with(5, &[(2, 1), (2, 2), (2, 3)]);
    let once = advance(&g);
    assert_eq!(alive_cells(&once), vec![(1, 2), (2, 2), (3, 2)]);
    assert_eq!(advance(&once), g);
}

#[test]
fn transition_rule_table() {
    for n in 0..=8u8 {
        let survives = if n == 2 || n == 3 { Cell::Alive } else { Cell::Dead };
        let born = if n == 3 { Cell::Alive } else { Cell::Dead };
        assert_eq!(next_state(Cell::Alive, n), survives);
        assert_eq!(next_state(Cell::Dead, n), born);
    }
}

#[test]
fn cell_flip_and_liveness() {
    assert_eq!(Cell::Alive.flip(), Cell::Dead);
    assert_eq!(Cell::Dead.flip(), Cell::Alive);
    assert!(Cell::Alive.is_alive());
    assert!(!Cell::Dead.is_alive());
}

#[test]
fn pointer_maps_to_floor_of_tile() {
    // 800 px viewport, 100 px padding, 40 tiles: each tile is 15 px wide.
    assert_eq!(pointer_to_cell(100, 100, 800, 100, 40), Some((0, 0)));
    assert_eq!(pointer_to_cell(114, 115, 800, 100, 40), Some((0, 1)));
    assert_eq!(pointer_to_cell(150, 699, 800, 100, 40), Some((3, 39)));
    assert_eq!(pointer_to_cell(700, 400, 800, 100, 40), Some((40, 20)));
    // 10 px field split into 3 tiles: boundaries at 3.33 and 6.67 px.
    assert_eq!(pointer_to_cell(3, 4, 10, 0, 3), Some((0, 1)));
    assert_eq!(pointer_to_cell(7, 10, 10, 0, 3), Some((2, 3)));
}

#[test]
fn pointer_off_the_field_is_discarded() {
    assert_eq!(pointer_to_cell(99, 400, 800, 100, 40), None);
    assert_eq!(pointer_to_cell(400, 701, 800, 100, 40), None);
    assert_eq!(pointer_to_cell(400, 400, 800, 100, 0), None);
    assert_eq!(pointer_to_cell(400, 400, 800, 400, 40), None);
}

#[test]
fn click_on_far_edge_is_rejected_by_toggle() {
    let g = Grid::new(40).unwrap();
    let (x, y) = pointer_to_cell(700, 400, 800, 100, 40).unwrap();
    assert_eq!(toggle(&g, x, y).unwrap_err(), GridError::CoordinateOutOfBounds);
    let (x, y) = pointer_to_cell(699, 400, 800, 100, 40).unwrap();
    assert_eq!(alive_cells(&toggle(&g, x, y).unwrap()), vec![(39, 20)]);
}

#[test]
fn simulation_state_toggles() {
    assert_eq!(SimulationState::Stopped.toggled(), SimulationState::Running);
    assert_eq!(SimulationState::Running.toggled(), SimulationState::Stopped);
    assert!(SimulationState::Running.is_running());
    assert!(!SimulationState::Stopped.is_running());
}
