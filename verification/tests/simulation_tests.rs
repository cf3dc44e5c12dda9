use suwaru::grid::Grid;
use suwaru::rastercell::RasterCell;
use suwaru::simulation::Simulation;

fn total_depth(grid: &Grid) -> i64 {
    let mut sum: i64 = 0;
    for cell in &grid.cells {
        sum += cell.depth;
    }
    sum
}

fn uniform_grid(n_cols: usize, n_rows: usize, elevation: i64, depth: i64) -> Grid {
    let mut grid = Grid::new(n_cols, n_rows, 1_000_000);
    for y in 0..n_rows {
        for x in 0..n_cols {
            let mut cell = RasterCell::new_with_xyz(x, y, elevation);
            cell.depth = depth;
            grid.cells.push(cell);
        }
    }
    grid
}

#[test]
fn test_buffer_is_snapshot() {
    let grid = uniform_grid(3, 3, 5_000_000, 250_000);
    let simulation = Simulation::new(grid);

    assert_eq!(simulation.grid, simulation.buffer_grid);
}

#[test]
fn test_flat_grid_is_steady() {
    // Uniform elevation and depth: zero slope everywhere, so no cell's
    // depth changes, over any number of steps.
    let grid = uniform_grid(4, 3, 5_000_000, 500_000);
    let mut simulation = Simulation::new(grid);

    for _ in 0..50 {
        simulation.advance_by_timestep(1_000);
    }

    for cell in &simulation.grid.cells {
        assert_eq!(cell.depth, 500_000);
        assert_eq!(cell.elevation, 5_000_000);
    }
}

#[test]
fn test_two_cell_redistribution() {
    // The first cell stands a full meter above the second: water moves only
    // from the first to the second, the total is conserved exactly at every
    // step, and no depth ever goes negative.
    let mut grid = Grid::new(2, 1, 1_000_000);
    let mut high = RasterCell::new_with_xyz(0, 0, 1_000_000);
    high.depth = 500_000;
    let mut low = RasterCell::new_with_xyz(1, 0, 0);
    low.depth = 100_000;
    grid.cells.push(high);
    grid.cells.push(low);

    let initial_total = total_depth(&grid);
    let mut simulation = Simulation::new(grid);

    let mut prev_high = simulation.grid.cells[0].depth;
    let mut prev_low = simulation.grid.cells[1].depth;
    for _ in 0..200 {
        simulation.advance_by_timestep(1_000);
        let h = simulation.grid.cells[0].depth;
        let l = simulation.grid.cells[1].depth;
        assert!(h >= 0 && l >= 0);
        assert!(h <= prev_high);
        assert!(l >= prev_low);
        assert_eq!(h + l, initial_total);
        assert_eq!(total_depth(&simulation.grid), initial_total);
        prev_high = h;
        prev_low = l;
    }
    // Something actually moved downhill.
    assert!(simulation.grid.cells[0].depth < 500_000);
    assert!(simulation.grid.cells[1].depth > 100_000);
    // The buffer holds the snapshot of the step before the last one, not a
    // stale copy of the initial grid.
    assert_eq!(simulation.buffer_grid.cells[0].depth, prev_high);
}

#[test]
fn test_conservation_on_slope() {
    // A sloped 4x3 terrain with uneven water: the total depth is invariant
    // across many steps and every depth stays nonnegative, even when the
    // conservation clamp engages (large timestep).
    let mut grid = Grid::new(4, 3, 1_000_000);
    for y in 0..3usize {
        for x in 0..4usize {
            let mut cell = RasterCell::new_with_xyz(x, y, (3 - x as i64) * 2_000_000);
            cell.depth = if (x + y) % 2 == 0 { 400_000 } else { 50_000 };
            grid.cells.push(cell);
        }
    }
    let initial_total = total_depth(&grid);
    let mut simulation = Simulation::new(grid);

    for _ in 0..100 {
        simulation.advance_by_timestep(1_000_000_000);
        assert_eq!(total_depth(&simulation.grid), initial_total);
        for cell in &simulation.grid.cells {
            assert!(cell.depth >= 0);
            assert_eq!(cell.elevation, (3 - cell.x as i64) * 2_000_000);
        }
    }
}
