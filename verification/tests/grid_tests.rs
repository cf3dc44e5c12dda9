use suwaru::grid::Grid;
use suwaru::rastercell::RasterCell;

// A 4x3 grid with cell size 1 m whose cells carry elevations 0..=11 m in
// storage order.
fn create_test_grid_no1() -> Grid {
    let mut grid = Grid::new(4, 3, 1_000_000);
    for i in 0..12 {
        let cell = RasterCell::new_with_xyz(0, 0, (i as i64) * 1_000_000);
        grid.cells.push(cell);
    }
    grid
}

#[test]
fn test_get_cell() {
    let grid = create_test_grid_no1();

    assert_eq!(grid.get_cell(0, 0).elevation, 0);
    assert_eq!(grid.get_cell(1, 0).elevation, 1_000_000);
    assert_eq!(grid.get_cell(1, 2).elevation, 9_000_000);
    assert_eq!(grid.get_cell(3, 2).elevation, 11_000_000);
}

#[test]
fn test_clone() {
    let grid = create_test_grid_no1();
    let mut cloned = grid.clone();

    assert_eq!(grid, cloned);

    cloned.cells[0].y = 31470;
    assert_ne!(grid, cloned);
}

#[test]
fn test_get_cell_neighbours_order() {
    let grid = create_test_grid_no1();
    let cell_neighbours = grid.get_cell_neighbours(1, 1);

    assert_eq!(cell_neighbours[0].elevation, 0);
    assert_eq!(cell_neighbours[1].elevation, 1_000_000);
    assert_eq!(cell_neighbours[2].elevation, 2_000_000);

    assert_eq!(cell_neighbours[3].elevation, 4_000_000);
    assert_eq!(cell_neighbours[4].elevation, 6_000_000);

    assert_eq!(cell_neighbours[5].elevation, 8_000_000);
    assert_eq!(cell_neighbours[6].elevation, 9_000_000);
    assert_eq!(cell_neighbours[7].elevation, 10_000_000);
}

#[test]
fn test_get_cell_neighbours_1_1() {
    let grid = create_test_grid_no1();
    let cell_neighbours = grid.get_cell_neighbours(1, 1);

    assert_eq!(cell_neighbours.len(), 8);
}

#[test]
fn test_get_cell_neighbours_0_0() {
    let grid = create_test_grid_no1();
    let cell_neighbours = grid.get_cell_neighbours(0, 0);

    assert_eq!(cell_neighbours.len(), 3);
}

#[test]
fn test_get_cell_neighbours_0_1() {
    let grid = create_test_grid_no1();
    let cell_neighbours = grid.get_cell_neighbours(0, 1);

    assert_eq!(cell_neighbours.len(), 5);
}

#[test]
fn test_get_cell_neighbours_1_0() {
    let grid = create_test_grid_no1();
    let cell_neighbours = grid.get_cell_neighbours(1, 0);

    assert_eq!(cell_neighbours.len(), 5);
}

#[test]
fn test_get_cell_neighbours_max_max() {
    let grid = create_test_grid_no1();
    let cell_neighbours = grid.get_cell_neighbours(grid.n_cols - 1, grid.n_rows - 1);

    assert_eq!(cell_neighbours.len(), 3);
}

#[test]
fn test_get_cell_neighbours_0_max() {
    let grid = create_test_grid_no1();
    let cell_neighbours = grid.get_cell_neighbours(0, grid.n_rows - 1);

    assert_eq!(cell_neighbours.len(), 3);
}

#[test]
fn test_get_cell_neighbours_max_0() {
    let grid = create_test_grid_no1();
    let cell_neighbours = grid.get_cell_neighbours(grid.n_cols - 1, 0);

    assert_eq!(cell_neighbours.len(), 3);
}

#[test]
fn test_get_cell_neighbours_1_max() {
    let grid = create_test_grid_no1();
    let cell_neighbours = grid.get_cell_neighbours(1, grid.n_rows - 1);

    assert_eq!(cell_neighbours.len(), 5);
}

#[test]
fn test_get_cell_neighbours_max_1() {
    let grid = create_test_grid_no1();
    let cell_neighbours = grid.get_cell_neighbours(grid.n_cols - 1, 1);

    assert_eq!(cell_neighbours.len(), 5);
}

#[test]
fn test_get_cell_neighbours_with_lower_water_level() {
    // Center cell (1, 1) has elevation 5 m; exactly the neighbours with
    // elevation below 5 m qualify, in row-major order.
    let grid = create_test_grid_no1();
    let lower = grid.get_cell_neighbours_with_lower_water_level(1, 1);

    assert_eq!(lower.len(), 4);
    assert_eq!(lower[0].elevation, 0);
    assert_eq!(lower[1].elevation, 1_000_000);
    assert_eq!(lower[2].elevation, 2_000_000);
    assert_eq!(lower[3].elevation, 4_000_000);
}

#[test]
fn test_set_cell_depth() {
    let mut grid = create_test_grid_no1();
    grid.set_cell_depth(2, 1, 750_000);

    assert_eq!(grid.get_cell(2, 1).depth, 750_000);
    assert_eq!(grid.get_cell(2, 1).elevation, 6_000_000);
    assert_eq!(grid.get_cell(1, 1).depth, 0);
}

#[test]
fn test_get_water_volume() {
    // Depth 0.5 m on a 2 m cell: 0.5 * 2 * 2 = 2 cubic meters.
    let mut grid = Grid::new(1, 1, 2_000_000);
    let mut cell = RasterCell::new_with_xy(0, 0);
    cell.depth = 500_000;
    grid.cells.push(cell);

    assert_eq!(grid.get_water_volume(0, 0), 2_000_000);
}
