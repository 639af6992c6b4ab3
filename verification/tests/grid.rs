use triathalon_of_life::grid::{Grid, COLOR_COUNT, HEIGHT, WIDTH};

#[test]
fn constants_match_the_simulation() {
    assert_eq!(COLOR_COUNT, 3);
    assert_eq!(WIDTH, 126);
    assert_eq!(HEIGHT, 96);
}

#[test]
fn empty_grid_is_empty() {
    let grid = Grid::empty(3, 4);
    assert_eq!(grid.height(), 3);
    assert_eq!(grid.width(), 4);
    for row in 0..3 {
        for col in 0..4 {
            assert_eq!(grid.get(row, col), None);
        }
    }
}

#[test]
fn empty_grid_may_have_no_cells() {
    let flat = Grid::empty(0, 5);
    assert_eq!(flat.height(), 0);
    assert_eq!(flat.width(), 5);
    assert_eq!(flat.get(0, 0), None);
    let thin = Grid::empty(5, 0);
    assert_eq!(thin.height(), 5);
    assert_eq!(thin.width(), 0);
    assert_eq!(thin.get(0, 0), None);
}

#[test]
fn set_writes_one_cell_only() {
    let mut grid = Grid::empty(3, 4);
    grid.set(1, 2, Some(2));
    for row in 0..3 {
        for col in 0..4 {
            let expected = if (row, col) == (1, 2) { Some(2) } else { None };
            assert_eq!(grid.get(row, col), expected);
        }
    }
    grid.set(1, 2, None);
    assert_eq!(grid, Grid::empty(3, 4));
}

#[test]
fn set_keeps_the_dimensions() {
    let mut grid = Grid::empty(2, 5);
    grid.set(1, 4, Some(0));
    assert_eq!(grid.height(), 2);
    assert_eq!(grid.width(), 5);
}

#[test]
fn get_outside_the_grid_is_empty() {
    let mut grid = Grid::empty(2, 3);
    grid.set(0, 0, Some(1));
    grid.set(1, 2, Some(0));
    assert_eq!(grid.get(2, 0), None);
    assert_eq!(grid.get(0, 3), None);
    assert_eq!(grid.get(2, 3), None);
    assert_eq!(grid.get(usize::MAX, 0), None);
    assert_eq!(grid.get(0, usize::MAX), None);
    assert_eq!(grid.get(usize::MAX, usize::MAX), None);
}

#[test]
fn rows_do_not_run_into_each_other() {
    // (0, 3) lies outside a grid 3 wide; it is not the cell (1, 0).
    let mut grid = Grid::empty(2, 3);
    grid.set(1, 0, Some(2));
    assert_eq!(grid.get(0, 3), None);
    assert_eq!(grid.get(1, 0), Some(2));
}

#[test]
fn from_fn_fills_every_cell_from_its_position() {
    let grid = Grid::from_fn(3, 4, |row, col| if row == col { Some(row % 3) } else { None });
    assert_eq!(grid.height(), 3);
    assert_eq!(grid.width(), 4);
    for row in 0..3 {
        for col in 0..4 {
            let expected = if row == col { Some(row % 3) } else { None };
            assert_eq!(grid.get(row, col), expected);
        }
    }
}

#[test]
fn from_fn_tells_rows_from_columns() {
    let grid = Grid::from_fn(2, 3, |row, col| if (row, col) == (1, 2) { Some(1) } else { None });
    assert_eq!(grid.get(1, 2), Some(1));
    assert_eq!(grid.get(0, 2), None);
    assert_eq!(grid.get(1, 1), None);
    let mut expected = Grid::empty(2, 3);
    expected.set(1, 2, Some(1));
    assert_eq!(grid, expected);
}

#[test]
fn grids_of_other_dimensions_differ() {
    assert_ne!(Grid::empty(2, 3), Grid::empty(3, 2));
    assert_eq!(Grid::empty(2, 3), Grid::empty(2, 3).clone());
}
