use triathalon_of_life::census::{count_color, histogram};
use triathalon_of_life::grid::{Grid, COLOR_COUNT, HEIGHT, WIDTH};
use triathalon_of_life::seed::{
    all_positions, place_group, placements_of, seed, seed_sized, PLACEMENTS,
};

#[test]
fn placements_of_the_simulation() {
    assert_eq!(PLACEMENTS, 896);
    assert_eq!(PLACEMENTS, HEIGHT * WIDTH * 2 / 9 / COLOR_COUNT);
    assert_eq!(placements_of(HEIGHT, WIDTH), 896);
}

#[test]
fn placements_round_down() {
    assert_eq!(placements_of(0, 0), 0);
    assert_eq!(placements_of(3, 3), 0);
    assert_eq!(placements_of(2, 7), 1);
    assert_eq!(placements_of(9, 3), 2);
    assert_eq!(placements_of(9, 9), 6);
    assert_eq!(placements_of(10, 10), 7);
    assert_eq!(placements_of(1, 27), 2);
}

#[test]
fn placements_of_the_largest_grid() {
    let n = usize::MAX;
    let expected = (n as u128 * 2 / 9 / 3) as usize;
    assert_eq!(placements_of(1, n), expected);
    assert_eq!(placements_of(n, 1), expected);
}

#[test]
fn all_positions_go_row_by_row() {
    assert_eq!(
        all_positions(2, 3),
        vec![(0, 0), (0, 1), (0, 2), (1, 0), (1, 1), (1, 2)]
    );
    assert_eq!(all_positions(3, 1), vec![(0, 0), (1, 0), (2, 0)]);
}

#[test]
fn grids_without_cells_have_no_positions() {
    assert!(all_positions(0, 4).is_empty());
    assert!(all_positions(4, 0).is_empty());
}

#[test]
fn place_group_writes_the_palette_in_order() {
    let mut grid = Grid::empty(3, 3);
    let positions = vec![(2, 2), (0, 1), (1, 0), (2, 0), (0, 0)];
    place_group(&mut grid, &positions, 1, &[2, 0, 1]);
    let mut expected = Grid::empty(3, 3);
    expected.set(0, 1, Some(2));
    expected.set(1, 0, Some(0));
    expected.set(2, 0, Some(1));
    assert_eq!(grid, expected);
}

#[test]
fn place_group_at_the_end_of_the_list() {
    let mut grid = Grid::empty(2, 2);
    let positions = vec![(0, 0), (0, 1), (1, 0), (1, 1)];
    place_group(&mut grid, &positions, 1, &[0, 1, 2]);
    assert_eq!(grid.get(0, 0), None);
    assert_eq!(grid.get(0, 1), Some(0));
    assert_eq!(grid.get(1, 0), Some(1));
    assert_eq!(grid.get(1, 1), Some(2));
}

#[test]
fn place_group_overwrites_what_a_cell_held() {
    let mut grid = Grid::empty(1, 3);
    grid.set(0, 1, Some(0));
    place_group(&mut grid, &vec![(0, 1), (0, 1), (0, 2)], 0, &[1, 2, 2]);
    assert_eq!(grid.get(0, 0), None);
    assert_eq!(grid.get(0, 1), Some(2));
    assert_eq!(grid.get(0, 2), Some(2));
}

#[test]
fn seed_places_as_many_cells_of_each_color() {
    let mut rng = rand::thread_rng();
    let grid = seed(&mut rng);
    assert_eq!(grid.height(), 96);
    assert_eq!(grid.width(), 126);
    for color in 0..3 {
        assert_eq!(count_color(&grid, color), 896);
    }
    let found = histogram(&grid);
    assert_eq!(found.counts, [896, 896, 896]);
    assert_eq!(found.total, 2688);
    assert_eq!(96 * 126 - found.total, 9408);
}

#[test]
fn seed_holds_valid_colors_only() {
    let mut rng = rand::thread_rng();
    let grid = seed(&mut rng);
    let mut empty = 0;
    for row in 0..grid.height() {
        for col in 0..grid.width() {
            match grid.get(row, col) {
                Some(color) => assert!(color < COLOR_COUNT),
                None => empty += 1,
            }
        }
    }
    assert_eq!(empty, 9408);
}

#[test]
fn seed_sized_places_two_ninths_of_the_cells() {
    let mut rng = rand::thread_rng();
    let grid = seed_sized(9, 9, &mut rng);
    assert_eq!(grid.height(), 9);
    assert_eq!(grid.width(), 9);
    assert_eq!(histogram(&grid).counts, [6, 6, 6]);
    let odd = seed_sized(10, 10, &mut rng);
    assert_eq!(histogram(&odd).counts, [7, 7, 7]);
    assert_eq!(histogram(&odd).total, 21);
}

#[test]
fn seed_sized_of_a_small_grid_is_empty() {
    let mut rng = rand::thread_rng();
    assert_eq!(seed_sized(3, 3, &mut rng), Grid::empty(3, 3));
    assert_eq!(seed_sized(0, 0, &mut rng), Grid::empty(0, 0));
    assert_eq!(seed_sized(0, 9, &mut rng), Grid::empty(0, 9));
}

#[test]
fn seed_shuffles_the_positions() {
    // Unshuffled, the cells would fill the first rows from the left.
    let mut rng = rand::thread_rng();
    let grid = seed(&mut rng);
    let packed = Grid::from_fn(HEIGHT, WIDTH, |row, col| {
        let i = row * WIDTH + col;
        if i < PLACEMENTS * COLOR_COUNT {
            grid.get(row, col)
        } else {
            None
        }
    });
    assert_ne!(grid, packed);
    let first_rows = (0..PLACEMENTS * COLOR_COUNT)
        .filter(|i| grid.get(i / WIDTH, i % WIDTH).is_some())
        .count();
    assert!(first_rows < PLACEMENTS * COLOR_COUNT);
}

#[test]
fn two_seedings_differ() {
    let mut rng = rand::thread_rng();
    let first = seed(&mut rng);
    let second = seed(&mut rng);
    assert_ne!(first, second);
}
