use triathalon_of_life::census::{count_color, histogram, leading_colors, ColorHistogram};
use triathalon_of_life::grid::Grid;

const E: Option<usize> = None;
const R: Option<usize> = Some(0);
const G: Option<usize> = Some(1);
const B: Option<usize> = Some(2);

fn census_grid<const W: usize>(rows: &[[Option<usize>; W]]) -> Grid {
    Grid::from_fn(rows.len(), W, |row, col| rows[row][col])
}

fn count_empty(grid: &Grid) -> usize {
    let mut n = 0;
    for row in 0..grid.height() {
        for col in 0..grid.width() {
            if grid.get(row, col).is_none() {
                n += 1;
            }
        }
    }
    n
}

#[test]
fn count_color_counts_one_color() {
    let grid = census_grid(&[[R, G, B, G], [E, G, E, R], [B, E, G, G]]);
    assert_eq!(count_color(&grid, 0), 2);
    assert_eq!(count_color(&grid, 1), 5);
    assert_eq!(count_color(&grid, 2), 2);
}

#[test]
fn count_color_of_a_color_that_no_cell_holds() {
    let grid = census_grid(&[[R, R], [E, R]]);
    assert_eq!(count_color(&grid, 1), 0);
    assert_eq!(count_color(&grid, 7), 0);
}

#[test]
fn histogram_of_a_mixed_grid() {
    let grid = census_grid(&[[R, G, B, G], [E, G, E, R], [B, E, G, G]]);
    assert_eq!(histogram(&grid), ColorHistogram { counts: [2, 5, 2], total: 9 });
}

#[test]
fn histogram_of_an_empty_grid() {
    assert_eq!(histogram(&Grid::empty(4, 5)), ColorHistogram { counts: [0, 0, 0], total: 0 });
    assert_eq!(histogram(&Grid::empty(0, 0)), ColorHistogram { counts: [0, 0, 0], total: 0 });
}

#[test]
fn histogram_of_a_full_grid() {
    let grid = Grid::from_fn(5, 7, |row, col| Some((row + col) % 3));
    let found = histogram(&grid);
    assert_eq!(found.total, 35);
    assert_eq!(found.counts, [12, 12, 11]);
}

#[test]
fn occupied_and_empty_cells_add_up_to_all_cells() {
    let grid = census_grid(&[[R, G, B, G], [E, G, E, R], [B, E, G, G]]);
    let found = histogram(&grid);
    assert_eq!(found.counts.iter().sum::<usize>(), found.total);
    assert_eq!(found.total + count_empty(&grid), 12);
}

#[test]
fn occupancy_fractions_add_up_to_one() {
    let grid = census_grid(&[[R, G, B, G], [E, G, E, R], [B, E, G, G]]);
    let found = histogram(&grid);
    let fractions: Vec<f64> =
        found.counts.iter().map(|&n| n as f64 / found.total as f64).collect();
    let sum: f64 = fractions.iter().sum();
    assert!((sum - 1.0).abs() < 1e-12);
    let of_all: f64 = found.counts.iter().map(|&n| n as f64 / 12.0).sum();
    let empty = count_empty(&grid) as f64 / 12.0;
    assert!(of_all <= 1.0);
    assert!((of_all - (1.0 - empty)).abs() < 1e-12);
}

#[test]
fn one_color_leads() {
    assert_eq!(leading_colors(&[2, 5, 2]), vec![1]);
    assert_eq!(leading_colors(&[9, 5, 2]), vec![0]);
    assert_eq!(leading_colors(&[1, 5, 6]), vec![2]);
}

#[test]
fn tied_colors_lead_together() {
    assert_eq!(leading_colors(&[5, 5, 3]), vec![0, 1]);
    assert_eq!(leading_colors(&[3, 5, 5]), vec![1, 2]);
    assert_eq!(leading_colors(&[5, 3, 5]), vec![0, 2]);
    assert_eq!(leading_colors(&[4, 4, 4]), vec![0, 1, 2]);
}

#[test]
fn a_tie_below_the_lead_does_not_count() {
    assert_eq!(leading_colors(&[3, 3, 5]), vec![2]);
    assert_eq!(leading_colors(&[5, 3, 3]), vec![0]);
}

#[test]
fn every_color_leads_an_empty_grid() {
    let found = histogram(&Grid::empty(3, 3));
    assert_eq!(leading_colors(&found.counts), vec![0, 1, 2]);
}

#[test]
fn leaders_of_a_grid() {
    let grid = census_grid(&[[R, G, B, G], [E, G, E, R], [B, E, G, G]]);
    assert_eq!(leading_colors(&histogram(&grid).counts), vec![1]);
}

#[test]
fn greatest_count_leads_at_the_machine_limit() {
    assert_eq!(leading_colors(&[usize::MAX, 0, usize::MAX]), vec![0, 2]);
}
