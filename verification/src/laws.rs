//! Laws of the drift and of the transition, proved from the definitions in
//! `drift` and `rules`.

use vstd::prelude::*;
use crate::drift::{column_line, drift_x, drift_y, row_line, streaks};
use crate::grid::{at, is_grid, valid_cell, width_of, Cells, COLOR_COUNT};
use crate::rules::{
    advanced, crowd, crowd_below, hit, is_sole, neighbors, next_state, sole_color, translated,
    updated,
};

verus! {

/// No cell of `cells` is occupied.
pub open spec fn all_empty(cells: Cells) -> bool {
    forall|r: int, c: int|
        0 <= r < cells.len() && 0 <= c < cells[r].len() ==> (#[trigger] cells[r][c]) is None
}

/// The cell at `(row, col)` is occupied and the update keeps it.
pub open spec fn survives(cells: Cells, row: int, col: int) -> bool {
    at(cells, row, col) matches Some(color) && neighbors(cells, row, col, color) >= 2
        && crowd(cells, row, col) <= 3
}

/// The cell at `(row, col)` is empty and the update leaves it so.
pub open spec fn stays_empty(cells: Cells, row: int, col: int) -> bool {
    &&& at(cells, row, col) is None
    &&& crowd(cells, row, col) == 3 ==> sole_color(cells, row, col, 3) is None
        && sole_color(cells, row, col, 2) is None
}

/// A still life: every cell either survives or stays empty.
pub open spec fn still_life(cells: Cells) -> bool {
    forall|r: int, c: int|
        0 <= r < cells.len() && 0 <= c < cells[r].len() ==> #[trigger] survives(cells, r, c)
            || stays_empty(cells, r, c)
}

/// 1 when the position lies in the grid and is occupied, else 0.
pub open spec fn occupied_at(cells: Cells, row: int, col: int) -> nat {
    if at(cells, row, col) is Some {
        1
    } else {
        0
    }
}

/// How many of the eight cells around `(row, col)` are occupied.
pub open spec fn occupied_neighbors(cells: Cells, row: int, col: int) -> nat {
    occupied_at(cells, row - 1, col - 1) + occupied_at(cells, row - 1, col)
        + occupied_at(cells, row - 1, col + 1) + occupied_at(cells, row, col - 1)
        + occupied_at(cells, row, col + 1) + occupied_at(cells, row + 1, col - 1)
        + occupied_at(cells, row + 1, col) + occupied_at(cells, row + 1, col + 1)
}

/// 1 when the position lies in the grid and holds a color below `n`, else 0.
spec fn hit_below(cells: Cells, row: int, col: int, n: int) -> nat {
    if at(cells, row, col) matches Some(color) && color < n {
        1
    } else {
        0
    }
}

/// A position holds a color below `n` when it holds one below `n - 1` or
/// the color `n - 1` itself.
proof fn lemma_hit_below_step(cells: Cells, row: int, col: int, n: int)
    requires
        0 < n <= usize::MAX,
    ensures
        hit_below(cells, row, col, n) == hit_below(cells, row, col, n - 1) + hit(
            cells,
            row,
            col,
            (n - 1) as usize,
        ),
{
}

/// Counting the neighbors color by color, for the colors below `n`, counts
/// each neighbor that holds one of these colors once.
proof fn lemma_crowd_by_position(cells: Cells, row: int, col: int, n: int)
    requires
        0 <= n <= usize::MAX,
    ensures
        crowd_below(cells, row, col, n) == hit_below(cells, row - 1, col - 1, n)
            + hit_below(cells, row - 1, col, n) + hit_below(cells, row - 1, col + 1, n)
            + hit_below(cells, row, col - 1, n) + hit_below(cells, row, col + 1, n)
            + hit_below(cells, row + 1, col - 1, n) + hit_below(cells, row + 1, col, n)
            + hit_below(cells, row + 1, col + 1, n),
    decreases n,
{
    if n > 0 {
        lemma_crowd_by_position(cells, row, col, n - 1);
        lemma_hit_below_step(cells, row - 1, col - 1, n);
        lemma_hit_below_step(cells, row - 1, col, n);
        lemma_hit_below_step(cells, row - 1, col + 1, n);
        lemma_hit_below_step(cells, row, col - 1, n);
        lemma_hit_below_step(cells, row, col + 1, n);
        lemma_hit_below_step(cells, row + 1, col - 1, n);
        lemma_hit_below_step(cells, row + 1, col, n);
        lemma_hit_below_step(cells, row + 1, col + 1, n);
    }
}

/// On a grid of valid cells the total neighbor count is the number of
/// occupied neighbors, whatever their colors.
pub proof fn lemma_crowd_is_occupied_neighbors(
    cells: Cells,
    height: nat,
    width: nat,
    row: int,
    col: int,
)
    requires
        is_grid(cells, height, width),
    ensures
        crowd(cells, row, col) == occupied_neighbors(cells, row, col),
{
    lemma_crowd_by_position(cells, row, col, COLOR_COUNT as int);
    assert forall|r: int, c: int| #[trigger]
        hit_below(cells, r, c, COLOR_COUNT as int) == occupied_at(cells, r, c) by {
        if 0 <= r < cells.len() && 0 <= c < cells[r].len() {
            assert(valid_cell(cells[r][c]));
        }
    }
}

/// The total neighbor count is at least the count of any one color.
pub proof fn lemma_crowd_covers_one(cells: Cells, row: int, col: int, n: int, a: usize)
    requires
        a < n,
    ensures
        crowd_below(cells, row, col, n) >= neighbors(cells, row, col, a),
    decreases n,
{
    if n - 1 != a {
        lemma_crowd_covers_one(cells, row, col, n - 1, a);
    }
}

/// The total neighbor count is at least the counts of any two colors together.
pub proof fn lemma_crowd_covers_two(cells: Cells, row: int, col: int, n: int, a: usize, b: usize)
    requires
        a < n,
        b < n,
        a != b,
    ensures
        crowd_below(cells, row, col, n) >= neighbors(cells, row, col, a)
            + neighbors(cells, row, col, b),
    decreases n,
{
    if n - 1 == a {
        lemma_crowd_covers_one(cells, row, col, n - 1, b);
    } else if n - 1 == b {
        lemma_crowd_covers_one(cells, row, col, n - 1, a);
    } else {
        lemma_crowd_covers_two(cells, row, col, n - 1, a, b);
    }
}

/// The total neighbor count is at least the counts of any three colors together.
pub proof fn lemma_crowd_covers_three(
    cells: Cells,
    row: int,
    col: int,
    n: int,
    a: usize,
    b: usize,
    c: usize,
)
    requires
        a < n,
        b < n,
        c < n,
        a != b,
        a != c,
        b != c,
    ensures
        crowd_below(cells, row, col, n) >= neighbors(cells, row, col, a)
            + neighbors(cells, row, col, b) + neighbors(cells, row, col, c),
    decreases n,
{
    if n - 1 == a {
        lemma_crowd_covers_two(cells, row, col, n - 1, b, c);
    } else if n - 1 == b {
        lemma_crowd_covers_two(cells, row, col, n - 1, a, c);
    } else if n - 1 == c {
        lemma_crowd_covers_two(cells, row, col, n - 1, a, b);
    } else {
        lemma_crowd_covers_three(cells, row, col, n - 1, a, b, c);
    }
}

/// The total neighbor count is at least the counts of any four colors together.
pub proof fn lemma_crowd_covers_four(
    cells: Cells,
    row: int,
    col: int,
    n: int,
    a: usize,
    b: usize,
    c: usize,
    d: usize,
)
    requires
        a < n,
        b < n,
        c < n,
        d < n,
        a != b,
        a != c,
        a != d,
        b != c,
        b != d,
        c != d,
    ensures
        crowd_below(cells, row, col, n) >= neighbors(cells, row, col, a)
            + neighbors(cells, row, col, b) + neighbors(cells, row, col, c)
            + neighbors(cells, row, col, d),
    decreases n,
{
    if n - 1 == a {
        lemma_crowd_covers_three(cells, row, col, n - 1, b, c, d);
    } else if n - 1 == b {
        lemma_crowd_covers_three(cells, row, col, n - 1, a, c, d);
    } else if n - 1 == c {
        lemma_crowd_covers_three(cells, row, col, n - 1, a, b, d);
    } else if n - 1 == d {
        lemma_crowd_covers_three(cells, row, col, n - 1, a, b, c);
    } else {
        lemma_crowd_covers_four(cells, row, col, n - 1, a, b, c, d);
    }
}

/// Around a position with no occupied neighbor the total count is zero.
pub proof fn lemma_crowd_of_none(cells: Cells, row: int, col: int, n: int)
    requires
        forall|color: usize| color < n ==> #[trigger] neighbors(cells, row, col, color) == 0,
    ensures
        crowd_below(cells, row, col, n) == 0,
    decreases n,
{
    if n > 0 {
        lemma_crowd_of_none(cells, row, col, n - 1);
    }
}

/// Translating by nothing changes nothing.
pub proof fn lemma_translate_by_nothing(cells: Cells)
    ensures
        translated(cells, 0, 0) == cells,
        advanced(cells, 0, 0) == updated(cells),
{
    assert(translated(cells, 0, 0) =~~= cells);
}

/// Nothing is born without neighbors: one generation of an all-empty grid,
/// whatever the shift, is the same all-empty grid.
pub proof fn lemma_empty_grid_stays_empty(cells: Cells, dx: int, dy: int)
    requires
        all_empty(cells),
    ensures
        all_empty(advanced(cells, dx, dy)),
        advanced(cells, dx, dy) == cells,
{
    assert forall|r: int, c: int| #[trigger] at(cells, r, c) is None by {
        if 0 <= r < cells.len() && 0 <= c < cells[r].len() {
            assert(cells[r][c] is None);
        }
    }
    assert(translated(cells, dx, dy) =~~= cells);
    assert forall|r: int, c: int|
        0 <= r < cells.len() && 0 <= c < cells[r].len() implies next_state(cells, r, c) is None by {
        lemma_crowd_of_none(cells, r, c, COLOR_COUNT as int);
    }
    assert(updated(cells) =~~= cells);
}

/// A cell with fewer than two neighbors of its own color dies in the update.
pub proof fn lemma_lonely_cell_dies(cells: Cells, row: int, col: int, color: usize)
    requires
        0 <= row < cells.len(),
        0 <= col < cells[row].len(),
        cells[row][col] == Some(color),
        neighbors(cells, row, col, color) < 2,
    ensures
        updated(cells)[row][col] is None,
        advanced(cells, 0, 0)[row][col] is None,
{
    lemma_translate_by_nothing(cells);
}

/// A cell with more than three neighbors of its own color dies in the
/// update: that many neighbors alone overcrowd it.
pub proof fn lemma_crowded_cell_dies(cells: Cells, row: int, col: int, color: usize)
    requires
        0 <= row < cells.len(),
        0 <= col < cells[row].len(),
        cells[row][col] == Some(color),
        color < COLOR_COUNT,
        neighbors(cells, row, col, color) > 3,
    ensures
        crowd(cells, row, col) > 3,
        updated(cells)[row][col] is None,
        advanced(cells, 0, 0)[row][col] is None,
{
    lemma_crowd_covers_one(cells, row, col, COLOR_COUNT as int, color);
    lemma_translate_by_nothing(cells);
}

/// An empty cell with exactly three neighbors, all of one color, is born
/// with that color.
pub proof fn lemma_birth_from_three(cells: Cells, row: int, col: int, color: usize)
    requires
        0 <= row < cells.len(),
        0 <= col < cells[row].len(),
        cells[row][col] is None,
        color < COLOR_COUNT,
        crowd(cells, row, col) == 3,
        neighbors(cells, row, col, color) == 3,
    ensures
        updated(cells)[row][col] == Some(color),
        advanced(cells, 0, 0)[row][col] == Some(color),
{
    lemma_translate_by_nothing(cells);
    assert forall|other: usize|
        other < COLOR_COUNT && #[trigger] neighbors(cells, row, col, other) == 3 implies other
        == color by {
        if other != color {
            lemma_crowd_covers_two(cells, row, col, COLOR_COUNT as int, color, other);
        }
    }
    assert(is_sole(cells, row, col, color, 3));
}

/// An empty cell with exactly three neighbors, two of one color and one of
/// another, is born with the color that has two.
pub proof fn lemma_birth_from_two_and_one(
    cells: Cells,
    row: int,
    col: int,
    major: usize,
    minor: usize,
)
    requires
        0 <= row < cells.len(),
        0 <= col < cells[row].len(),
        cells[row][col] is None,
        major < COLOR_COUNT,
        minor < COLOR_COUNT,
        crowd(cells, row, col) == 3,
        neighbors(cells, row, col, major) == 2,
        neighbors(cells, row, col, minor) == 1,
    ensures
        updated(cells)[row][col] == Some(major),
        advanced(cells, 0, 0)[row][col] == Some(major),
{
    lemma_translate_by_nothing(cells);
    assert forall|other: usize|
        other < COLOR_COUNT && other != major && other != minor implies #[trigger] neighbors(
        cells,
        row,
        col,
        other,
    ) == 0 by {
        lemma_crowd_covers_three(cells, row, col, COLOR_COUNT as int, major, minor, other);
    }
    assert forall|other: usize| !is_sole(cells, row, col, other, 3) by {
        if other < COLOR_COUNT && other != major && other != minor {
            assert(neighbors(cells, row, col, other) == 0);
        }
    }
    assert forall|other: usize|
        other < COLOR_COUNT && #[trigger] neighbors(cells, row, col, other) == 2 implies other
        == major by {
        if other != major && other != minor {
            assert(neighbors(cells, row, col, other) == 0);
        }
    }
    assert(is_sole(cells, row, col, major, 2));
}

/// An empty cell with exactly three neighbors of three different colors
/// stays empty.
pub proof fn lemma_no_birth_from_three_colors(
    cells: Cells,
    row: int,
    col: int,
    first: usize,
    second: usize,
    third: usize,
)
    requires
        0 <= row < cells.len(),
        0 <= col < cells[row].len(),
        cells[row][col] is None,
        first < COLOR_COUNT,
        second < COLOR_COUNT,
        third < COLOR_COUNT,
        first != second,
        first != third,
        second != third,
        crowd(cells, row, col) == 3,
        neighbors(cells, row, col, first) == 1,
        neighbors(cells, row, col, second) == 1,
        neighbors(cells, row, col, third) == 1,
    ensures
        updated(cells)[row][col] is None,
        advanced(cells, 0, 0)[row][col] is None,
{
    lemma_translate_by_nothing(cells);
    assert forall|other: usize| other < COLOR_COUNT implies #[trigger] neighbors(
        cells,
        row,
        col,
        other,
    ) <= 1 by {
        if other != first && other != second && other != third {
            lemma_crowd_covers_four(
                cells,
                row,
                col,
                COLOR_COUNT as int,
                first,
                second,
                third,
                other,
            );
        }
    }
    assert forall|other: usize| !is_sole(cells, row, col, other, 3) by {
        if other < COLOR_COUNT {
            assert(neighbors(cells, row, col, other) <= 1);
        }
    }
    assert forall|other: usize| !is_sole(cells, row, col, other, 2) by {
        if other < COLOR_COUNT {
            assert(neighbors(cells, row, col, other) <= 1);
        }
    }
}

/// Translation never wraps: a cell whose source lies outside the grid is
/// empty, whatever the opposite edge held. So with `dx < 0` the rightmost
/// column comes out empty, with `dx > 0` the leftmost, with `dy < 0` the
/// bottom row and with `dy > 0` the top row.
pub proof fn lemma_translate_never_wraps(cells: Cells, width: nat, dx: int, dy: int)
    requires
        forall|r: int| 0 <= r < cells.len() ==> (#[trigger] cells[r]).len() == width,
    ensures
        forall|r: int, c: int|
            0 <= r < cells.len() && 0 <= c < width && !(0 <= r - dy < cells.len() && 0 <= c - dx
                < width) ==> (#[trigger] translated(cells, dx, dy)[r][c]) is None,
        dx < 0 && width > 0 ==> forall|r: int|
            0 <= r < cells.len() ==> (#[trigger] translated(cells, dx, dy)[r])[width - 1] is None,
        dx > 0 && width > 0 ==> forall|r: int|
            0 <= r < cells.len() ==> (#[trigger] translated(cells, dx, dy)[r])[0] is None,
        dy < 0 && cells.len() > 0 ==> forall|c: int|
            0 <= c < width ==> (#[trigger] translated(cells, dx, dy)[cells.len() - 1][c]) is None,
        dy > 0 && cells.len() > 0 ==> forall|c: int|
            0 <= c < width ==> (#[trigger] translated(cells, dx, dy)[0][c]) is None,
{
}

/// A still life is a fixed point: one generation with no shift returns the
/// same grid.
pub proof fn lemma_still_life_is_fixed(cells: Cells)
    requires
        still_life(cells),
    ensures
        advanced(cells, 0, 0) == cells,
{
    lemma_translate_by_nothing(cells);
    assert forall|r: int, c: int|
        0 <= r < cells.len() && 0 <= c < cells[r].len() implies next_state(cells, r, c)
        == cells[r][c] by {
        assert(survives(cells, r, c) || stays_empty(cells, r, c));
    }
    assert(updated(cells) =~~= cells);
}

/// The content drifts away from the border with more streak hits: down when
/// the top row has more than the bottom row, up when it has fewer, and
/// likewise right or left by the leftmost and rightmost columns. Borders
/// with equally many hits give no shift on their axis.
pub proof fn lemma_drift_follows_streaks(cells: Cells)
    ensures
        ({
            let top = streaks(row_line(cells, 0));
            let bottom = streaks(row_line(cells, cells.len() - 1));
            &&& top > bottom ==> drift_y(cells) == 1
            &&& top == bottom ==> drift_y(cells) == 0
            &&& top < bottom ==> drift_y(cells) == -1
        }),
        ({
            let left = streaks(column_line(cells, 0));
            let right = streaks(column_line(cells, width_of(cells) - 1));
            &&& left > right ==> drift_x(cells) == 1
            &&& left == right ==> drift_x(cells) == 0
            &&& left < right ==> drift_x(cells) == -1
        }),
{
}

} // verus!
