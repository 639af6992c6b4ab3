//! The transition: translate the content by the drift, then apply the birth,
//! survival and death rules to every cell.

use vstd::prelude::*;
use crate::drift::ShiftVector;
use crate::grid::{at, valid_cell, Cells, Grid, COLOR_COUNT};

verus! {

/// 1 when the position lies in the grid and holds `color`, else 0.
pub open spec fn hit(cells: Cells, row: int, col: int, color: usize) -> nat {
    if at(cells, row, col) == Some(color) {
        1
    } else {
        0
    }
}

/// How many of the eight cells around `(row, col)` hold `color`. Positions
/// outside the grid hold nothing.
pub open spec fn neighbors(cells: Cells, row: int, col: int, color: usize) -> nat {
    hit(cells, row - 1, col - 1, color) + hit(cells, row - 1, col, color)
        + hit(cells, row - 1, col + 1, color) + hit(cells, row, col - 1, color)
        + hit(cells, row, col + 1, color) + hit(cells, row + 1, col - 1, color)
        + hit(cells, row + 1, col, color) + hit(cells, row + 1, col + 1, color)
}

/// The neighbor counts of the colors below `n`, added up.
pub open spec fn crowd_below(cells: Cells, row: int, col: int, n: int) -> nat
    decreases n,
{
    if n <= 0 {
        0
    } else {
        crowd_below(cells, row, col, n - 1) + neighbors(cells, row, col, (n - 1) as usize)
    }
}

/// The neighbor counts of all colors, added up.
pub open spec fn crowd(cells: Cells, row: int, col: int) -> nat {
    crowd_below(cells, row, col, COLOR_COUNT as int)
}

/// `color` is the one and only color with exactly `target` neighbors around
/// `(row, col)`.
pub open spec fn is_sole(cells: Cells, row: int, col: int, color: usize, target: nat) -> bool {
    &&& color < COLOR_COUNT
    &&& neighbors(cells, row, col, color) == target
    &&& forall|other: usize|
        other < COLOR_COUNT && #[trigger] neighbors(cells, row, col, other) == target
            ==> other == color
}

/// The one and only color with exactly `target` neighbors, if there is one.
pub open spec fn sole_color(cells: Cells, row: int, col: int, target: nat) -> Option<usize> {
    if exists|color: usize| is_sole(cells, row, col, color, target) {
        Some(choose|color: usize| is_sole(cells, row, col, color, target))
    } else {
        None
    }
}

/// What the cell at `(row, col)` holds after one update.
///
/// An occupied cell dies with fewer than two neighbors of its own color or
/// with more than three neighbors in all; otherwise it stays. An empty cell
/// is born only with exactly three neighbors in all: with the color that
/// alone has three of them, else with the color that alone has two.
pub open spec fn next_state(cells: Cells, row: int, col: int) -> Option<usize> {
    match at(cells, row, col) {
        Some(color) => if neighbors(cells, row, col, color) < 2 || crowd(cells, row, col) > 3 {
            None
        } else {
            Some(color)
        },
        None => if crowd(cells, row, col) == 3 {
            match sole_color(cells, row, col, 3) {
                Some(color) => Some(color),
                None => sole_color(cells, row, col, 2),
            }
        } else {
            None
        },
    }
}

/// The content moved `dx` columns right and `dy` rows down: each cell takes
/// the value found `dy` rows up and `dx` columns left, or is empty when that
/// source lies outside the grid.
pub open spec fn translated(cells: Cells, dx: int, dy: int) -> Cells {
    Seq::new(
        cells.len(),
        |r: int| Seq::new(cells[r].len(), |c: int| at(cells, r - dy, c - dx)),
    )
}

/// Every cell replaced by its next state, all read from the same old grid.
pub open spec fn updated(cells: Cells) -> Cells {
    Seq::new(cells.len(), |r: int| Seq::new(cells[r].len(), |c: int| next_state(cells, r, c)))
}

/// One generation: translate by `(dx, dy)`, then update.
pub open spec fn advanced(cells: Cells, dx: int, dy: int) -> Cells {
    updated(translated(cells, dx, dy))
}

/// 1 when the position lies in the grid and holds `color`, else 0.
fn holds(grid: &Grid, row: usize, col: usize, color: usize) -> (n: usize)
    requires
        grid.wf(),
    ensures
        n == hit(grid@, row as int, col as int, color),
{
    match grid.get(row, col) {
        Some(found) => if found == color {
            1
        } else {
            0
        },
        None => 0,
    }
}

/// Counts the cells around `(row, col)` that hold `color`.
pub fn neighbor_count(grid: &Grid, row: usize, col: usize, color: usize) -> (n: usize)
    requires
        grid.wf(),
        row < grid.rows(),
        col < grid.cols(),
    ensures
        n == neighbors(grid@, row as int, col as int, color),
{
    let mut n: usize = 0;
    if row > 0 {
        if col > 0 {
            n += holds(grid, row - 1, col - 1, color);
        }
        n += holds(grid, row - 1, col, color);
        n += holds(grid, row - 1, col + 1, color);
    }
    if col > 0 {
        n += holds(grid, row, col - 1, color);
        n += holds(grid, row + 1, col - 1, color);
    }
    n += holds(grid, row, col + 1, color);
    n += holds(grid, row + 1, col, color);
    n += holds(grid, row + 1, col + 1, color);
    n
}

/// `out` is the only index of `counts` whose entry equals `target`, or `None`
/// where no index or more than one has such an entry.
spec fn is_sole_index(counts: Seq<usize>, target: usize, out: Option<usize>) -> bool {
    match out {
        Some(k) => k < counts.len() && counts[k as int] == target && forall|j: int|
            0 <= j < counts.len() && counts[j] == target ==> j == k,
        None => forall|k: int|
            0 <= k < counts.len() && counts[k] == target ==> exists|j: int|
                0 <= j < counts.len() && j != k && counts[j] == target,
    }
}

/// Where `counts` holds the neighbor counts of the colors around a cell, the
/// sole index with `target` is the sole color with `target` neighbors.
proof fn lemma_sole_index_is_sole_color(
    cells: Cells,
    row: int,
    col: int,
    counts: Seq<usize>,
    target: usize,
    out: Option<usize>,
)
    requires
        counts.len() == COLOR_COUNT,
        forall|j: int|
            0 <= j < COLOR_COUNT ==> counts[j] == neighbors(cells, row, col, j as usize),
        is_sole_index(counts, target, out),
    ensures
        out == sole_color(cells, row, col, target as nat),
{
    match out {
        Some(k) => {
            assert forall|other: usize|
                other < COLOR_COUNT && #[trigger] neighbors(cells, row, col, other)
                    == target implies other == k by {
                assert(counts[other as int] == target);
            }
            assert(is_sole(cells, row, col, k, target as nat));
        },
        None => {
            assert forall|color: usize| !is_sole(cells, row, col, color, target as nat) by {
                if is_sole(cells, row, col, color, target as nat) {
                    assert(counts[color as int] == target);
                    let j = choose|j: int|
                        0 <= j < COLOR_COUNT && j != color && counts[j] == target;
                    assert(neighbors(cells, row, col, j as usize) == target);
                }
            }
        },
    }
}

/// The only index whose count equals `target`, if exactly one does.
fn sole_index(counts: &[usize; COLOR_COUNT], target: usize) -> (out: Option<usize>)
    ensures
        is_sole_index(counts@, target, out),
{
    let mut found: Option<usize> = None;
    let mut several = false;
    let mut k: usize = 0;
    while k < COLOR_COUNT
        invariant
            k <= COLOR_COUNT,
            match found {
                Some(f) => f < k && counts@[f as int] == target,
                None => !several,
            },
            !several ==> forall|j: int|
                0 <= j < k && counts@[j] == target ==> found == Some(j as usize),
            several ==> exists|i: int, j: int|
                0 <= i < j < k && counts@[i] == target && counts@[j] == target,
        decreases COLOR_COUNT - k,
    {
        if counts[k] == target {
            if found.is_some() {
                several = true;
            } else {
                found = Some(k);
            }
        }
        k += 1;
    }
    if several {
        None
    } else {
        found
    }
}

/// Computes what the cell at `(row, col)` holds after one update.
pub fn next_cell(grid: &Grid, row: usize, col: usize) -> (out: Option<usize>)
    requires
        grid.wf(),
        row < grid.rows(),
        col < grid.cols(),
    ensures
        out == next_state(grid@, row as int, col as int),
        valid_cell(out),
{
    let count_of = |k: usize| -> (n: usize)
        requires
            k < COLOR_COUNT,
        ensures
            n == neighbors(grid@, row as int, col as int, k),
        { neighbor_count(grid, row, col, k) };
    let counts: [usize; COLOR_COUNT] = array_init::array_init(count_of);
    let mut total: usize = 0;
    let mut k: usize = 0;
    while k < COLOR_COUNT
        invariant
            k <= COLOR_COUNT,
            total == crowd_below(grid@, row as int, col as int, k as int),
            total <= 8 * k,
            forall|j: int|
                0 <= j < COLOR_COUNT
                    ==> counts@[j] == neighbors(grid@, row as int, col as int, j as usize),
        decreases COLOR_COUNT - k,
    {
        total += counts[k];
        k += 1;
    }
    match grid.get(row, col) {
        Some(color) => if counts[color] < 2 || total > 3 {
            None
        } else {
            Some(color)
        },
        None => if total == 3 {
            let three = sole_index(&counts, 3);
            proof {
                lemma_sole_index_is_sole_color(grid@, row as int, col as int, counts@, 3, three);
            }
            match three {
                Some(color) => Some(color),
                None => {
                    let two = sole_index(&counts, 2);
                    proof {
                        lemma_sole_index_is_sole_color(
                            grid@,
                            row as int,
                            col as int,
                            counts@,
                            2,
                            two,
                        );
                    }
                    two
                },
            }
        } else {
            None
        },
    }
}

/// Where the value for position `pos` comes from when content moves by
/// `delta` along a line of `len` cells: `pos - delta`, or nothing when that
/// falls off either end.
fn source(pos: usize, delta: i8, len: usize) -> (src: Option<usize>)
    requires
        pos < len,
    ensures
        src == (if 0 <= pos - delta < len {
            Some((pos - delta) as usize)
        } else {
            None
        }),
{
    if delta >= 0 {
        let back = delta as usize;
        if pos >= back {
            Some(pos - back)
        } else {
            None
        }
    } else {
        let ahead = (-(delta as i16)) as usize;
        if len - pos > ahead {
            Some(pos + ahead)
        } else {
            None
        }
    }
}

/// Moves the content by `shift` into a fresh grid. Cells whose source lies
/// outside the grid become empty; nothing wraps around.
pub fn translate(grid: &Grid, shift: ShiftVector) -> (out: Grid)
    requires
        grid.wf(),
    ensures
        out.wf(),
        out.rows() == grid.rows(),
        out.cols() == grid.cols(),
        out@ == translated(grid@, shift.dx as int, shift.dy as int),
{
    let height = grid.height();
    let width = grid.width();
    let moved = |row: usize, col: usize| -> (v: Option<usize>)
        requires
            row < height,
            col < width,
        ensures
            v == at(grid@, row - shift.dy, col - shift.dx),
        {
            match (source(row, shift.dy, height), source(col, shift.dx, width)) {
                (Some(from_row), Some(from_col)) => grid.get(from_row, from_col),
                _ => None,
            }
        };
    proof {
        grid.lemma_store_fits();
    }
    let out = Grid::from_fn(height, width, moved);
    assert(out@ =~~= translated(grid@, shift.dx as int, shift.dy as int));
    out
}

/// Applies the birth, survival and death rules to every cell, reading only
/// the old grid and writing a fresh one.
pub fn update(grid: &Grid) -> (out: Grid)
    requires
        grid.wf(),
    ensures
        out.wf(),
        out.rows() == grid.rows(),
        out.cols() == grid.cols(),
        out@ == updated(grid@),
{
    let height = grid.height();
    let width = grid.width();
    let next = |row: usize, col: usize| -> (v: Option<usize>)
        requires
            row < height,
            col < width,
        ensures
            v == next_state(grid@, row as int, col as int),
            valid_cell(v),
        { next_cell(grid, row, col) };
    proof {
        grid.lemma_store_fits();
    }
    let out = Grid::from_fn(height, width, next);
    assert(out@ =~~= updated(grid@));
    out
}

/// One generation: the content is translated by `shift`, then every cell is
/// updated. The result is a new grid of the same dimensions.
pub fn advance(grid: &Grid, shift: ShiftVector) -> (out: Grid)
    requires
        grid.wf(),
    ensures
        out.wf(),
        out.rows() == grid.rows(),
        out.cols() == grid.cols(),
        out@ == advanced(grid@, shift.dx as int, shift.dy as int),
{
    let moved = translate(grid, shift);
    update(&moved)
}

} // verus!
