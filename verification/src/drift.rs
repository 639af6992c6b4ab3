//! The drift heuristic: which way the grid's content shifts on the next step.
//!
//! Each of the four border lines is searched for streaks, three cells in a
//! row along the border that hold one color. On each axis the content shifts
//! away from the border that has more of them.

use vstd::prelude::*;
use crate::grid::{at, width_of, Cells, Grid, Line};

verus! {

/// A step of the whole grid's content: `dx` columns to the right and `dy` rows
/// down. The drift calculator only produces components in `{-1, 0, 1}`.
#[derive(Clone, Copy, Debug, PartialEq, Eq, Structural)]
pub struct ShiftVector {
    pub dx: i8,
    pub dy: i8,
}

/// The row of `cells` with the given index; empty where there is no such row.
pub open spec fn row_line(cells: Cells, row: int) -> Line {
    if 0 <= row < cells.len() {
        cells[row]
    } else {
        Seq::empty()
    }
}

/// The column of `cells` with the given index, top to bottom; all empty cells
/// where there is no such column.
pub open spec fn column_line(cells: Cells, col: int) -> Line {
    Seq::new(cells.len(), |r: int| at(cells, r, col))
}

/// A row (`horizontal`) or a column of `cells`.
pub open spec fn line_of(cells: Cells, horizontal: bool, index: int) -> Line {
    if horizontal {
        row_line(cells, index)
    } else {
        column_line(cells, index)
    }
}

/// Position `i` is a streak hit: it is not an end of the line, and it and both
/// its neighbors along the line hold the same color.
pub open spec fn streak_at(line: Line, i: int) -> bool {
    &&& 0 < i < line.len() - 1
    &&& line[i] is Some
    &&& line[i - 1] == line[i]
    &&& line[i + 1] == line[i]
}

/// The number of streak hits among the first `n` positions of `line`.
pub open spec fn streaks_below(line: Line, n: int) -> nat
    decreases n,
{
    if n <= 0 {
        0
    } else {
        streaks_below(line, n - 1) + if streak_at(line, n - 1) {
            1nat
        } else {
            0nat
        }
    }
}

/// The number of streak hits on `line`.
pub open spec fn streaks(line: Line) -> nat {
    streaks_below(line, line.len() as int)
}

/// The sign of `d`: 1, 0 or -1.
pub open spec fn sign(d: int) -> int {
    if d > 0 {
        1
    } else if d < 0 {
        -1
    } else {
        0
    }
}

/// The horizontal drift: the sign of the streak hits on the leftmost column
/// less those on the rightmost.
pub open spec fn drift_x(cells: Cells) -> int {
    sign(streaks(column_line(cells, 0)) - streaks(column_line(cells, width_of(cells) - 1)))
}

/// The vertical drift: the sign of the streak hits on the top row less those
/// on the bottom row.
pub open spec fn drift_y(cells: Cells) -> int {
    sign(streaks(row_line(cells, 0)) - streaks(row_line(cells, cells.len() - 1)))
}

/// A line without an occupied cell among its first `n` has no streak hit there.
pub proof fn lemma_no_streak_without_color(line: Line, n: int)
    requires
        n <= line.len(),
        forall|i: int| 0 <= i < n ==> line[i] is None,
    ensures
        streaks_below(line, n) == 0,
    decreases n,
{
    if n > 0 {
        lemma_no_streak_without_color(line, n - 1);
    }
}

/// Cell `i` of a row or a column of the grid.
fn line_cell(grid: &Grid, horizontal: bool, index: usize, i: usize) -> (v: Option<usize>)
    requires
        grid.wf(),
        i < line_of(grid@, horizontal, index as int).len(),
    ensures
        v == line_of(grid@, horizontal, index as int)[i as int],
{
    if horizontal {
        grid.get(index, i)
    } else {
        grid.get(i, index)
    }
}

/// Counts the streak hits on one row or column of the grid.
pub fn line_streaks(grid: &Grid, horizontal: bool, index: usize) -> (n: usize)
    requires
        grid.wf(),
    ensures
        n == streaks(line_of(grid@, horizontal, index as int)),
{
    let len = if horizontal {
        if index < grid.height() {
            grid.width()
        } else {
            0
        }
    } else {
        grid.height()
    };
    let ghost line = line_of(grid@, horizontal, index as int);
    assert(line.len() == len);
    if len < 3 {
        assert(streaks(line) == 0) by {
            reveal_with_fuel(streaks_below, 3);
        }
        return 0;
    }
    let mut n: usize = 0;
    let mut i: usize = 1;
    assert(streaks_below(line, 1) == 0) by {
        reveal_with_fuel(streaks_below, 2);
    }
    while i + 1 < len
        invariant
            grid.wf(),
            line == line_of(grid@, horizontal, index as int),
            line.len() == len,
            1 <= i < len,
            n == streaks_below(line, i as int),
            n <= i,
        decreases len - i,
    {
        let here = line_cell(grid, horizontal, index, i);
        let before = line_cell(grid, horizontal, index, i - 1);
        let after = line_cell(grid, horizontal, index, i + 1);
        match (here, before, after) {
            (Some(a), Some(b), Some(c)) => {
                if a == b && a == c {
                    n += 1;
                }
            },
            _ => {},
        }
        i += 1;
    }
    n
}

/// 1, 0 or -1 as `first` is greater than, equal to or less than `second`.
fn sign_of_difference(first: usize, second: usize) -> (s: i8)
    ensures
        s == sign(first - second),
{
    if first > second {
        1
    } else if first < second {
        -1
    } else {
        0
    }
}

/// Derives the shift for the next step from the four border lines.
///
/// On each axis the shift is `+1` where the first border (left column, top
/// row) has more streak hits than the opposite one, `-1` where it has fewer,
/// and `0` where both have as many.
pub fn compute_shift(grid: &Grid) -> (shift: ShiftVector)
    requires
        grid.wf(),
    ensures
        shift.dx == drift_x(grid@),
        shift.dy == drift_y(grid@),
        -1 <= shift.dx <= 1,
        -1 <= shift.dy <= 1,
{
    let height = grid.height();
    let width = grid.width();
    if height == 0 || width == 0 {
        proof {
            lemma_no_streak_without_color(column_line(grid@, 0), height as int);
            lemma_no_streak_without_color(column_line(grid@, width_of(grid@) - 1), height as int);
        }
        return ShiftVector { dx: 0, dy: 0 };
    }
    let left = line_streaks(grid, false, 0);
    let right = line_streaks(grid, false, width - 1);
    let top = line_streaks(grid, true, 0);
    let bottom = line_streaks(grid, true, height - 1);
    ShiftVector { dx: sign_of_difference(left, right), dy: sign_of_difference(top, bottom) }
}

} // verus!
