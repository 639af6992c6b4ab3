//! Counting cells: how many hold each color, how many are occupied, and
//! which colors lead.

use vstd::prelude::*;
use vstd::arithmetic::mul::lemma_mul_inequality;
use crate::grid::{is_grid, valid_cell, Cells, Grid, Line, COLOR_COUNT};

verus! {

/// How many of the first `n` cells of `row` hold `value`.
pub open spec fn row_tally(row: Line, n: int, value: Option<usize>) -> nat
    decreases n,
{
    if n <= 0 {
        0
    } else {
        row_tally(row, n - 1, value) + if row[n - 1] == value {
            1nat
        } else {
            0nat
        }
    }
}

/// How many cells in the first `n` rows of `cells` hold `value`.
pub open spec fn tally_below(cells: Cells, n: int, value: Option<usize>) -> nat
    decreases n,
{
    if n <= 0 {
        0
    } else {
        tally_below(cells, n - 1, value) + row_tally(cells[n - 1], cells[n - 1].len() as int, value)
    }
}

/// How many cells of `cells` hold `value`: a color, or `None` for the empty cells.
pub open spec fn tally(cells: Cells, value: Option<usize>) -> nat {
    tally_below(cells, cells.len() as int, value)
}

/// How many cells in the first `n` rows of `cells` hold one of the colors below `m`.
pub open spec fn color_sum_below(cells: Cells, n: int, m: int) -> nat
    decreases m,
{
    if m <= 0 {
        0
    } else {
        color_sum_below(cells, n, m - 1) + tally_below(cells, n, Some((m - 1) as usize))
    }
}

/// How many cells of `cells` hold one of the colors below `m`.
pub open spec fn color_sum(cells: Cells, m: int) -> nat {
    color_sum_below(cells, cells.len() as int, m)
}

/// How many cells of `cells` are occupied.
pub open spec fn occupied(cells: Cells) -> nat {
    color_sum(cells, COLOR_COUNT as int)
}

/// A prefix of a row holds a value at most as often as it has cells.
pub proof fn lemma_row_tally_bounded(row: Line, n: int, value: Option<usize>)
    requires
        0 <= n,
    ensures
        row_tally(row, n, value) <= n,
    decreases n,
{
    if n > 0 {
        lemma_row_tally_bounded(row, n - 1, value);
    }
}

/// The first `n` rows of a grid `width` wide hold a value at most `n * width` times.
pub proof fn lemma_tally_bounded(cells: Cells, n: int, width: nat, value: Option<usize>)
    requires
        0 <= n <= cells.len(),
        forall|r: int| 0 <= r < cells.len() ==> (#[trigger] cells[r]).len() == width,
    ensures
        tally_below(cells, n, value) <= n * width,
    decreases n,
{
    if n > 0 {
        lemma_tally_bounded(cells, n - 1, width, value);
        lemma_row_tally_bounded(cells[n - 1], width as int, value);
        assert(n * width == (n - 1) * width + width) by (nonlinear_arith);
    }
}

/// How many of the first `n` cells of `row` hold one of the colors below `m`.
pub open spec fn row_color_sum(row: Line, n: int, m: int) -> nat
    decreases m,
{
    if m <= 0 {
        0
    } else {
        row_color_sum(row, n, m - 1) + row_tally(row, n, Some((m - 1) as usize))
    }
}

/// One more cell adds one to the colors' sum exactly when it holds one of them.
proof fn lemma_row_color_step(row: Line, n: int, m: int)
    requires
        0 < n,
        0 <= m <= usize::MAX,
    ensures
        row_color_sum(row, n, m) == row_color_sum(row, n - 1, m) + if row[n - 1] matches Some(k)
            && k < m {
            1nat
        } else {
            0nat
        },
    decreases m,
{
    if m > 0 {
        lemma_row_color_step(row, n, m - 1);
    }
}

/// One more row adds its own colors' sum.
proof fn lemma_color_step(cells: Cells, n: int, m: int)
    requires
        0 < n,
        0 <= m,
    ensures
        color_sum_below(cells, n, m) == color_sum_below(cells, n - 1, m) + row_color_sum(
            cells[n - 1],
            cells[n - 1].len() as int,
            m,
        ),
    decreases m,
{
    if m > 0 {
        lemma_color_step(cells, n, m - 1);
    }
}

/// Among the first `n` cells of a row of valid cells, the empty ones and the
/// ones of each color add up to `n`.
pub proof fn lemma_row_partition(row: Line, n: int)
    requires
        0 <= n <= row.len(),
        forall|c: int| 0 <= c < row.len() ==> valid_cell(#[trigger] row[c]),
    ensures
        row_tally(row, n, None) + row_color_sum(row, n, COLOR_COUNT as int) == n,
    decreases n,
{
    if n > 0 {
        lemma_row_partition(row, n - 1);
        lemma_row_color_step(row, n, COLOR_COUNT as int);
        assert(valid_cell(row[n - 1]));
    } else {
        lemma_row_color_none(row, COLOR_COUNT as int);
    }
}

/// No color is found among no cells.
proof fn lemma_row_color_none(row: Line, m: int)
    ensures
        row_color_sum(row, 0, m) == 0,
    decreases m,
{
    if m > 0 {
        lemma_row_color_none(row, m - 1);
    }
}

/// No color is found among no rows.
proof fn lemma_color_none(cells: Cells, m: int)
    ensures
        color_sum_below(cells, 0, m) == 0,
    decreases m,
{
    if m > 0 {
        lemma_color_none(cells, m - 1);
    }
}

/// In the first `n` rows of a grid, the empty cells and the cells of each
/// color add up to the number of cells.
pub proof fn lemma_partition_below(cells: Cells, height: nat, width: nat, n: int)
    requires
        is_grid(cells, height, width),
        0 <= n <= height,
    ensures
        tally_below(cells, n, None) + color_sum_below(cells, n, COLOR_COUNT as int) == n * width,
    decreases n,
{
    if n > 0 {
        lemma_partition_below(cells, height, width, n - 1);
        lemma_color_step(cells, n, COLOR_COUNT as int);
        let row = cells[n - 1];
        assert forall|c: int| 0 <= c < row.len() implies valid_cell(#[trigger] row[c]) by {
            assert(valid_cell(cells[n - 1][c]));
        }
        lemma_row_partition(row, width as int);
        assert(n * width == (n - 1) * width + width) by (nonlinear_arith);
    } else {
        lemma_color_none(cells, COLOR_COUNT as int);
        assert(n * width == 0) by (nonlinear_arith)
            requires
                n == 0,
        ;
    }
}

/// Every cell of a grid is empty or holds exactly one color: the empty
/// cells and the occupied cells add up to `height * width`, and the occupied
/// cells are the cells of each color added up.
pub proof fn lemma_census_partition(cells: Cells, height: nat, width: nat)
    requires
        is_grid(cells, height, width),
    ensures
        tally(cells, None) + occupied(cells) == height * width,
        occupied(cells) <= height * width,
{
    lemma_partition_below(cells, height, width, height as int);
}

/// Counts the cells of the grid that hold `color`.
pub fn count_color(grid: &Grid, color: usize) -> (n: usize)
    requires
        grid.wf(),
    ensures
        n == tally(grid@, Some(color)),
{
    let height = grid.height();
    let width = grid.width();
    let mut n: usize = 0;
    let mut row: usize = 0;
    while row < height
        invariant
            grid.wf(),
            height == grid.rows(),
            width == grid.cols(),
            row <= height,
            n == tally_below(grid@, row as int, Some(color)),
        decreases height - row,
    {
        let mut in_row: usize = 0;
        let mut col: usize = 0;
        while col < width
            invariant
                grid.wf(),
                height == grid.rows(),
                width == grid.cols(),
                row < height,
                col <= width,
                in_row == row_tally(grid@[row as int], col as int, Some(color)),
                in_row <= col,
            decreases width - col,
        {
            match grid.get(row, col) {
                Some(found) => {
                    if found == color {
                        in_row += 1;
                    }
                },
                None => {},
            }
            col += 1;
        }
        proof {
            grid.lemma_store_fits();
            lemma_tally_bounded(grid@, row as int + 1, width as nat, Some(color));
            lemma_mul_inequality(row as int + 1, height as int, width as int);
        }
        n += in_row;
        row += 1;
    }
    n
}

/// The cells of fewer colors are no more than the cells of more colors.
pub proof fn lemma_color_sum_grows(cells: Cells, n: int, m: int, limit: int)
    requires
        m <= limit,
    ensures
        color_sum_below(cells, n, m) <= color_sum_below(cells, n, limit),
    decreases limit - m,
{
    if m < limit {
        lemma_color_sum_grows(cells, n, m, limit - 1);
    }
}

/// The number of cells of each color, and of occupied cells in all.
#[derive(Clone, Copy, Debug, PartialEq, Eq)]
pub struct ColorHistogram {
    /// `counts[k]` is the number of cells that hold color `k`.
    pub counts: [usize; COLOR_COUNT],
    /// The number of occupied cells.
    pub total: usize,
}

impl ColorHistogram {
    /// The histogram holds the counts of `cells`.
    pub open spec fn describes(&self, cells: Cells) -> bool {
        &&& forall|k: int|
            0 <= k < COLOR_COUNT ==> #[trigger] self.counts@[k] == tally(cells, Some(k as usize))
        &&& self.total == occupied(cells)
    }
}

/// Counts the cells of each color and the occupied cells of the grid.
pub fn histogram(grid: &Grid) -> (out: ColorHistogram)
    requires
        grid.wf(),
    ensures
        out.describes(grid@),
        out.total + tally(grid@, None) == grid.rows() * grid.cols(),
{
    let count_of = |color: usize| -> (n: usize)
        requires
            color < COLOR_COUNT,
        ensures
            n == tally(grid@, Some(color)),
        { count_color(grid, color) };
    let counts: [usize; COLOR_COUNT] = array_init::array_init(count_of);
    let mut total: usize = 0;
    let mut k: usize = 0;
    proof {
        lemma_census_partition(grid@, grid.rows(), grid.cols());
        grid.lemma_store_fits();
    }
    while k < COLOR_COUNT
        invariant
            k <= COLOR_COUNT,
            total == color_sum(grid@, k as int),
            occupied(grid@) <= usize::MAX,
            forall|j: int|
                0 <= j < COLOR_COUNT ==> #[trigger] counts@[j] == tally(grid@, Some(j as usize)),
        decreases COLOR_COUNT - k,
    {
        proof {
            lemma_color_sum_grows(grid@, grid@.len() as int, k as int + 1, COLOR_COUNT as int);
        }
        total += counts[k];
        k += 1;
    }
    ColorHistogram { counts, total }
}

/// Color `k` leads: no color has a greater count.
pub open spec fn is_leader(counts: Seq<usize>, k: int) -> bool {
    &&& 0 <= k < counts.len()
    &&& forall|j: int| 0 <= j < counts.len() ==> counts[j] <= counts[k]
}

/// The colors tied for the greatest count, in increasing order. Where no
/// cell is occupied every color leads.
pub fn leading_colors(counts: &[usize; COLOR_COUNT]) -> (out: Vec<usize>)
    ensures
        out@.len() >= 1,
        forall|i: int, j: int| 0 <= i < j < out@.len() ==> out@[i] < out@[j],
        forall|i: int| 0 <= i < out@.len() ==> is_leader(counts@, #[trigger] out@[i] as int),
        forall|k: int| is_leader(counts@, k) ==> out@.contains(k as usize),
{
    let mut leaders: Vec<usize> = Vec::new();
    leaders.push(0);
    let mut best: usize = counts[0];
    let mut k: usize = 1;
    assert(leaders@[0] == 0);
    while k < COLOR_COUNT
        invariant
            1 <= k <= COLOR_COUNT,
            leaders@.len() >= 1,
            forall|j: int| 0 <= j < k ==> counts@[j] <= best,
            forall|i: int|
                0 <= i < leaders@.len() ==> (#[trigger] leaders@[i]) < k
                    && counts@[leaders@[i] as int] == best,
            forall|i: int, j: int| 0 <= i < j < leaders@.len() ==> leaders@[i] < leaders@[j],
            forall|j: int| 0 <= j < k && counts@[j] == best ==> leaders@.contains(j as usize),
        decreases COLOR_COUNT - k,
    {
        if counts[k] > best {
            leaders.clear();
            leaders.push(k);
            best = counts[k];
            assert(leaders@[0] == k);
        } else if counts[k] == best {
            let ghost before = leaders@;
            leaders.push(k);
            assert forall|j: int| 0 <= j < k + 1 && counts@[j] == best implies leaders@.contains(
                j as usize,
            ) by {
                if j < k {
                    let i = choose|i: int| 0 <= i < before.len() && before[i] == j as usize;
                    assert(leaders@[i] == j as usize);
                } else {
                    assert(leaders@[before.len() as int] == k);
                }
            }
        }
        k += 1;
    }
    assert forall|k: int| is_leader(counts@, k) implies leaders@.contains(k as usize) by {
        assert(counts@[k] <= best);
        assert(counts@[leaders@[0] as int] <= counts@[k]);
    }
    leaders
}

} // verus!
