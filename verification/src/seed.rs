//! The seeder: a random grid with as many cells of each color as of any other.

use vstd::prelude::*;
use vstd::arithmetic::div_mod::{
    lemma_fundamental_div_mod,
    lemma_mod_bound,
    lemma_multiply_divide_lt,
};
use rand::rngs::ThreadRng;
use crate::census::{row_tally, tally, tally_below};
use crate::grid::{is_grid, valid_cell, Cells, Grid, Line, COLOR_COUNT, HEIGHT, WIDTH};
use crate::outside::shuffle;

verus! {

/// The number of cells of each color that the seeder places on the
/// simulation's grid.
pub const PLACEMENTS: usize = WIDTH * HEIGHT * 2 / 9 / COLOR_COUNT;

/// The number of cells of each color that the seeder places on a grid of
/// the given dimensions: two ninths of the cells, shared by the colors.
pub open spec fn placements(height: nat, width: nat) -> nat {
    height * width * 2 / 9 / (COLOR_COUNT as nat)
}

/// The grid holds `each` cells of every color and is empty elsewhere.
pub open spec fn evenly_seeded(cells: Cells, height: nat, width: nat, each: nat) -> bool {
    &&& forall|color: usize| color < COLOR_COUNT ==> #[trigger] tally(cells, Some(color)) == each
    &&& tally(cells, None) == height * width - each * COLOR_COUNT
}

/// Every position lies in a grid of the given dimensions.
pub open spec fn in_bounds(positions: Seq<(usize, usize)>, height: nat, width: nat) -> bool {
    forall|i: int|
        0 <= i < positions.len() ==> (#[trigger] positions[i]).0 < height && positions[i].1 < width
}

/// The cell of `cells` at `position`, a pair of a row and a column.
pub open spec fn cell_at(cells: Cells, position: (usize, usize)) -> Option<usize> {
    cells[position.0 as int][position.1 as int]
}

/// `cells` with `value` written at `(row, col)`.
pub open spec fn put(cells: Cells, row: int, col: int, value: Option<usize>) -> Cells {
    cells.update(row, cells[row].update(col, value))
}

/// `cells` after the first `n` colors of `palette` were written, one each,
/// to the positions `start`, `start + 1`, ... of `positions`.
pub open spec fn placed(
    cells: Cells,
    positions: Seq<(usize, usize)>,
    start: int,
    palette: Seq<usize>,
    n: int,
) -> Cells
    decreases n,
{
    if n <= 0 {
        cells
    } else {
        put(
            placed(cells, positions, start, palette, n - 1),
            positions[start + n - 1].0 as int,
            positions[start + n - 1].1 as int,
            Some(palette[n - 1]),
        )
    }
}

/// How many of the first `n` entries of `palette` are `color`.
pub open spec fn occurrences(palette: Seq<usize>, n: int, color: usize) -> nat
    decreases n,
{
    if n <= 0 {
        0
    } else {
        occurrences(palette, n - 1, color) + if palette[n - 1] == color {
            1nat
        } else {
            0nat
        }
    }
}

/// 1 where `flag` holds, else 0.
pub open spec fn one_if(flag: bool) -> int {
    if flag {
        1
    } else {
        0
    }
}

/// Writing one cell of a row changes the row's count of a value by the
/// written cell alone.
pub proof fn lemma_row_put_tally(
    row: Line,
    col: int,
    value: Option<usize>,
    n: int,
    counted: Option<usize>,
)
    requires
        0 <= col < row.len(),
        0 <= n <= row.len(),
    ensures
        row_tally(row.update(col, value), n, counted) == row_tally(row, n, counted) + if col < n {
            one_if(value == counted) - one_if(row[col] == counted)
        } else {
            0
        },
    decreases n,
{
    if n > 0 {
        lemma_row_put_tally(row, col, value, n - 1, counted);
    }
}

/// Writing one cell of a grid changes the grid's count of a value by the
/// written cell alone.
pub proof fn lemma_put_tally_below(
    cells: Cells,
    row: int,
    col: int,
    value: Option<usize>,
    n: int,
    counted: Option<usize>,
)
    requires
        0 <= row < cells.len(),
        0 <= col < cells[row].len(),
        0 <= n <= cells.len(),
    ensures
        tally_below(put(cells, row, col, value), n, counted) == tally_below(cells, n, counted)
            + if row < n {
            one_if(value == counted) - one_if(cells[row][col] == counted)
        } else {
            0
        },
    decreases n,
{
    if n > 0 {
        lemma_put_tally_below(cells, row, col, value, n - 1, counted);
        if row == n - 1 {
            lemma_row_put_tally(cells[row], col, value, cells[row].len() as int, counted);
        }
    }
}

/// Among the first `n` cells of an all-empty row, every cell counts as
/// empty and none as colored.
proof fn lemma_row_tally_none(row: Line, n: int, counted: Option<usize>)
    requires
        0 <= n <= row.len(),
        forall|c: int| 0 <= c < row.len() ==> row[c] is None,
    ensures
        row_tally(row, n, counted) == if counted is None {
            n
        } else {
            0
        },
    decreases n,
{
    if n > 0 {
        lemma_row_tally_none(row, n - 1, counted);
    }
}

/// In the first `n` rows of an all-empty grid, every cell counts as empty
/// and none as colored.
proof fn lemma_tally_none_below(
    cells: Cells,
    height: nat,
    width: nat,
    n: int,
    counted: Option<usize>,
)
    requires
        is_grid(cells, height, width),
        forall|r: int, c: int| 0 <= r < height && 0 <= c < width ==> cells[r][c] is None,
        0 <= n <= height,
    ensures
        tally_below(cells, n, counted) == if counted is None {
            n * width
        } else {
            0
        },
    decreases n,
{
    if n > 0 {
        lemma_tally_none_below(cells, height, width, n - 1, counted);
        lemma_row_tally_none(cells[n - 1], width as int, counted);
        assert(n * width == (n - 1) * width + width) by (nonlinear_arith);
    } else {
        assert(n * width == 0) by (nonlinear_arith)
            requires
                n == 0,
        ;
    }
}

/// An all-empty grid holds no color, and as many empty cells as it has cells.
pub proof fn lemma_tally_of_empty(cells: Cells, height: nat, width: nat)
    requires
        is_grid(cells, height, width),
        forall|r: int, c: int| 0 <= r < height && 0 <= c < width ==> cells[r][c] is None,
    ensures
        forall|color: usize| #[trigger] tally(cells, Some(color)) == 0,
        tally(cells, None) == height * width,
{
    assert forall|color: usize| #[trigger] tally(cells, Some(color)) == 0 by {
        lemma_tally_none_below(cells, height, width, height as int, Some(color));
    }
    lemma_tally_none_below(cells, height, width, height as int, None);
}

/// Sequences that agree on their first `n` entries have the same occurrences
/// there.
pub proof fn lemma_occurrences_of_prefix(
    first: Seq<usize>,
    second: Seq<usize>,
    n: int,
    color: usize,
)
    requires
        n <= first.len(),
        n <= second.len(),
        forall|i: int| 0 <= i < n ==> first[i] == second[i],
    ensures
        occurrences(first, n, color) == occurrences(second, n, color),
    decreases n,
{
    if n > 0 {
        lemma_occurrences_of_prefix(first, second, n - 1, color);
    }
}

/// Counting an entry position by position gives its multiplicity.
pub proof fn lemma_occurrences_is_multiplicity(palette: Seq<usize>, color: usize)
    ensures
        occurrences(palette, palette.len() as int, color) == palette.to_multiset().count(color),
    decreases palette.len(),
{
    broadcast use vstd::seq_lib::group_to_multiset_ensures;
    broadcast use vstd::multiset::group_multiset_axioms;

    if palette.len() > 0 {
        let front = palette.drop_last();
        lemma_occurrences_is_multiplicity(front, color);
        lemma_occurrences_of_prefix(palette, front, front.len() as int, color);
        assert(palette =~= front.push(palette.last()));
        assert(palette.to_multiset() =~= front.to_multiset().insert(palette.last()));
    } else {
        assert(palette.to_multiset().len() == 0);
    }
}

/// The colors in increasing order hold each color below `n` once among
/// their first `n` entries, and no other.
pub proof fn lemma_occurrences_in_order(palette: Seq<usize>, n: int, color: usize)
    requires
        0 <= n <= palette.len(),
        forall|i: int| 0 <= i < palette.len() ==> palette[i] == i,
    ensures
        occurrences(palette, n, color) == one_if(color < n),
    decreases n,
{
    if n > 0 {
        lemma_occurrences_in_order(palette, n - 1, color);
    }
}

/// A rearrangement of the colors in increasing order still holds only
/// colors, as many entries as there are colors.
pub proof fn lemma_rearranged_palette(sorted: Seq<usize>, palette: Seq<usize>)
    requires
        forall|i: int| 0 <= i < sorted.len() ==> sorted[i] == i,
        palette.to_multiset() == sorted.to_multiset(),
    ensures
        palette.len() == sorted.len(),
        forall|k: int| 0 <= k < palette.len() ==> palette[k] < sorted.len(),
{
    broadcast use vstd::seq_lib::group_to_multiset_ensures;

    assert(palette.len() == palette.to_multiset().len());
    assert(sorted.len() == sorted.to_multiset().len());
    assert forall|k: int| 0 <= k < palette.len() implies palette[k] < sorted.len() by {
        assert(palette.contains(palette[k]));
        assert(palette.to_multiset().count(palette[k]) > 0);
        assert(sorted.contains(palette[k]));
    }
}

/// A rearrangement of distinct positions inside a grid is again a list of
/// distinct positions inside it, as long as before.
pub proof fn lemma_rearranged_positions(
    before: Seq<(usize, usize)>,
    after: Seq<(usize, usize)>,
    height: nat,
    width: nat,
)
    requires
        after.to_multiset() == before.to_multiset(),
        before.no_duplicates(),
        in_bounds(before, height, width),
    ensures
        after.len() == before.len(),
        after.no_duplicates(),
        in_bounds(after, height, width),
{
    broadcast use vstd::seq_lib::group_to_multiset_ensures;

    assert(after.len() == after.to_multiset().len());
    assert(before.len() == before.to_multiset().len());
    before.lemma_multiset_has_no_duplicates();
    after.lemma_multiset_has_no_duplicates_conv();
    assert forall|i: int| 0 <= i < after.len() implies (#[trigger] after[i]).0 < height
        && after[i].1 < width by {
        assert(after.contains(after[i]));
        assert(after.to_multiset().count(after[i]) > 0);
        assert(before.contains(after[i]));
    }
}

/// What writing the first `n` colors of a palette to `n` distinct empty
/// cells does: each color's count grows by its occurrences in the palette,
/// the empty cells become `n` fewer, and every other cell keeps its content.
pub proof fn lemma_placed(
    cells: Cells,
    height: nat,
    width: nat,
    positions: Seq<(usize, usize)>,
    start: int,
    palette: Seq<usize>,
    n: int,
)
    requires
        is_grid(cells, height, width),
        in_bounds(positions, height, width),
        positions.no_duplicates(),
        0 <= start,
        0 <= n <= palette.len(),
        start + n <= positions.len(),
        forall|k: int| 0 <= k < palette.len() ==> palette[k] < COLOR_COUNT,
        forall|i: int| start <= i < start + n ==> cell_at(cells, #[trigger] positions[i]) is None,
    ensures
        is_grid(placed(cells, positions, start, palette, n), height, width),
        forall|color: usize| #[trigger]
            tally(placed(cells, positions, start, palette, n), Some(color))
                == tally(cells, Some(color)) + occurrences(palette, n, color),
        tally(placed(cells, positions, start, palette, n), None) == tally(cells, None) - n,
        forall|i: int|
            0 <= i < positions.len() && !(start <= i < start + n) ==> cell_at(
                placed(cells, positions, start, palette, n),
                #[trigger] positions[i],
            ) == cell_at(cells, positions[i]),
    decreases n,
{
    if n > 0 {
        lemma_placed(cells, height, width, positions, start, palette, n - 1);
        let before = placed(cells, positions, start, palette, n - 1);
        let here = positions[start + n - 1];
        let row = here.0 as int;
        let col = here.1 as int;
        let value = Some(palette[n - 1]);
        let after = put(before, row, col, value);
        assert(after == placed(cells, positions, start, palette, n));
        assert(cell_at(before, here) == cell_at(cells, here));
        assert(cell_at(cells, here) is None);
        assert forall|color: usize| #[trigger]
            tally(after, Some(color)) == tally(cells, Some(color)) + occurrences(
                palette,
                n,
                color,
            ) by {
            lemma_put_tally_below(before, row, col, value, height as int, Some(color));
            assert(tally(before, Some(color)) == tally(cells, Some(color)) + occurrences(
                palette,
                n - 1,
                color,
            ));
        }
        lemma_put_tally_below(before, row, col, value, height as int, None);
        assert forall|i: int|
            0 <= i < positions.len() && !(start <= i < start + n) implies cell_at(
            after,
            #[trigger] positions[i],
        ) == cell_at(cells, positions[i]) by {
            assert(positions[i] != here);
            assert(cell_at(before, positions[i]) == cell_at(cells, positions[i]));
        }
        assert(valid_cell(value));
    }
}

/// Computes `placements(height, width)`.
pub fn placements_of(height: usize, width: usize) -> (n: usize)
    requires
        height * width <= usize::MAX,
    ensures
        n == placements(height as nat, width as nat),
        n * COLOR_COUNT <= height * width,
{
    let cells = height * width;
    let doubled = cells as u128 * 2;
    (doubled / 9 / (COLOR_COUNT as u128)) as usize
}

/// All positions of a grid, row by row: entry `i` is row `i / width`,
/// column `i % width`.
pub fn all_positions(height: usize, width: usize) -> (out: Vec<(usize, usize)>)
    requires
        height * width <= usize::MAX,
    ensures
        out@.len() == height * width,
        forall|i: int|
            0 <= i < out@.len() ==> #[trigger] out@[i] == (
                (i / width as int) as usize,
                (i % width as int) as usize,
            ),
        in_bounds(out@, height as nat, width as nat),
        out@.no_duplicates(),
{
    let total = height * width;
    let mut out: Vec<(usize, usize)> = Vec::new();
    let mut i: usize = 0;
    while i < total
        invariant
            i <= total,
            total == height * width,
            out@.len() == i,
            forall|j: int|
                0 <= j < i ==> #[trigger] out@[j] == (
                    (j / width as int) as usize,
                    (j % width as int) as usize,
                ),
            in_bounds(out@, height as nat, width as nat),
        decreases total - i,
    {
        proof {
            assert(width != 0 && i < width * height) by (nonlinear_arith)
                requires
                    i < height * width,
            ;
            lemma_multiply_divide_lt(i as int, width as int, height as int);
            lemma_mod_bound(i as int, width as int);
        }
        out.push((i / width, i % width));
        i += 1;
    }
    proof {
        assert forall|a: int, b: int|
            0 <= a < out@.len() && 0 <= b < out@.len() && a != b implies out@[a] != out@[b] by {
            if out@[a] == out@[b] {
                assert(width != 0) by (nonlinear_arith)
                    requires
                        0 <= a < height * width,
                ;
                lemma_fundamental_div_mod(a, width as int);
                lemma_fundamental_div_mod(b, width as int);
            }
        }
    }
    out
}

/// Writes one cell of each color of `palette`, in its order, to the
/// positions `start`, `start + 1`, ... of `positions`.
pub fn place_group(
    grid: &mut Grid,
    positions: &Vec<(usize, usize)>,
    start: usize,
    palette: &[usize; COLOR_COUNT],
)
    requires
        old(grid).wf(),
        start + COLOR_COUNT <= positions.len(),
        in_bounds(positions@, old(grid).rows(), old(grid).cols()),
        forall|k: int| 0 <= k < COLOR_COUNT ==> palette@[k] < COLOR_COUNT,
    ensures
        final(grid).wf(),
        final(grid).rows() == old(grid).rows(),
        final(grid).cols() == old(grid).cols(),
        final(grid)@ == placed(old(grid)@, positions@, start as int, palette@, COLOR_COUNT as int),
{
    let mut k: usize = 0;
    while k < COLOR_COUNT
        invariant
            k <= COLOR_COUNT,
            grid.wf(),
            grid.rows() == old(grid).rows(),
            grid.cols() == old(grid).cols(),
            start + COLOR_COUNT <= positions.len(),
            in_bounds(positions@, grid.rows(), grid.cols()),
            forall|j: int| 0 <= j < COLOR_COUNT ==> palette@[j] < COLOR_COUNT,
            grid@ == placed(old(grid)@, positions@, start as int, palette@, k as int),
        decreases COLOR_COUNT - k,
    {
        let (row, col) = positions[start + k];
        grid.set(row, col, Some(palette[k]));
        k += 1;
    }
}

/// A random grid of the given dimensions.
///
/// All positions are shuffled; then, `placements(height, width)` times, the
/// palette is shuffled and one cell of each color, in the palette's order,
/// goes to the next positions of the list. Whatever the generator yields,
/// the grid ends with `placements(height, width)` cells of each color and
/// every other cell empty.
pub fn seed_sized(height: usize, width: usize, rng: &mut ThreadRng) -> (out: Grid)
    requires
        height * width <= usize::MAX,
    ensures
        out.wf(),
        out.rows() == height,
        out.cols() == width,
        evenly_seeded(out@, height as nat, width as nat, placements(height as nat, width as nat)),
{
    let mut grid = Grid::empty(height, width);
    let mut positions = all_positions(height, width);
    let ghost in_order = positions@;
    shuffle(positions.as_mut_slice(), rng);
    let identity = |i: usize| -> (color: usize)
        ensures
            color == i,
        { i };
    let mut palette: [usize; COLOR_COUNT] = array_init::array_init(identity);
    let ghost sorted = palette@;
    let groups = placements_of(height, width);
    let mut done: usize = 0;
    proof {
        lemma_rearranged_positions(in_order, positions@, height as nat, width as nat);
        lemma_tally_of_empty(grid@, height as nat, width as nat);
    }
    while done < groups
        invariant
            done <= groups,
            groups * COLOR_COUNT <= height * width <= usize::MAX,
            grid.wf(),
            grid.rows() == height,
            grid.cols() == width,
            positions@.len() == height * width,
            positions@.no_duplicates(),
            in_bounds(positions@, height as nat, width as nat),
            sorted.len() == COLOR_COUNT,
            forall|i: int| 0 <= i < COLOR_COUNT ==> sorted[i] == i,
            palette@.to_multiset() == sorted.to_multiset(),
            forall|i: int|
                done * COLOR_COUNT <= i < positions@.len() ==> cell_at(
                    grid@,
                    #[trigger] positions@[i],
                ) is None,
            evenly_seeded(grid@, height as nat, width as nat, done as nat),
        decreases groups - done,
    {
        shuffle(&mut palette, rng);
        let ghost before = grid@;
        let start = done * COLOR_COUNT;
        proof {
            lemma_rearranged_palette(sorted, palette@);
        }
        place_group(&mut grid, &positions, start, &palette);
        proof {
            lemma_placed(
                before,
                height as nat,
                width as nat,
                positions@,
                start as int,
                palette@,
                COLOR_COUNT as int,
            );
            assert forall|color: usize| color < COLOR_COUNT implies #[trigger] tally(
                grid@,
                Some(color),
            ) == done + 1 by {
                lemma_occurrences_is_multiplicity(palette@, color);
                lemma_occurrences_is_multiplicity(sorted, color);
                lemma_occurrences_in_order(sorted, COLOR_COUNT as int, color);
                assert(tally(before, Some(color)) == done);
            }
        }
        done += 1;
    }
    grid
}

/// A random grid of the simulation's dimensions, `HEIGHT` by `WIDTH`, with
/// `PLACEMENTS` cells of each color and every other cell empty.
pub fn seed(rng: &mut ThreadRng) -> (out: Grid)
    ensures
        out.wf(),
        out.rows() == HEIGHT,
        out.cols() == WIDTH,
        evenly_seeded(out@, HEIGHT as nat, WIDTH as nat, PLACEMENTS as nat),
        forall|color: usize| color < COLOR_COUNT ==> #[trigger] tally(out@, Some(color)) == 896,
        tally(out@, None) == 9408,
{
    seed_sized(HEIGHT, WIDTH, rng)
}

} // verus!
