//! The grid: a fixed-size rectangle of cells, each empty or holding a color.

use vstd::prelude::*;
use vstd::arithmetic::div_mod::lemma_fundamental_div_mod_converse;
use vstd::arithmetic::mul::lemma_mul_inequality;

verus! {

/// Number of colors a cell may hold; colors are `0..COLOR_COUNT`.
pub const COLOR_COUNT: usize = 3;

/// Width of the grid that the simulation runs on.
pub const WIDTH: usize = 126;

/// Height of the grid that the simulation runs on.
pub const HEIGHT: usize = 96;

/// A line of cells, each empty (`None`) or holding a color: a row or a column.
pub type Line = Seq<Option<usize>>;

/// The cells of a grid, row by row from the top, each row from the left.
pub type Cells = Seq<Line>;

/// A cell's content is valid when it is empty or holds a color below `COLOR_COUNT`.
pub open spec fn valid_cell(v: Option<usize>) -> bool {
    v matches Some(k) ==> k < COLOR_COUNT
}

/// `cells` is a `height` by `width` rectangle of valid cells, given by rows.
pub open spec fn is_grid(cells: Cells, height: nat, width: nat) -> bool {
    &&& cells.len() == height
    &&& forall|r: int| 0 <= r < height ==> (#[trigger] cells[r]).len() == width
    &&& forall|r: int, c: int|
        0 <= r < height && 0 <= c < width ==> valid_cell(#[trigger] cells[r][c])
}

/// Bounds-checked lookup: the cell at `(row, col)`, or empty outside the rectangle.
pub open spec fn at(cells: Cells, row: int, col: int) -> Option<usize> {
    if 0 <= row < cells.len() && 0 <= col < cells[row].len() {
        cells[row][col]
    } else {
        None
    }
}

/// The length of the rows of `cells`; 0 where there is no row.
pub open spec fn width_of(cells: Cells) -> nat {
    if cells.len() == 0 {
        0
    } else {
        cells[0].len()
    }
}

/// Position of `(row, col)` in a row-major store of rows `width` long.
pub open spec fn flat(row: int, col: int, width: int) -> int {
    row * width + col
}

/// Row-major positions stay inside the store and determine their row and column.
pub proof fn lemma_flat(row: int, col: int, height: int, width: int)
    requires
        0 <= row < height,
        0 <= col < width,
    ensures
        0 <= row * width <= flat(row, col, width) < height * width,
        flat(row, col, width) / width == row,
        flat(row, col, width) % width == col,
{
    assert(row * width >= 0) by (nonlinear_arith)
        requires
            row >= 0,
            width > 0,
    ;
    lemma_mul_inequality(row + 1, height, width);
    assert((row + 1) * width == row * width + width) by (nonlinear_arith);
    lemma_fundamental_div_mod_converse(flat(row, col, width), width, row, col);
}

/// A rectangle of cells with fixed dimensions, stored row by row.
#[derive(Clone, Debug, PartialEq, Eq)]
pub struct Grid {
    height: usize,
    width: usize,
    cells: Vec<Option<usize>>,
}

impl View for Grid {
    type V = Cells;

    /// The grid as a sequence of rows, each a sequence of cells.
    closed spec fn view(&self) -> Cells {
        Seq::new(
            self.height as nat,
            |r: int|
                Seq::new(self.width as nat, |c: int| self.cells@[flat(r, c, self.width as int)]),
        )
    }
}

impl Grid {
    /// Number of rows.
    pub closed spec fn rows(&self) -> nat {
        self.height as nat
    }

    /// Number of columns.
    pub closed spec fn cols(&self) -> nat {
        self.width as nat
    }

    /// The store holds exactly one entry per cell.
    pub closed spec fn store_matches(&self) -> bool {
        self.cells@.len() == self.height * self.width <= usize::MAX
    }

    /// Well-formedness: the view is a `rows()` by `cols()` rectangle of valid
    /// cells, and both dimensions are machine integers.
    pub open spec fn wf(&self) -> bool {
        &&& self.store_matches()
        &&& self.rows() <= usize::MAX
        &&& self.cols() <= usize::MAX
        &&& is_grid(self@, self.rows(), self.cols())
    }

    /// A well-formed grid's cell count is a machine integer.
    pub proof fn lemma_store_fits(&self)
        requires
            self.wf(),
        ensures
            self.rows() * self.cols() <= usize::MAX,
    {
    }

    /// The number of rows.
    pub fn height(&self) -> (h: usize)
        ensures
            h == self.rows(),
    {
        self.height
    }

    /// The number of columns.
    pub fn width(&self) -> (w: usize)
        ensures
            w == self.cols(),
    {
        self.width
    }

    /// A grid of the given dimensions with every cell empty.
    pub fn empty(height: usize, width: usize) -> (out: Grid)
        requires
            height * width <= usize::MAX,
        ensures
            out.wf(),
            out.rows() == height,
            out.cols() == width,
            forall|r: int, c: int|
                0 <= r < height && 0 <= c < width ==> out@[r][c] == None::<usize>,
    {
        let total = height * width;
        let mut cells: Vec<Option<usize>> = Vec::new();
        let mut i: usize = 0;
        while i < total
            invariant
                i <= total,
                cells@.len() == i,
                forall|j: int| 0 <= j < i ==> cells@[j] == None::<usize>,
            decreases total - i,
        {
            cells.push(None);
            i += 1;
        }
        let out = Grid { height, width, cells };
        proof {
            assert forall|r: int, c: int| 0 <= r < height && 0 <= c < width implies out@[r][c]
                == None::<usize> by {
                lemma_flat(r, c, height as int, width as int);
            }
        }
        out
    }

    /// A grid whose cell at `(row, col)` is what `fill` returns for that position.
    pub fn from_fn(
        height: usize,
        width: usize,
        fill: impl Fn(usize, usize) -> Option<usize>,
    ) -> (out: Grid)
        requires
            height * width <= usize::MAX,
            forall|r: usize, c: usize| r < height && c < width ==> call_requires(fill, (r, c)),
            forall|r: usize, c: usize, v: Option<usize>|
                r < height && c < width && call_ensures(fill, (r, c), v) ==> valid_cell(v),
        ensures
            out.wf(),
            out.rows() == height,
            out.cols() == width,
            forall|r: int, c: int|
                0 <= r < height && 0 <= c < width ==> call_ensures(
                    fill,
                    (r as usize, c as usize),
                    #[trigger] out@[r][c],
                ),
    {
        let mut cells: Vec<Option<usize>> = Vec::new();
        let mut row: usize = 0;
        while row < height
            invariant
                row <= height,
                height * width <= usize::MAX,
                cells@.len() == row * width,
                forall|r: usize, c: usize| r < height && c < width ==> call_requires(fill, (r, c)),
                forall|r: usize, c: usize, v: Option<usize>|
                    r < height && c < width && call_ensures(fill, (r, c), v) ==> valid_cell(v),
                forall|r: int, c: int|
                    0 <= r < row && 0 <= c < width ==> call_ensures(
                        fill,
                        (r as usize, c as usize),
                        #[trigger] cells@[flat(r, c, width as int)],
                    ),
            decreases height - row,
        {
            let mut col: usize = 0;
            while col < width
                invariant
                    row < height,
                    col <= width,
                    height * width <= usize::MAX,
                    cells@.len() == row * width + col,
                    forall|r: usize, c: usize|
                        r < height && c < width ==> call_requires(fill, (r, c)),
                    forall|r: usize, c: usize, v: Option<usize>|
                        r < height && c < width && call_ensures(fill, (r, c), v) ==> valid_cell(v),
                    forall|r: int, c: int|
                        0 <= r < row && 0 <= c < width ==> call_ensures(
                            fill,
                            (r as usize, c as usize),
                            #[trigger] cells@[flat(r, c, width as int)],
                        ),
                    forall|c: int|
                        0 <= c < col ==> call_ensures(
                            fill,
                            (row, c as usize),
                            #[trigger] cells@[flat(row as int, c, width as int)],
                        ),
                decreases width - col,
            {
                let value = fill(row, col);
                proof {
                    assert forall|r: int, c: int| 0 <= r < row && 0 <= c < width implies flat(
                        r,
                        c,
                        width as int,
                    ) < cells@.len() by {
                        lemma_flat(r, c, row as int, width as int);
                    }
                    assert(cells@.len() == flat(row as int, col as int, width as int));
                }
                cells.push(value);
                col += 1;
            }
            proof {
                assert((row + 1) * width == row * width + width) by (nonlinear_arith);
            }
            row += 1;
        }
        let out = Grid { height, width, cells };
        proof {
            assert forall|r: int, c: int| 0 <= r < height && 0 <= c < width implies call_ensures(
                fill,
                (r as usize, c as usize),
                #[trigger] out@[r][c],
            ) && valid_cell(out@[r][c]) by {
                lemma_flat(r, c, height as int, width as int);
            }
        }
        out
    }

    /// The cell at `(row, col)`; empty when the position lies outside the grid.
    pub fn get(&self, row: usize, col: usize) -> (out: Option<usize>)
        requires
            self.wf(),
        ensures
            out == at(self@, row as int, col as int),
    {
        if row < self.height && col < self.width {
            proof {
                lemma_flat(row as int, col as int, self.height as int, self.width as int);
            }
            self.cells[row * self.width + col]
        } else {
            None
        }
    }

    /// Writes `value` into the cell at `(row, col)`; every other cell keeps its content.
    pub fn set(&mut self, row: usize, col: usize, value: Option<usize>)
        requires
            old(self).wf(),
            row < old(self).rows(),
            col < old(self).cols(),
            valid_cell(value),
        ensures
            final(self).wf(),
            final(self).rows() == old(self).rows(),
            final(self).cols() == old(self).cols(),
            final(self)@ == old(self)@.update(
                row as int,
                old(self)@[row as int].update(col as int, value),
            ),
    {
        proof {
            lemma_flat(row as int, col as int, self.height as int, self.width as int);
        }
        let idx = row * self.width + col;
        self.cells.set(idx, value);
        proof {
            let want = old(self)@.update(
                row as int,
                old(self)@[row as int].update(col as int, value),
            );
            assert forall|r: int, c: int|
                0 <= r < self.height && 0 <= c < self.width implies self@[r][c] == want[r][c] by {
                lemma_flat(r, c, self.height as int, self.width as int);
            }
            assert(self@ =~~= want);
        }
    }
}

} // verus!
