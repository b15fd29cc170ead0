use vstd::prelude::*;

verus! {

/// The mathematical content of a grid: its cells in row-major order and its shape.
pub struct GridView {
    pub cells: Seq<i32>,
    pub height: nat,
    pub width: nat,
}

impl GridView {
    /// Every row holds exactly `width` cells.
    pub open spec fn wf(self) -> bool {
        self.cells.len() == self.height * self.width
    }

    /// The cell at `(row, col)`.
    pub open spec fn at(self, row: int, col: int) -> int {
        self.cells[row * self.width + col] as int
    }
}

/// An immutable rectangular grid of integers, stored row by row.
#[derive(Debug)]
pub struct Grid {
    cells: Vec<i32>,
    height: usize,
    width: usize,
}

impl View for Grid {
    type V = GridView;

    closed spec fn view(&self) -> GridView {
        GridView { cells: self.cells@, height: self.height as nat, width: self.width as nat }
    }
}

/// The row-major index of a cell inside a `height` x `width` grid lies inside it.
pub proof fn lemma_index_in_bounds(row: int, col: int, height: int, width: int)
    requires
        0 <= row < height,
        0 <= col < width,
    ensures
        0 <= row * width + col < height * width,
{
    assert(0 <= row * width + col < height * width) by (nonlinear_arith)
        requires
            0 <= row < height,
            0 <= col < width,
    ;
}

impl Grid {
    #[verifier::type_invariant]
    spec fn shape_holds(self) -> bool {
        self@.wf()
    }

    /// Builds a grid of `height` rows of `width` cells from its cells in row-major order.
    pub(crate) fn from_cells(cells: Vec<i32>, height: usize, width: usize) -> (g: Grid)
        requires
            cells@.len() == height * width,
        ensures
            g@.cells == cells@,
            g@.height == height,
            g@.width == width,
            g@.wf(),
    {
        Grid { cells, height, width }
    }

    /// The number of rows.
    pub fn height(&self) -> (r: usize)
        ensures
            r == self@.height,
    {
        self.height
    }

    /// The number of columns.
    pub fn width(&self) -> (r: usize)
        ensures
            r == self@.width,
    {
        self.width
    }

    /// The cell at `(row, col)`.
    pub fn get(&self, row: usize, col: usize) -> (v: i32)
        requires
            row < self@.height,
            col < self@.width,
        ensures
            v == self@.at(row as int, col as int),
    {
        proof {
            lemma_index_in_bounds(row as int, col as int, self@.height as int, self@.width as int);
        }
        proof {
            use_type_invariant(self);
        }
        let n: usize = self.cells.len();
        assert(row * self.width + col < n);
        self.cells[row * self.width + col]
    }
}

} // verus!
