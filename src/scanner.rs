use vstd::prelude::*;
use crate::grid::{Grid, GridView};

verus! {

/// The shape of window a scan slides over the grid.
#[derive(Clone, Copy, Debug)]
pub enum Direction {
    /// Four cells side by side in one row.
    Horizontal,
    /// Four cells one above the other in one column.
    Vertical,
    /// A 4x4 block, scored by the larger of its two diagonal products.
    Diagonal,
}

pub open spec fn max_int(a: int, b: int) -> int {
    if a >= b { a } else { b }
}

/// The product along the diagonal from top-left to bottom-right of the 4x4 block at `(row, col)`.
pub open spec fn main_diagonal(g: GridView, row: int, col: int) -> int {
    g.at(row, col) * g.at(row + 1, col + 1) * g.at(row + 2, col + 2) * g.at(row + 3, col + 3)
}

/// The product along the diagonal from top-right to bottom-left of the 4x4 block at `(row, col)`.
pub open spec fn anti_diagonal(g: GridView, row: int, col: int) -> int {
    g.at(row, col + 3) * g.at(row + 1, col + 2) * g.at(row + 2, col + 1) * g.at(row + 3, col)
}

/// The score of the window of shape `dir` anchored (top-left) at `(row, col)`.
pub open spec fn window_value(g: GridView, dir: Direction, row: int, col: int) -> int {
    match dir {
        Direction::Horizontal => g.at(row, col) * g.at(row, col + 1) * g.at(row, col + 2) * g.at(
            row,
            col + 3,
        ),
        Direction::Vertical => g.at(row, col) * g.at(row + 1, col) * g.at(row + 2, col) * g.at(
            row + 3,
            col,
        ),
        Direction::Diagonal => max_int(main_diagonal(g, row, col), anti_diagonal(g, row, col)),
    }
}

/// How many anchor rows a window of shape `dir` has in `g` (at most 0 when it does not fit).
pub open spec fn anchor_rows(g: GridView, dir: Direction) -> int {
    match dir {
        Direction::Horizontal => g.height as int,
        _ => g.height - 3,
    }
}

/// How many anchor columns a window of shape `dir` has in `g` (at most 0 when it does not fit).
pub open spec fn anchor_cols(g: GridView, dir: Direction) -> int {
    match dir {
        Direction::Vertical => g.width as int,
        _ => g.width - 3,
    }
}

/// Whether a window of shape `dir` fits anywhere in `g`.
pub open spec fn has_window(g: GridView, dir: Direction) -> bool {
    anchor_rows(g, dir) > 0 && anchor_cols(g, dir) > 0
}

/// Whether `(row, col)` is an anchor of a window of shape `dir` in `g`.
pub open spec fn is_anchor(g: GridView, dir: Direction, row: int, col: int) -> bool {
    0 <= row < anchor_rows(g, dir) && 0 <= col < anchor_cols(g, dir)
}

/// The best window score in `row` among the anchors in columns `0..n` (`n >= 1`).
pub open spec fn row_best(g: GridView, dir: Direction, row: int, n: int) -> int
    decreases n,
{
    if n <= 1 {
        window_value(g, dir, row, 0)
    } else {
        max_int(row_best(g, dir, row, n - 1), window_value(g, dir, row, n - 1))
    }
}

/// The best window score among the anchors in rows `0..m` (`m >= 1`).
pub open spec fn rows_best(g: GridView, dir: Direction, m: int) -> int
    decreases m,
{
    if m <= 1 {
        row_best(g, dir, 0, anchor_cols(g, dir))
    } else {
        max_int(rows_best(g, dir, m - 1), row_best(g, dir, m - 1, anchor_cols(g, dir)))
    }
}

/// The largest window score of shape `dir` over the whole grid; 0 when no window fits.
pub open spec fn direction_max(g: GridView, dir: Direction) -> int {
    if has_window(g, dir) {
        rows_best(g, dir, anchor_rows(g, dir))
    } else {
        0
    }
}

/// The largest four-product of the grid in any direction.
pub open spec fn combined_max(g: GridView) -> int {
    max_int(
        max_int(direction_max(g, Direction::Diagonal), direction_max(g, Direction::Vertical)),
        direction_max(g, Direction::Horizontal),
    )
}

proof fn lemma_mul_bounds(x: int, y: int, bx: int, by_: int)
    requires
        -bx <= x <= bx,
        -by_ <= y <= by_,
    ensures
        -(bx * by_) <= x * y <= bx * by_,
{
    assert(-(bx * by_) <= x * y <= bx * by_) by (nonlinear_arith)
        requires
            -bx <= x <= bx,
            -by_ <= y <= by_,
    ;
}

/// The exact product of four cells, which always fits in an `i128`.
fn product4(a: i32, b: i32, c: i32, d: i32) -> (p: i128)
    ensures
        p == a * b * c * d,
{
    proof {
        lemma_mul_bounds(a as int, b as int, 0x8000_0000, 0x8000_0000);
        lemma_mul_bounds(a * b, c as int, 0x4000_0000_0000_0000, 0x8000_0000);
        lemma_mul_bounds(a * b * c, d as int, 0x2000_0000_0000_0000_0000_0000, 0x8000_0000);
    }
    let ab: i128 = (a as i128) * (b as i128);
    let abc: i128 = ab * (c as i128);
    abc * (d as i128)
}

fn window_at(g: &Grid, dir: Direction, row: usize, col: usize) -> (v: i128)
    requires
        is_anchor(g@, dir, row as int, col as int),
    ensures
        v == window_value(g@, dir, row as int, col as int),
{
    // both dimensions fit in a `usize`, so the neighbouring indices do not overflow
    let _h: usize = g.height();
    let _w: usize = g.width();
    match dir {
        Direction::Horizontal => product4(
            g.get(row, col),
            g.get(row, col + 1),
            g.get(row, col + 2),
            g.get(row, col + 3),
        ),
        Direction::Vertical => product4(
            g.get(row, col),
            g.get(row + 1, col),
            g.get(row + 2, col),
            g.get(row + 3, col),
        ),
        Direction::Diagonal => {
            let d1 = product4(
                g.get(row, col),
                g.get(row + 1, col + 1),
                g.get(row + 2, col + 2),
                g.get(row + 3, col + 3),
            );
            let d2 = product4(
                g.get(row, col + 3),
                g.get(row + 1, col + 2),
                g.get(row + 2, col + 1),
                g.get(row + 3, col),
            );
            if d1 >= d2 {
                d1
            } else {
                d2
            }
        },
    }
}

fn anchor_counts(g: &Grid, dir: Direction) -> (r: (usize, usize))
    ensures
        has_window(g@, dir) ==> r.0 == anchor_rows(g@, dir) && r.1 == anchor_cols(g@, dir),
        !has_window(g@, dir) ==> r.0 == 0 || r.1 == 0,
{
    let h = g.height();
    let w = g.width();
    match dir {
        Direction::Horizontal => (h, if w >= 3 { w - 3 } else { 0 }),
        Direction::Vertical => (if h >= 3 { h - 3 } else { 0 }, w),
        Direction::Diagonal => (if h >= 3 { h - 3 } else { 0 }, if w >= 3 { w - 3 } else { 0 }),
    }
}

fn best_in_row(g: &Grid, dir: Direction, row: usize, cols: usize) -> (r: i128)
    requires
        0 <= row < anchor_rows(g@, dir),
        cols == anchor_cols(g@, dir),
        cols >= 1,
    ensures
        r == row_best(g@, dir, row as int, cols as int),
{
    let mut best: i128 = window_at(g, dir, row, 0);
    let mut col: usize = 1;
    while col < cols
        invariant
            0 <= row < anchor_rows(g@, dir),
            cols == anchor_cols(g@, dir),
            1 <= col <= cols,
            best == row_best(g@, dir, row as int, col as int),
        decreases cols - col,
    {
        let v = window_at(g, dir, row, col);
        if v > best {
            best = v;
        }
        col = col + 1;
    }
    best
}

fn scan(g: &Grid, dir: Direction) -> (r: i128)
    ensures
        r == direction_max(g@, dir),
{
    let (rows, cols) = anchor_counts(g, dir);
    if rows == 0 || cols == 0 {
        return 0;
    }
    let mut best: i128 = best_in_row(g, dir, 0, cols);
    let mut row: usize = 1;
    while row < rows
        invariant
            has_window(g@, dir),
            rows == anchor_rows(g@, dir),
            cols == anchor_cols(g@, dir),
            1 <= row <= rows,
            best == rows_best(g@, dir, row as int),
        decreases rows - row,
    {
        let v = best_in_row(g, dir, row, cols);
        if v > best {
            best = v;
        }
        row = row + 1;
    }
    best
}

/// The largest product of four horizontally adjacent cells; 0 when no row holds four.
pub fn horizontal_max(matrix: &Grid) -> (r: i128)
    ensures
        r == direction_max(matrix@, Direction::Horizontal),
{
    scan(matrix, Direction::Horizontal)
}

/// The largest product of four vertically adjacent cells; 0 when no column holds four.
pub fn vertical_max(matrix: &Grid) -> (r: i128)
    ensures
        r == direction_max(matrix@, Direction::Vertical),
{
    scan(matrix, Direction::Vertical)
}

/// Over every 4x4 block, the larger of its two diagonal products, maximised;
/// 0 when no 4x4 block fits.
pub fn diagonal_max(matrix: &Grid) -> (r: i128)
    ensures
        r == direction_max(matrix@, Direction::Diagonal),
{
    scan(matrix, Direction::Diagonal)
}

/// The largest product of four cells in line, horizontally, vertically or diagonally;
/// 0 when the grid is too small for any such line.
pub fn max_four_product(matrix: &Grid) -> (r: i128)
    ensures
        r == combined_max(matrix@),
        r == max_int(
            max_int(
                direction_max(matrix@, Direction::Horizontal),
                direction_max(matrix@, Direction::Vertical),
            ),
            direction_max(matrix@, Direction::Diagonal),
        ),
{
    let d = diagonal_max(matrix);
    let v = vertical_max(matrix);
    let h = horizontal_max(matrix);
    let dv = if d >= v { d } else { v };
    if dv >= h {
        dv
    } else {
        h
    }
}

proof fn lemma_row_best(g: GridView, dir: Direction, row: int, n: int)
    requires
        n >= 1,
    ensures
        forall|c: int| 0 <= c < n ==> #[trigger] window_value(g, dir, row, c) <= row_best(g, dir, row, n),
        exists|c: int| 0 <= c < n && #[trigger] window_value(g, dir, row, c) == row_best(g, dir, row, n),
    decreases n,
{
    if n == 1 {
        assert(window_value(g, dir, row, 0) == row_best(g, dir, row, n));
    } else {
        lemma_row_best(g, dir, row, n - 1);
        if row_best(g, dir, row, n - 1) >= window_value(g, dir, row, n - 1) {
            let c = choose|c: int| 0 <= c < n - 1 && #[trigger] window_value(g, dir, row, c) == row_best(g, dir, row, n - 1);
            assert(window_value(g, dir, row, c) == row_best(g, dir, row, n));
        } else {
            assert(window_value(g, dir, row, n - 1) == row_best(g, dir, row, n));
        }
    }
}

proof fn lemma_rows_best(g: GridView, dir: Direction, m: int)
    requires
        m >= 1,
        anchor_cols(g, dir) >= 1,
    ensures
        forall|r: int, c: int|
            0 <= r < m && 0 <= c < anchor_cols(g, dir) ==> #[trigger] window_value(g, dir, r, c)
                <= rows_best(g, dir, m),
        exists|r: int, c: int|
            0 <= r < m && 0 <= c < anchor_cols(g, dir) && #[trigger] window_value(g, dir, r, c)
                == rows_best(g, dir, m),
    decreases m,
{
    let n = anchor_cols(g, dir);
    lemma_row_best(g, dir, m - 1, n);
    if m == 1 {
        let c = choose|c: int| 0 <= c < n && #[trigger] window_value(g, dir, 0, c) == row_best(g, dir, 0, n);
        assert(window_value(g, dir, 0, c) == rows_best(g, dir, m));
    } else {
        lemma_rows_best(g, dir, m - 1);
        assert forall|r: int, c: int| 0 <= r < m && 0 <= c < n implies #[trigger] window_value(
            g,
            dir,
            r,
            c,
        ) <= rows_best(g, dir, m) by {
            if r < m - 1 {
            } else {
                assert(window_value(g, dir, m - 1, c) <= row_best(g, dir, m - 1, n));
            }
        }
        if rows_best(g, dir, m - 1) >= row_best(g, dir, m - 1, n) {
            let (r, c) = choose|r: int, c: int|
                0 <= r < m - 1 && 0 <= c < n && #[trigger] window_value(g, dir, r, c) == rows_best(g, dir, m - 1);
            assert(window_value(g, dir, r, c) == rows_best(g, dir, m));
        } else {
            let c = choose|c: int| 0 <= c < n && #[trigger] window_value(g, dir, m - 1, c) == row_best(g, dir, m - 1, n);
            assert(window_value(g, dir, m - 1, c) == rows_best(g, dir, m));
        }
    }
}

/// The maximum in a direction is the greatest score over all windows of that
/// shape: no window scores more, and some window scores exactly that. When no
/// window fits, it is 0.
pub proof fn lemma_direction_max_is_greatest(g: GridView, dir: Direction)
    ensures
        has_window(g, dir) ==> forall|r: int, c: int| #[trigger]
            is_anchor(g, dir, r, c) ==> window_value(g, dir, r, c) <= direction_max(g, dir),
        has_window(g, dir) ==> exists|r: int, c: int| #[trigger]
            is_anchor(g, dir, r, c) && window_value(g, dir, r, c) == direction_max(g, dir),
        !has_window(g, dir) ==> direction_max(g, dir) == 0,
{
    if has_window(g, dir) {
        lemma_rows_best(g, dir, anchor_rows(g, dir));
        assert forall|r: int, c: int| #[trigger] is_anchor(g, dir, r, c) implies window_value(
            g,
            dir,
            r,
            c,
        ) <= direction_max(g, dir) by {
            assert(window_value(g, dir, r, c) <= rows_best(g, dir, anchor_rows(g, dir)));
        }
        let (r, c) = choose|r: int, c: int|
            0 <= r < anchor_rows(g, dir) && 0 <= c < anchor_cols(g, dir) && #[trigger] window_value(g, dir, r, c)
                == rows_best(g, dir, anchor_rows(g, dir));
        assert(is_anchor(g, dir, r, c));
    }
}

/// A grid with fewer than four rows and fewer than four columns holds no four
/// cells in line, so its combined maximum is the neutral value 0.
pub proof fn lemma_undersized_grid_is_neutral(g: GridView)
    requires
        g.height < 4,
        g.width < 4,
    ensures
        combined_max(g) == 0,
{
}

} // verus!
