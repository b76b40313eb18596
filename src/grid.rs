//! Fixed grid layout: children fill the cells row by row, each column as wide
//! as its widest child and each row as tall as its tallest.

use vstd::prelude::*;
use vstd::arithmetic::div_mod::lemma_fundamental_div_mod_converse;
use crate::geometry::{Area, Offset, Padding, SizeRequest, MAX_EXTENT};

verus! {

/// Largest number of rows, or of columns, of a grid: the cell count then
/// fits a 32-bit `usize`, and a row of cells of `MAX_EXTENT` each, with
/// spacing and padding, fits an `i64`.
pub const MAX_GRID_SIDE: usize = 32768;

/// The widest `max_width` in column `c` among the first `k` children that
/// fall on the grid (0 where there is none).
pub open spec fn col_width(children: Seq<SizeRequest>, rows: int, cols: int, c: int, k: int) -> int
    decreases k,
{
    if k <= 0 {
        0
    } else {
        let prev = col_width(children, rows, cols, c, k - 1);
        let i = k - 1;
        if i % cols == c && i / cols < rows && children[i].max_width > prev {
            children[i].max_width as int
        } else {
            prev
        }
    }
}

/// The tallest `max_height` in row `r` among the first `k` children that fall
/// on the grid (0 where there is none).
pub open spec fn row_height(children: Seq<SizeRequest>, rows: int, cols: int, r: int, k: int) -> int
    decreases k,
{
    if k <= 0 {
        0
    } else {
        let prev = row_height(children, rows, cols, r, k - 1);
        let i = k - 1;
        if i / cols == r && i / cols < rows && children[i].max_height > prev {
            children[i].max_height as int
        } else {
            prev
        }
    }
}

pub open spec fn seq_sum(s: Seq<int>) -> int
    decreases s.len(),
{
    if s.len() == 0 {
        0
    } else {
        seq_sum(s.drop_last()) + s.last()
    }
}

/// A grid of `rows` by `cols` cells.
#[derive(Clone, Copy, Debug, PartialEq, Eq)]
pub struct Grid {
    pub rows: usize,
    pub cols: usize,
    /// Horizontal and vertical space between cells.
    pub spacing: (i64, i64),
    pub offset: Offset,
    pub padding: Padding,
}

impl Grid {
    /// Sides, spacing and padding within the limits of the arithmetic.
    pub open spec fn is_bounded(self) -> bool {
        &&& self.rows <= MAX_GRID_SIDE
        &&& self.cols <= MAX_GRID_SIDE
        &&& 0 <= self.spacing.0 <= MAX_EXTENT
        &&& 0 <= self.spacing.1 <= MAX_EXTENT
        &&& self.padding.is_bounded()
    }

    /// Bounded, with at least one row and one column.
    pub open spec fn is_valid(self) -> bool {
        &&& self.is_bounded()
        &&& 1 <= self.rows
        &&& 1 <= self.cols
    }

    /// Width of each column.
    pub open spec fn col_widths(self, children: Seq<SizeRequest>) -> Seq<int> {
        Seq::new(
            self.cols as nat,
            |c: int| col_width(children, self.rows as int, self.cols as int, c, children.len() as int),
        )
    }

    /// Height of each row.
    pub open spec fn row_heights(self, children: Seq<SizeRequest>) -> Seq<int> {
        Seq::new(
            self.rows as nat,
            |r: int| row_height(children, self.rows as int, self.cols as int, r, children.len() as int),
        )
    }

    /// Width and height of the cells with the spacing between them.
    pub open spec fn content_size(self, children: Seq<SizeRequest>) -> (int, int) {
        (
            seq_sum(self.col_widths(children)) + self.spacing.0 * (self.cols - 1),
            seq_sum(self.row_heights(children)) + self.spacing.1 * (self.rows - 1),
        )
    }

    /// Left edge of column `c`, before padding.
    pub open spec fn col_x(self, children: Seq<SizeRequest>, c: int) -> int {
        seq_sum(self.col_widths(children).take(c)) + c * self.spacing.0
    }

    /// Top edge of row `r`, before padding.
    pub open spec fn row_y(self, children: Seq<SizeRequest>, r: int) -> int {
        seq_sum(self.row_heights(children).take(r)) + r * self.spacing.1
    }

    /// Number of placements made: one per child, as far as the cells go.
    pub open spec fn placed_count(self, children: Seq<SizeRequest>) -> int {
        if children.len() < self.rows * self.cols {
            children.len() as int
        } else {
            self.rows * self.cols
        }
    }

    pub fn new(rows: usize, cols: usize, spacing: (i64, i64), offset: Offset, padding: Padding) -> (r: Self)
        ensures
            r == (Grid { rows, cols, spacing, offset, padding }),
    {
        Grid { rows, cols, spacing, offset, padding }
    }

    pub open spec fn square_spec(count: usize, spacing: i64) -> Grid {
        Grid {
            rows: count,
            cols: count,
            spacing: (spacing, spacing),
            offset: Offset::Center,
            padding: Padding(0, 0, 0, 0),
        }
    }

    /// A `count` by `count` grid, centred, with the same spacing both ways.
    pub fn square(count: usize, spacing: i64) -> (r: Self)
        ensures
            r == Self::square_spec(count, spacing),
    {
        Self::new(count, count, (spacing, spacing), Offset::Center, Padding::default())
    }

    /// The grid's request: exactly its content size, grown by the padding.
    pub fn request_size(&self, children: &Vec<SizeRequest>) -> (r: SizeRequest)
        requires
            self.is_valid(),
            forall|i: int| 0 <= i < children@.len() ==> (#[trigger] children@[i]).is_bounded(),
        ensures
            r.min_width == r.max_width,
            r.min_height == r.max_height,
            r.max_width == self.content_size(children@).0 + self.padding.0 + self.padding.2,
            r.max_height == self.content_size(children@).1 + self.padding.1 + self.padding.3,
    {
        let (col_widths, row_heights) = self.envelopes(children);
        let total_width = total(&col_widths, Ghost(self.col_widths(children@)));
        let total_height = total(&row_heights, Ghost(self.row_heights(children@)));
        assert(0 <= self.spacing.0 * (self.cols - 1) <= MAX_EXTENT * MAX_GRID_SIDE) by (nonlinear_arith)
            requires 0 <= self.spacing.0 <= MAX_EXTENT, 1 <= self.cols <= MAX_GRID_SIDE;
        assert(0 <= self.spacing.1 * (self.rows - 1) <= MAX_EXTENT * MAX_GRID_SIDE) by (nonlinear_arith)
            requires 0 <= self.spacing.1 <= MAX_EXTENT, 1 <= self.rows <= MAX_GRID_SIDE;
        let width = total_width + self.spacing.0 * (self.cols - 1) as i64;
        let height = total_height + self.spacing.1 * (self.rows - 1) as i64;
        self.padding.adjust_request(SizeRequest::fixed((width, height)))
    }

    /// Row and column of the cell of child `k`.
    pub open spec fn cell_of(self, k: int) -> (int, int) {
        (k / (self.cols as int), k % (self.cols as int))
    }

    /// `a` is the placement of child `k`: its cell's corner past the padding,
    /// its own request clamped into the cell's size.
    pub open spec fn places(self, children: Seq<SizeRequest>, k: int, a: Area) -> bool {
        let c = self.cell_of(k).1;
        let w = self.cell_of(k).0;
        &&& a.offset.0 == self.padding.0 + self.col_x(children, c)
        &&& a.offset.1 == self.padding.1 + self.row_y(children, w)
        &&& (a.size.0 as int, a.size.1 as int) == children[k].get_spec(
            (self.col_widths(children)[c], self.row_heights(children)[w]),
        )
    }

    /// Places the children row by row, one per cell; children beyond the last
    /// cell get no placement. The available size does not change the cells.
    pub fn build(&self, _size: (i64, i64), children: &Vec<SizeRequest>) -> (r: Vec<Area>)
        requires
            self.is_bounded(),
            1 <= self.cols || children@.len() == 0,
            forall|i: int| 0 <= i < children@.len() ==> (#[trigger] children@[i]).is_bounded(),
        ensures
            r@.len() == self.placed_count(children@),
            forall|k: int|
                0 <= k < r@.len() ==> (#[trigger] self.cell_of(k)).0 < self.rows && self.cell_of(k).1
                    < self.cols,
            forall|k: int| 0 <= k < r@.len() ==> self.places(children@, k, #[trigger] r@[k]),
    {
        let ghost ch = children@;
        let ghost cw = self.col_widths(ch);
        let ghost rh = self.row_heights(ch);
        let rows = self.rows;
        let cols = self.cols;
        let (col_widths, row_heights) = self.envelopes(children);
        let mut areas: Vec<Area> = Vec::new();
        let mut y: i64 = 0;
        let mut row: usize = 0;
        while row < rows
            invariant
                self.is_bounded(),
                1 <= self.cols || children@.len() == 0,
                rows == self.rows,
                cols == self.cols,
                ch == children@,
                cw == self.col_widths(ch),
                rh == self.row_heights(ch),
                forall|i: int| 0 <= i < ch.len() ==> (#[trigger] ch[i]).is_bounded(),
                col_widths@.len() == cols,
                row_heights@.len() == rows,
                forall|c: int| 0 <= c < cols ==> col_widths@[c] as int == #[trigger] cw[c],
                forall|w: int| 0 <= w < rows ==> row_heights@[w] as int == #[trigger] rh[w],
                forall|c: int| 0 <= c < cols ==> 0 <= #[trigger] col_widths@[c] <= MAX_EXTENT,
                forall|w: int| 0 <= w < rows ==> 0 <= #[trigger] row_heights@[w] <= MAX_EXTENT,
                row <= rows,
                areas@.len() == if ch.len() < row * cols { ch.len() as int } else { row * cols },
                y == self.row_y(ch, row as int),
                0 <= y <= row * (2 * MAX_EXTENT),
                forall|k: int| 0 <= k < areas@.len() ==> self.places(ch, k, #[trigger] areas@[k]),
            decreases rows - row,
        {
            let mut x: i64 = 0;
            let mut col: usize = 0;
            assert(row * cols + cols <= MAX_GRID_SIDE * MAX_GRID_SIDE) by (nonlinear_arith)
                requires row < rows <= MAX_GRID_SIDE, cols <= MAX_GRID_SIDE;
            while col < cols
                invariant
                    self.is_bounded(),
                1 <= self.cols || children@.len() == 0,
                    rows == self.rows,
                    cols == self.cols,
                    ch == children@,
                    cw == self.col_widths(ch),
                    rh == self.row_heights(ch),
                    forall|i: int| 0 <= i < ch.len() ==> (#[trigger] ch[i]).is_bounded(),
                    col_widths@.len() == cols,
                    row_heights@.len() == rows,
                    forall|c: int| 0 <= c < cols ==> col_widths@[c] as int == #[trigger] cw[c],
                    forall|w: int| 0 <= w < rows ==> row_heights@[w] as int == #[trigger] rh[w],
                    forall|c: int| 0 <= c < cols ==> 0 <= #[trigger] col_widths@[c] <= MAX_EXTENT,
                    forall|w: int| 0 <= w < rows ==> 0 <= #[trigger] row_heights@[w] <= MAX_EXTENT,
                    row < rows,
                    row * cols + cols <= MAX_GRID_SIDE * MAX_GRID_SIDE,
                    col <= cols,
                    areas@.len() == if ch.len() < row * cols + col {
                        ch.len() as int
                    } else {
                        row * cols + col
                    },
                    row * cols + col <= ch.len() ==> x == self.col_x(ch, col as int),
                    0 <= x <= col * (2 * MAX_EXTENT),
                    y == self.row_y(ch, row as int),
                    0 <= y <= row * (2 * MAX_EXTENT),
                    forall|k: int| 0 <= k < areas@.len() ==> self.places(ch, k, #[trigger] areas@[k]),
                decreases cols - col,
            {
                let idx = row * cols + col;
                assert((col + 1) * (2 * MAX_EXTENT) == col * (2 * MAX_EXTENT) + 2 * MAX_EXTENT)
                    by (nonlinear_arith);
                if idx < children.len() {
                    let w = col_widths[col];
                    let h = row_heights[row];
                    let child_size = children[idx].get((w, h));
                    assert(row * (2 * MAX_EXTENT) <= MAX_GRID_SIDE * (2 * MAX_EXTENT)) by (nonlinear_arith)
                        requires row < MAX_GRID_SIDE;
                    assert(col * (2 * MAX_EXTENT) <= MAX_GRID_SIDE * (2 * MAX_EXTENT)) by (nonlinear_arith)
                        requires col < MAX_GRID_SIDE;
                    let offset = self.padding.adjust_offset((x, y));
                    let area = Area { offset, size: child_size };
                    proof {
                        lemma_fundamental_div_mod_converse(idx as int, cols as int, row as int, col as int);
                    }
                    areas.push(area);
                    proof {
                        lemma_seq_sum_take(cw, col as int);
                        assert((col + 1) * self.spacing.0 == col * self.spacing.0 + self.spacing.0)
                            by (nonlinear_arith);
                        assert((col + 1) * (2 * MAX_EXTENT) == col * (2 * MAX_EXTENT) + 2 * MAX_EXTENT)
                            by (nonlinear_arith);
                        assert forall|k: int| 0 <= k < areas@.len() implies self.places(
                            ch,
                            k,
                            #[trigger] areas@[k],
                        ) by {
                            if k == idx {
                            }
                        }
                    }
                    x = x + w + self.spacing.0;
                }
                col = col + 1;
            }
            proof {
                lemma_seq_sum_take(rh, row as int);
                assert((row + 1) * self.spacing.1 == row * self.spacing.1 + self.spacing.1)
                    by (nonlinear_arith);
                assert((row + 1) * (2 * MAX_EXTENT) == row * (2 * MAX_EXTENT) + 2 * MAX_EXTENT)
                    by (nonlinear_arith);
                assert(row * cols + cols == (row + 1) * cols) by (nonlinear_arith);
                assert(row * (2 * MAX_EXTENT) <= MAX_GRID_SIDE * (2 * MAX_EXTENT)) by (nonlinear_arith)
                    requires row < MAX_GRID_SIDE;
            }
            y = y + row_heights[row] + self.spacing.1;
            row = row + 1;
        }
        proof {
            assert forall|k: int| 0 <= k < areas@.len() implies (#[trigger] self.cell_of(k)).0 < rows
                && self.cell_of(k).1 < cols by {
                assert(k < rows * cols);
                assert(k / (cols as int) < rows) by (nonlinear_arith)
                    requires 0 <= k < rows * cols, 0 < cols;
                assert(k % (cols as int) < cols) by (nonlinear_arith)
                    requires 0 <= k, 0 < cols;
            }
        }
        areas
    }

    /// Column widths and row heights over the children that fall on the grid.
    fn envelopes(&self, children: &Vec<SizeRequest>) -> (r: (Vec<i64>, Vec<i64>))
        requires
            self.is_bounded(),
            1 <= self.cols || children@.len() == 0,
            forall|i: int| 0 <= i < children@.len() ==> (#[trigger] children@[i]).is_bounded(),
        ensures
            r.0@.len() == self.cols,
            r.1@.len() == self.rows,
            forall|c: int| 0 <= c < self.cols ==> r.0@[c] as int == #[trigger] self.col_widths(children@)[c],
            forall|w: int| 0 <= w < self.rows ==> r.1@[w] as int == #[trigger] self.row_heights(children@)[w],
            forall|c: int| 0 <= c < self.cols ==> 0 <= #[trigger] r.0@[c] <= MAX_EXTENT,
            forall|w: int| 0 <= w < self.rows ==> 0 <= #[trigger] r.1@[w] <= MAX_EXTENT,
    {
        let rows = self.rows;
        let cols = self.cols;
        let ghost ch = children@;
        let mut col_widths: Vec<i64> = Vec::new();
        let mut c: usize = 0;
        while c < cols
            invariant
                c <= cols,
                col_widths@.len() == c,
                forall|j: int| 0 <= j < c ==> col_widths@[j] == 0,
            decreases cols - c,
        {
            col_widths.push(0);
            c = c + 1;
        }
        let mut row_heights: Vec<i64> = Vec::new();
        let mut w: usize = 0;
        while w < rows
            invariant
                w <= rows,
                row_heights@.len() == w,
                forall|j: int| 0 <= j < w ==> row_heights@[j] == 0,
            decreases rows - w,
        {
            row_heights.push(0);
            w = w + 1;
        }
        let mut i: usize = 0;
        while i < children.len()
            invariant
                self.is_bounded(),
                1 <= self.cols || children@.len() == 0,
                rows == self.rows,
                cols == self.cols,
                ch == children@,
                forall|k: int| 0 <= k < ch.len() ==> (#[trigger] ch[k]).is_bounded(),
                i <= ch.len(),
                col_widths@.len() == cols,
                row_heights@.len() == rows,
                forall|j: int|
                    0 <= j < cols ==> #[trigger] col_widths@[j] as int == col_width(
                        ch,
                        rows as int,
                        cols as int,
                        j,
                        i as int,
                    ),
                forall|j: int|
                    0 <= j < rows ==> #[trigger] row_heights@[j] as int == row_height(
                        ch,
                        rows as int,
                        cols as int,
                        j,
                        i as int,
                    ),
                forall|j: int| 0 <= j < cols ==> 0 <= #[trigger] col_widths@[j] <= MAX_EXTENT,
                forall|j: int| 0 <= j < rows ==> 0 <= #[trigger] row_heights@[j] <= MAX_EXTENT,
            decreases ch.len() - i,
        {
            let col = i % cols;
            let row = i / cols;
            if row < rows {
                let child = children[i];
                if child.max_width > col_widths[col] {
                    col_widths.set(col, child.max_width);
                }
                if child.max_height > row_heights[row] {
                    row_heights.set(row, child.max_height);
                }
            }
            assert forall|j: int| 0 <= j < cols implies #[trigger] col_widths@[j] as int == col_width(
                ch,
                rows as int,
                cols as int,
                j,
                i + 1,
            ) by {}
            assert forall|j: int| 0 <= j < rows implies #[trigger] row_heights@[j] as int == row_height(
                ch,
                rows as int,
                cols as int,
                j,
                i + 1,
            ) by {}
            i = i + 1;
        }
        (col_widths, row_heights)
    }
}

/// `seq_sum` of a prefix grows by the next element.
proof fn lemma_seq_sum_take(s: Seq<int>, k: int)
    requires
        0 <= k < s.len(),
    ensures
        seq_sum(s.take(k + 1)) == seq_sum(s.take(k)) + s[k],
{
    assert(s.take(k + 1).drop_last() =~= s.take(k));
}

/// Sum of lengths of at most `MAX_GRID_SIDE` bounded entries.
fn total(v: &Vec<i64>, Ghost(s): Ghost<Seq<int>>) -> (r: i64)
    requires
        v@.len() == s.len() <= MAX_GRID_SIDE,
        forall|j: int| 0 <= j < s.len() ==> v@[j] as int == #[trigger] s[j],
        forall|j: int| 0 <= j < s.len() ==> 0 <= #[trigger] v@[j] <= MAX_EXTENT,
    ensures
        r == seq_sum(s),
        0 <= r <= s.len() * MAX_EXTENT,
{
    let mut sum: i64 = 0;
    let mut k: usize = 0;
    while k < v.len()
        invariant
            v@.len() == s.len() <= MAX_GRID_SIDE,
            forall|j: int| 0 <= j < s.len() ==> v@[j] as int == #[trigger] s[j],
            forall|j: int| 0 <= j < s.len() ==> 0 <= #[trigger] v@[j] <= MAX_EXTENT,
            k <= v@.len(),
            sum == seq_sum(s.take(k as int)),
            0 <= sum <= k * MAX_EXTENT,
        decreases v@.len() - k,
    {
        proof {
            lemma_seq_sum_take(s, k as int);
        }
        sum = sum + v[k];
        k = k + 1;
    }
    assert(s.take(s.len() as int) =~= s);
    sum
}

} // verus!
