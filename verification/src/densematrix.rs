//! A rows-by-columns grid stored row by row in one buffer.

use vstd::prelude::*;
use vstd::arithmetic::div_mod::{
    lemma_fundamental_div_mod,
    lemma_fundamental_div_mod_converse,
    lemma_multiply_divide_lt,
};
use crate::densevector::DenseVector;

verus! {

/// Why a matrix could not be built or read.
#[derive(Debug, PartialEq)]
pub enum Error {
    /// The number of elements on offer is not that of the requested shape.
    InsufficientVector,
    /// The source of the elements could not announce how many it holds.
    UnsizedIterator,
    /// The requested row does not exist.
    RowOutOfBounds,
    /// The requested column does not exist.
    ColumnOutOfBounds,
}

/// The model of a matrix: its shape and its cells, row after row.
pub struct Grid<T> {
    pub rows: nat,
    pub cols: nat,
    pub cells: Seq<T>,
}

impl<T> Grid<T> {
    /// There is exactly one cell for each pair of a row and a column.
    pub open spec fn wf(self) -> bool {
        self.cells.len() == self.rows * self.cols
    }

    /// The cell in row `i` and column `j`.
    pub open spec fn at(self, i: int, j: int) -> T {
        self.cells[i * self.cols + j]
    }

    /// Row `i`, read from left to right.
    pub open spec fn row(self, i: int) -> Seq<T> {
        Seq::new(self.cols, |k: int| self.at(i, k))
    }

    /// Column `j`, read from top to bottom.
    pub open spec fn col(self, j: int) -> Seq<T> {
        Seq::new(self.rows, |k: int| self.at(k, j))
    }

    /// The grid mirrored at its diagonal: the shape is swapped, and the cell
    /// at flat position `k` of the result, which lies in its row `k / rows`
    /// and its column `k % rows`, is the cell of `self` in row `k % rows` and
    /// column `k / rows`.
    pub open spec fn transpose(self) -> Grid<T> {
        Grid {
            rows: self.cols,
            cols: self.rows,
            cells: Seq::new(
                self.rows * self.cols,
                |k: int| self.at(k % (self.rows as int), k / (self.rows as int)),
            ),
        }
    }
}

/// A cell's flat position lies inside the buffer.
pub proof fn lemma_flat_position(rows: nat, cols: nat, i: int, j: int)
    requires
        0 <= i < rows,
        0 <= j < cols,
    ensures
        0 <= i * cols + j < rows * cols,
{
    lemma_row_extent(rows, cols, i);
}

/// A row's cells lie inside the buffer, one row after another.
pub proof fn lemma_row_extent(rows: nat, cols: nat, i: int)
    requires
        0 <= i < rows,
    ensures
        0 <= i * cols,
        i * cols + cols <= rows * cols,
{
    assert(i * cols + cols <= rows * cols) by (nonlinear_arith)
        requires
            0 <= i < rows,
            0 <= cols,
    ;
    assert(0 <= i * cols) by (nonlinear_arith)
        requires
            0 <= i,
            0 <= cols,
    ;
}

/// A flat position splits into a row and a column of a grid with `rows`
/// cells in each column.
pub proof fn lemma_split_position(rows: nat, cols: nat, k: int)
    requires
        0 <= k < rows * cols,
    ensures
        rows > 0,
        0 <= k % (rows as int) < rows,
        0 <= k / (rows as int) < cols,
        k == (k / (rows as int)) * rows + k % (rows as int),
{
    assert(rows > 0) by (nonlinear_arith)
        requires
            0 <= k < rows * cols,
    ;
    let r = rows as int;
    lemma_multiply_divide_lt(k, r, cols as int);
    lemma_fundamental_div_mod(k, r);
    assert(r * (k / r) == (k / r) * r) by (nonlinear_arith);
    assert(0 <= k / r) by (nonlinear_arith)
        requires
            0 <= k,
            0 < r,
    ;
}

/// Every cell of the transposed grid is the cell of the grid itself with row
/// and column exchanged.
pub proof fn lemma_transpose_at<T>(g: Grid<T>, i: int, j: int)
    requires
        g.wf(),
        0 <= i < g.rows,
        0 <= j < g.cols,
    ensures
        g.transpose().at(j, i) == g.at(i, j),
{
    let r = g.rows as int;
    let x = j * r + i;
    lemma_flat_position(g.cols, g.rows, j, i);
    assert(g.cols * g.rows == g.rows * g.cols) by (nonlinear_arith);
    lemma_fundamental_div_mod_converse(x, r, j, i);
}

/// Reading the transposed grid row by row is reading the grid itself column
/// by column, and the other way round.
pub proof fn lemma_transpose_lines<T>(g: Grid<T>)
    requires
        g.wf(),
    ensures
        forall|j: int| 0 <= j < g.cols ==> #[trigger] g.transpose().row(j) == g.col(j),
        forall|i: int| 0 <= i < g.rows ==> #[trigger] g.transpose().col(i) == g.row(i),
{
    let t = g.transpose();
    assert forall|j: int| 0 <= j < g.cols implies #[trigger] t.row(j) == g.col(j) by {
        assert forall|i: int| 0 <= i < g.rows implies t.row(j)[i] == g.col(j)[i] by {
            lemma_transpose_at(g, i, j);
        }
        assert(t.row(j) =~= g.col(j));
    }
    assert forall|i: int| 0 <= i < g.rows implies #[trigger] t.col(i) == g.row(i) by {
        assert forall|j: int| 0 <= j < g.cols implies t.col(i)[j] == g.row(i)[j] by {
            lemma_transpose_at(g, i, j);
        }
        assert(t.col(i) =~= g.row(i));
    }
}

/// Transposing twice gives the grid back: the same shape and every cell in
/// its place.
pub proof fn lemma_transpose_twice<T>(g: Grid<T>)
    requires
        g.wf(),
    ensures
        g.transpose().wf(),
        g.transpose().transpose() == g,
{
    let t = g.transpose();
    let tt = t.transpose();
    let r = g.rows as int;
    let c = g.cols as int;
    assert(g.cols * g.rows == g.rows * g.cols) by (nonlinear_arith);
    assert(tt.cells.len() == g.cells.len());
    assert forall|k: int| 0 <= k < g.cells.len() implies tt.cells[k] == g.cells[k] by {
        lemma_split_position(g.cols, g.rows, k);
        let i = k / c;
        let j = k % c;
        assert(tt.cells[k] == t.at(j, i));
        lemma_transpose_at(g, i, j);
        assert(g.at(i, j) == g.cells[k]);
    }
    assert(tt.cells =~= g.cells);
}

/// A matrix of `rows` rows and `cols` columns, kept as one buffer that holds
/// the rows one after another. The buffer always holds exactly
/// `rows * cols` elements.
pub struct DenseMatrix<T> {
    ns: Vec<T>,
    rows: usize,
    cols: usize,
}

impl<T> View for DenseMatrix<T> {
    type V = Grid<T>;

    closed spec fn view(&self) -> Grid<T> {
        Grid { rows: self.rows as nat, cols: self.cols as nat, cells: self.ns@ }
    }
}

impl<T> DenseMatrix<T> {
    #[verifier::type_invariant]
    spec fn shaped(self) -> bool {
        self.ns@.len() == self.rows * self.cols
    }
}

impl<T: Copy> DenseMatrix<T> {
    /// Constructs a single-column matrix out of the given vector.
    pub fn from_vector(vec: DenseVector<T>) -> (m: DenseMatrix<T>)
        ensures
            m@.wf(),
            m@ == (Grid { rows: vec@.len(), cols: 1, cells: vec@ }),
    {
        let rows: usize = vec.size();
        DenseMatrix { ns: vec.into_iter(), rows: rows, cols: 1 }
    }

    /// Constructs a matrix out of the given vector, filling the rows first.
    /// The vector must hold exactly one element for each cell.
    pub fn from_shaped_vector(vec: DenseVector<T>, rows: usize, cols: usize) -> (r: Result<
        DenseMatrix<T>,
        Error,
    >)
        ensures
            vec@.len() == rows * cols ==> r is Ok && r->Ok_0@.wf() && r->Ok_0@ == (Grid {
                rows: rows as nat,
                cols: cols as nat,
                cells: vec@,
            }),
            vec@.len() != rows * cols ==> r == Err::<DenseMatrix<T>, Error>(
                Error::InsufficientVector,
            ),
    {
        let count: usize = vec.size();
        DenseMatrix::from_iter(vec.into_iter(), Some(count), rows, cols)
    }

    /// Constructs a matrix out of the elements drawn from a source, filling
    /// the rows first. `count` is what the source announced as its number of
    /// elements before it was consumed, `None` where it could announce none.
    ///
    /// A source without a count is refused. Otherwise the count and the
    /// number of elements drawn must both be exactly `rows * cols`: too few
    /// and too many are refused alike.
    pub fn from_iter(items: Vec<T>, count: Option<usize>, rows: usize, cols: usize) -> (r: Result<
        DenseMatrix<T>,
        Error,
    >)
        ensures
            count is None ==> r == Err::<DenseMatrix<T>, Error>(Error::UnsizedIterator),
            count is Some && (count->Some_0 != rows * cols || items@.len() != rows * cols) ==> r
                == Err::<DenseMatrix<T>, Error>(Error::InsufficientVector),
            count is Some && count->Some_0 == rows * cols && items@.len() == rows * cols ==> r is Ok
                && r->Ok_0@.wf() && r->Ok_0@ == (Grid {
                rows: rows as nat,
                cols: cols as nat,
                cells: items@,
            }),
    {
        match count {
            None => Err(Error::UnsizedIterator),
            Some(announced) => {
                match rows.checked_mul(cols) {
                    Some(cells) => {
                        if cells == announced && cells == items.len() {
                            Ok(DenseMatrix { ns: items, rows: rows, cols: cols })
                        } else {
                            Err(Error::InsufficientVector)
                        }
                    },
                    None => Err(Error::InsufficientVector),
                }
            },
        }
    }

    /// Matrix row count.
    pub fn row_count(&self) -> (n: usize)
        ensures
            n == self@.rows,
            self@.wf(),
    {
        proof {
            use_type_invariant(self);
        }
        self.rows
    }

    /// Matrix column count.
    pub fn column_count(&self) -> (n: usize)
        ensures
            n == self@.cols,
            self@.wf(),
    {
        proof {
            use_type_invariant(self);
        }
        self.cols
    }

    /// Extracts a single row as a vector: a copy of the cells at the flat
    /// positions from `i * cols` up to, not including, `i * cols + cols`.
    pub fn row(&self, i: usize) -> (r: Result<DenseVector<T>, Error>)
        ensures
            i < self@.rows ==> r is Ok && r->Ok_0@ == self@.row(i as int),
            i < self@.rows ==> r->Ok_0@ == self@.cells.subrange(
                i * self@.cols,
                i * self@.cols + self@.cols,
            ),
            i < self@.rows ==> r->Ok_0@.len() == self@.cols && forall|k: int|
                0 <= k < self@.cols ==> #[trigger] r->Ok_0@[k] == self@.cells[i * self@.cols + k],
            i >= self@.rows ==> r == Err::<DenseVector<T>, Error>(Error::RowOutOfBounds),
    {
        proof {
            use_type_invariant(self);
        }
        if i < self.rows {
            let n: usize = self.ns.len();
            let mut out: Vec<T> = Vec::new();
            let mut k: usize = 0;
            while k < self.cols
                invariant
                    i < self.rows,
                    n == self.ns@.len(),
                    n == self.rows * self.cols,
                    k <= self.cols,
                    out@.len() == k,
                    forall|x: int| 0 <= x < k ==> out@[x] == self.ns@[i * self.cols + x],
                decreases self.cols - k,
            {
                proof {
                    lemma_flat_position(self.rows as nat, self.cols as nat, i as int, k as int);
                }
                out.push(self.ns[i * self.cols + k]);
                k = k + 1;
            }
            proof {
                lemma_row_extent(self.rows as nat, self.cols as nat, i as int);
                assert(out@ =~= self@.row(i as int));
                assert(out@ =~= self@.cells.subrange(
                    i * self@.cols,
                    i * self@.cols + self@.cols,
                ));
            }
            Ok(DenseVector::from_iter(out))
        } else {
            Err(Error::RowOutOfBounds)
        }
    }

    /// Extracts a single column as a vector: a copy of every cell whose flat
    /// position leaves the remainder `j` when divided by the column count,
    /// from top to bottom.
    pub fn col(&self, j: usize) -> (r: Result<DenseVector<T>, Error>)
        ensures
            j < self@.cols ==> r is Ok && r->Ok_0@ == self@.col(j as int),
            j < self@.cols ==> r->Ok_0@.len() == self@.rows && forall|k: int|
                0 <= k < self@.rows ==> #[trigger] r->Ok_0@[k] == self@.cells[k * self@.cols + j],
            j >= self@.cols ==> r == Err::<DenseVector<T>, Error>(Error::ColumnOutOfBounds),
    {
        proof {
            use_type_invariant(self);
        }
        if j < self.cols {
            let n: usize = self.ns.len();
            let mut out: Vec<T> = Vec::new();
            let mut k: usize = 0;
            while k < self.rows
                invariant
                    j < self.cols,
                    n == self.ns@.len(),
                    n == self.rows * self.cols,
                    k <= self.rows,
                    out@.len() == k,
                    forall|x: int| 0 <= x < k ==> out@[x] == self.ns@[x * self.cols + j],
                decreases self.rows - k,
            {
                proof {
                    lemma_flat_position(self.rows as nat, self.cols as nat, k as int, j as int);
                }
                out.push(self.ns[k * self.cols + j]);
                k = k + 1;
            }
            proof {
                assert(out@ =~= self@.col(j as int));
            }
            Ok(DenseVector::from_iter(out))
        } else {
            Err(Error::ColumnOutOfBounds)
        }
    }

    /// The transposed matrix: the shape is swapped and the cells are moved, so
    /// that the cell in row `j` and column `i` of the result is the cell in
    /// row `i` and column `j` of `self`.
    pub fn transpose(self) -> (t: DenseMatrix<T>)
        ensures
            t@.wf(),
            t@ == self@.transpose(),
            forall|i: int, j: int|
                0 <= i < self@.rows && 0 <= j < self@.cols ==> #[trigger] t@.at(j, i) == self@.at(
                    i,
                    j,
                ),
    {
        proof {
            use_type_invariant(&self);
        }
        let n: usize = self.ns.len();
        let mut out: Vec<T> = Vec::new();
        let mut k: usize = 0;
        while k < n
            invariant
                n == self.ns@.len(),
                n == self.rows * self.cols,
                k <= n,
                out@.len() == k,
                forall|x: int|
                    0 <= x < k ==> out@[x] == self@.at(
                        x % (self.rows as int),
                        x / (self.rows as int),
                    ),
            decreases n - k,
        {
            proof {
                lemma_split_position(self.rows as nat, self.cols as nat, k as int);
                lemma_flat_position(
                    self.rows as nat,
                    self.cols as nat,
                    k as int % (self.rows as int),
                    k as int / (self.rows as int),
                );
            }
            let i: usize = k % self.rows;
            let j: usize = k / self.rows;
            out.push(self.ns[i * self.cols + j]);
            k = k + 1;
        }
        proof {
            assert(self.cols * self.rows == self.rows * self.cols) by (nonlinear_arith);
            assert(out@ =~= self@.transpose().cells);
            assert forall|i: int, j: int| 0 <= i < self@.rows && 0 <= j < self@.cols implies
                #[trigger] self@.transpose().at(j, i) == self@.at(i, j) by {
                lemma_transpose_at(self@, i, j);
            }
        }
        DenseMatrix { ns: out, rows: self.cols, cols: self.rows }
    }
}

} // verus!
