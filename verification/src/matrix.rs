//! Dense two-dimensional feature matrix.
//!
//! Rows are independent observations. Entries are `i64` order keys: a
//! caller that works with real-valued features maps each value to an
//! integer key through any order-preserving encoding before handing
//! the data to this crate, so that all comparisons made here are
//! total. The storage itself is an `ndarray` array, reached only
//! through the trusted wrappers in this module.

use vstd::prelude::*;

verus! {

/// A matrix of shape (row count, column count), backed by
/// `ndarray::Array2<i64>`.
#[verifier::external_body]
pub struct Matrix {
    inner: ndarray::Array2<i64>,
}

/// The rows a matrix holds, each row the sequence of its entries.
pub uninterp spec fn rows_of(m: Matrix) -> Seq<Seq<i64>>;

/// The column count a matrix was created with (also meaningful when
/// the matrix has zero rows).
pub uninterp spec fn cols_of(m: Matrix) -> nat;

impl View for Matrix {
    type V = Seq<Seq<i64>>;

    open spec fn view(&self) -> Seq<Seq<i64>> {
        rows_of(*self)
    }
}

impl Matrix {
    /// Every row has exactly `cols_of` entries, and each axis length
    /// as well as the entry count stays within the allocation bound
    /// the backing store needs (it bounds every non-zero axis length,
    /// so the axis lengths must be held down even when the other axis
    /// is empty).
    pub open spec fn wf(self) -> bool {
        &&& forall|i: int|
            0 <= i < self@.len() ==> (#[trigger] self@[i]).len() == cols_of(self)
        &&& self@.len() < 0x8000_0000
        &&& cols_of(self) < 0x8000_0000
        &&& self@.len() * cols_of(self) < 0x8000_0000
    }

    /// Number of rows.
    pub fn nrows(&self) -> (r: usize)
        ensures
            r == self@.len(),
    {
        mx_nrows(self)
    }

    /// Number of columns.
    pub fn ncols(&self) -> (r: usize)
        ensures
            r == cols_of(*self),
    {
        mx_ncols(self)
    }

    /// The entry at row `i`, column `j`.
    pub fn get(&self, i: usize, j: usize) -> (r: i64)
        requires
            i < self@.len(),
            j < self@[i as int].len(),
        ensures
            r == self@[i as int][j as int],
    {
        mx_get(self, i, j)
    }

    /// A copy of row `i` as a plain vector.
    pub fn row(&self, i: usize) -> (r: Vec<i64>)
        requires
            self.wf(),
            i < self@.len(),
        ensures
            r@ == self@[i as int],
    {
        let n = self.ncols();
        let mut out: Vec<i64> = Vec::new();
        let mut j: usize = 0;
        while j < n
            invariant
                self.wf(),
                i < self@.len(),
                n == cols_of(*self),
                j <= n,
                out@ == self@[i as int].take(j as int),
            decreases n - j,
        {
            out.push(self.get(i, j));
            assert(self@[i as int].take(j + 1 as int)
                == self@[i as int].take(j as int).push(self@[i as int][j as int]));
            j = j + 1;
        }
        assert(self@[i as int].take(n as int) == self@[i as int]);
        out
    }

    /// Builds a matrix from row vectors, all of length `ncols`.
    pub fn from_rows(rows: &Vec<Vec<i64>>, ncols: usize) -> (m: Matrix)
        requires
            forall|i: int| 0 <= i < rows@.len() ==> (#[trigger] rows@[i])@.len() == ncols,
            rows@.len() < 0x8000_0000,
            ncols < 0x8000_0000,
            rows@.len() * ncols < 0x8000_0000,
        ensures
            m.wf(),
            cols_of(m) == ncols,
            m@.len() == rows@.len(),
            forall|i: int| 0 <= i < rows@.len() ==> m@[i] == (#[trigger] rows@[i])@,
    {
        let nr = rows.len();
        let mut m = mx_zeros(nr, ncols);
        let mut i: usize = 0;
        while i < nr
            invariant
                nr == rows@.len(),
                forall|k: int| 0 <= k < rows@.len() ==> (#[trigger] rows@[k])@.len() == ncols,
                i <= nr,
                rows_of(m).len() == nr,
                cols_of(m) == ncols,
                forall|k: int| 0 <= k < nr ==> (#[trigger] rows_of(m)[k]).len() == ncols,
                nr * ncols < 0x8000_0000,
                forall|k: int| 0 <= k < i ==> rows_of(m)[k] == (#[trigger] rows@[k])@,
            decreases nr - i,
        {
            mx_assign_row(&mut m, i, &rows[i]);
            i = i + 1;
        }
        m
    }
}

/// Relies on `ndarray::Array2::zeros`: an `nr`-by-`nc` array whose
/// entries are all zero. The constructor panics when the product of
/// the non-zero axis lengths overflows `isize`, so each axis length
/// is bounded on its own, besides their product: a zero axis leaves
/// the other axis length as that product.
#[verifier::external_body]
fn mx_zeros(nr: usize, nc: usize) -> (m: Matrix)
    requires
        nr < 0x8000_0000,
        nc < 0x8000_0000,
        (nr as int) * (nc as int) < 0x8000_0000,
    ensures
        rows_of(m) == Seq::new(nr as nat, |i: int| Seq::new(nc as nat, |j: int| 0i64)),
        cols_of(m) == nc as nat,
{
    Matrix { inner: ndarray::Array2::zeros((nr, nc)) }
}

/// Relies on `ndarray`'s `row_mut` and `assign`: overwrites row `i`
/// with the given entries, leaving every other row unchanged.
#[verifier::external_body]
fn mx_assign_row(m: &mut Matrix, i: usize, row: &Vec<i64>)
    requires
        i < rows_of(*old(m)).len(),
        row@.len() == cols_of(*old(m)),
    ensures
        rows_of(*final(m)) == rows_of(*old(m)).update(i as int, row@),
        cols_of(*final(m)) == cols_of(*old(m)),
{
    m.inner.row_mut(i).assign(&ndarray::aview1(row.as_slice()));
}

/// Relies on `ndarray`'s `nrows`: the length of the row axis.
#[verifier::external_body]
fn mx_nrows(m: &Matrix) -> (r: usize)
    ensures
        r == rows_of(*m).len(),
{
    m.inner.nrows()
}

/// Relies on `ndarray`'s `ncols`: the length of the column axis.
#[verifier::external_body]
fn mx_ncols(m: &Matrix) -> (r: usize)
    ensures
        r == cols_of(*m),
{
    m.inner.ncols()
}

/// Relies on `ndarray`'s indexing: the entry at row `i`, column `j`.
#[verifier::external_body]
fn mx_get(m: &Matrix, i: usize, j: usize) -> (r: i64)
    requires
        i < rows_of(*m).len(),
        j < rows_of(*m)[i as int].len(),
    ensures
        r == rows_of(*m)[i as int][j as int],
{
    m.inner[[i, j]]
}

} // verus!
