//! A dense matrix in one flat buffer, stored column by column.

use crate::scalar::{is_zero, Scalar};
use vstd::prelude::*;

verus! {

/// What a matrix is to the contracts: its shape and its entries, column-major.
pub struct MatrixView<T> {
    pub nrows: nat,
    pub ncols: nat,
    pub data: Seq<T>,
}

impl<T> MatrixView<T> {
    /// The buffer holds exactly `nrows * ncols` entries.
    pub open spec fn wf(self) -> bool {
        self.data.len() == self.nrows * self.ncols
    }

    /// The entry in row `i` and column `j`.
    pub open spec fn at(self, i: int, j: int) -> T {
        self.data[j * self.nrows + i]
    }

    /// Column `j`, top to bottom.
    pub open spec fn col(self, j: int) -> Seq<T> {
        Seq::new(self.nrows, |i: int| self.at(i, j))
    }

    /// Row `i`, left to right.
    pub open spec fn row(self, i: int) -> Seq<T> {
        Seq::new(self.ncols, |j: int| self.at(i, j))
    }

    /// The matrix mirrored at its diagonal.
    pub open spec fn transpose(self) -> MatrixView<T> {
        MatrixView {
            nrows: self.ncols,
            ncols: self.nrows,
            data: Seq::new(
                self.data.len(),
                |k: int|
                    if self.ncols > 0 {
                        self.at(k / (self.ncols as int), k % (self.ncols as int))
                    } else {
                        self.data[k]
                    },
            ),
        }
    }
}

/// The offset of entry `(i, j)` lies inside a buffer of `nrows * ncols` entries.
pub proof fn lemma_offset_in_bounds(i: int, j: int, nrows: int, ncols: int)
    requires
        0 <= i < nrows,
        0 <= j < ncols,
    ensures
        0 <= j * nrows <= j * nrows + i < nrows * ncols,
{
    assert(j * nrows + nrows <= ncols * nrows) by (nonlinear_arith)
        requires
            0 <= j < ncols,
            0 <= nrows,
    ;
    assert(0 <= j * nrows) by (nonlinear_arith)
        requires
            0 <= j,
            0 <= nrows,
    ;
    assert(ncols * nrows == nrows * ncols) by (nonlinear_arith);
}

/// An offset below `nrows * ncols` splits into a column below `ncols` and a row
/// below `nrows`, and only in that way.
pub proof fn lemma_offset_split(k: int, nrows: int, ncols: int)
    requires
        0 <= k < nrows * ncols,
        0 < nrows,
    ensures
        0 <= k / nrows < ncols,
        0 <= k % nrows < nrows,
        (k / nrows) * nrows + k % nrows == k,
{
    vstd::arithmetic::div_mod::lemma_fundamental_div_mod(k, nrows);
    vstd::arithmetic::div_mod::lemma_mod_bound(k, nrows);
    vstd::arithmetic::div_mod::lemma_div_pos_is_pos(k, nrows);
    let q = k / nrows;
    assert(q * nrows == nrows * q) by (nonlinear_arith);
    if q >= ncols {
        assert(q * nrows >= ncols * nrows) by (nonlinear_arith)
            requires
                q >= ncols,
                nrows > 0,
        ;
        assert(ncols * nrows == nrows * ncols) by (nonlinear_arith);
    }
}

/// Two entries share an offset only if they are the same entry.
pub proof fn lemma_offset_unique(i: int, j: int, i2: int, j2: int, nrows: int)
    requires
        0 <= i < nrows,
        0 <= i2 < nrows,
        j * nrows + i == j2 * nrows + i2,
    ensures
        i == i2,
        j == j2,
{
    if j < j2 {
        assert(j2 * nrows >= j * nrows + nrows) by (nonlinear_arith)
            requires
                j < j2,
                nrows > 0,
        ;
    } else if j2 < j {
        assert(j * nrows >= j2 * nrows + nrows) by (nonlinear_arith)
            requires
                j2 < j,
                nrows > 0,
        ;
    }
}

/// The transpose holds at `(j, i)` what the matrix holds at `(i, j)`.
pub proof fn lemma_transpose_at<T>(a: MatrixView<T>, i: int, j: int)
    requires
        a.wf(),
        0 <= i < a.nrows,
        0 <= j < a.ncols,
    ensures
        a.transpose().wf(),
        a.transpose().at(j, i) == a.at(i, j),
{
    let nc = a.ncols as int;
    lemma_offset_in_bounds(j, i, nc, a.nrows as int);
    vstd::arithmetic::div_mod::lemma_fundamental_div_mod_converse(i * nc + j, nc, i, j);
    assert(a.ncols * a.nrows == a.nrows * a.ncols) by (nonlinear_arith);
}

/// Column `c` of a column-major buffer whose columns have `n` entries.
pub open spec fn chunk<T>(data: Seq<T>, c: int, n: int) -> Seq<T> {
    data.subrange(c * n, c * n + n)
}

/// A column of a matrix is the matching chunk of its buffer.
pub proof fn lemma_col_is_chunk<T>(m: MatrixView<T>, c: int)
    requires
        m.wf(),
        0 <= c < m.ncols,
    ensures
        m.col(c) == chunk(m.data, c, m.nrows as int),
        0 <= c * m.nrows <= c * m.nrows + m.nrows <= m.data.len(),
{
    let n = m.nrows as int;
    assert(c * n + n <= m.ncols * n) by (nonlinear_arith)
        requires
            0 <= c < m.ncols,
            0 <= n,
    ;
    assert(0 <= c * n) by (nonlinear_arith)
        requires
            0 <= c,
            0 <= n,
    ;
    assert(m.ncols * n == n * m.ncols) by (nonlinear_arith);
    assert(m.col(c) =~= chunk(m.data, c, n));
}

/// A dense `nrows x ncols` matrix whose entries lie column after column in one
/// buffer, so that the row index varies fastest.
#[derive(Debug)]
pub struct Matrix<T> {
    nrows: usize,
    ncols: usize,
    data: Vec<T>,
}

impl<T> View for Matrix<T> {
    type V = MatrixView<T>;

    closed spec fn view(&self) -> MatrixView<T> {
        MatrixView { nrows: self.nrows as nat, ncols: self.ncols as nat, data: self.data@ }
    }
}

impl<T> Matrix<T> {
    #[verifier::type_invariant]
    spec fn holds_all_entries(self) -> bool {
        self.data@.len() == self.nrows * self.ncols
    }

    /// Wraps a column-major buffer as an `nrows x ncols` matrix.
    pub fn from_vec(nrows: usize, ncols: usize, data: Vec<T>) -> (m: Self)
        requires
            data@.len() == nrows * ncols,
        ensures
            m@ == (MatrixView { nrows: nrows as nat, ncols: ncols as nat, data: data@ }),
    {
        Matrix { nrows, ncols, data }
    }

    /// The shape as `(rows, columns)`.
    pub fn shape(&self) -> (s: (usize, usize))
        ensures
            s.0 == self@.nrows,
            s.1 == self@.ncols,
            self@.wf(),
    {
        proof {
            use_type_invariant(self);
        }
        (self.nrows, self.ncols)
    }

    pub fn nrows(&self) -> (n: usize)
        ensures
            n == self@.nrows,
    {
        self.nrows
    }

    pub fn ncols(&self) -> (n: usize)
        ensures
            n == self@.ncols,
    {
        self.ncols
    }

    /// The entries in storage order.
    pub fn as_slice(&self) -> (s: &[T])
        ensures
            s@ == self@.data,
            self@.wf(),
    {
        proof {
            use_type_invariant(self);
        }
        self.data.as_slice()
    }

    /// Gives the buffer back.
    pub fn into_vec(self) -> (data: Vec<T>)
        ensures
            data@ == self@.data,
            self@.wf(),
    {
        proof {
            use_type_invariant(&self);
        }
        self.data
    }

    /// The entry in row `i` and column `j`.
    pub fn get(&self, i: usize, j: usize) -> (e: &T)
        requires
            i < self@.nrows,
            j < self@.ncols,
        ensures
            *e == self@.at(i as int, j as int),
    {
        let len: usize = self.data.len();
        proof {
            use_type_invariant(self);
            lemma_offset_in_bounds(i as int, j as int, self.nrows as int, self.ncols as int);
            assert(j * self.nrows + i < len);
        }
        &self.data[j * self.nrows + i]
    }

    /// Overwrites the entry in row `i` and column `j`.
    pub fn set(&mut self, i: usize, j: usize, value: T)
        requires
            i < old(self)@.nrows,
            j < old(self)@.ncols,
        ensures
            final(self)@.nrows == old(self)@.nrows,
            final(self)@.ncols == old(self)@.ncols,
            final(self)@.data == old(self)@.data.update(j * old(self)@.nrows + i, value),
    {
        let len: usize = self.data.len();
        proof {
            use_type_invariant(&*self);
            lemma_offset_in_bounds(i as int, j as int, self.nrows as int, self.ncols as int);
            assert(j * self.nrows + i < len);
        }
        let k: usize = j * self.nrows + i;
        self.data[k] = value;
    }
}

impl<T: Scalar> Matrix<T> {
    /// An `nrows x ncols` matrix of zeros.
    pub fn zeros(nrows: usize, ncols: usize) -> (m: Self)
        requires
            nrows * ncols <= usize::MAX,
        ensures
            m@.nrows == nrows,
            m@.ncols == ncols,
            m@.wf(),
            forall|k: int| 0 <= k < m@.data.len() ==> is_zero(#[trigger] m@.data[k]),
    {
        let len: usize = nrows * ncols;
        let mut data: Vec<T> = Vec::new();
        let mut k: usize = 0;
        while k < len
            invariant
                k <= len,
                data@.len() == k,
                forall|i: int| 0 <= i < k ==> is_zero(#[trigger] data@[i]),
            decreases len - k,
        {
            data.push(T::zero());
            k = k + 1;
        }
        Matrix { nrows, ncols, data }
    }

    /// A copy with a buffer of its own.
    pub fn clone_owned(&self) -> (m: Self)
        ensures
            m@ == self@,
    {
        proof {
            use_type_invariant(self);
        }
        let len: usize = self.data.len();
        let mut data: Vec<T> = Vec::new();
        let mut k: usize = 0;
        while k < len
            invariant
                k <= len,
                len == self.data@.len(),
                data@.len() == k,
                forall|i: int| 0 <= i < k ==> #[trigger] data@[i] == self.data@[i],
            decreases len - k,
        {
            data.push(self.data[k]);
            k = k + 1;
        }
        proof {
            assert(data@ =~= self.data@);
        }
        Matrix { nrows: self.nrows, ncols: self.ncols, data }
    }
}

} // verus!
