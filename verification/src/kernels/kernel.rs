//! What every covariance function offers.

use crate::linalg::errors::IncompatibleShapeError;
use crate::linalg::matrix::{lemma_offset_split, lemma_transpose_at, Matrix, MatrixView};
use crate::scalar::{is_zero, Scalar};
use vstd::prelude::*;

verus! {

/// One triangle of a square matrix. The diagonal belongs to both.
pub enum TriangleSide {
    UPPER,
    LOWER,
}

impl TriangleSide {
    /// Whether the entry in row `row` and column `col` lies in this triangle.
    pub open spec fn spec_contains(self, row: int, col: int) -> bool {
        match self {
            TriangleSide::UPPER => row <= col,
            TriangleSide::LOWER => row >= col,
        }
    }

    /// Whether the entry in row `row` and column `col` lies in this triangle.
    pub fn contains(&self, row: usize, col: usize) -> (b: bool)
        ensures
            b == self.spec_contains(row as int, col as int),
    {
        match self {
            TriangleSide::UPPER => row <= col,
            TriangleSide::LOWER => row >= col,
        }
    }
}

/// The shape of a matrix as the executable code reports it.
pub open spec fn shape_of<T>(m: MatrixView<T>) -> (usize, usize) {
    (m.nrows as usize, m.ncols as usize)
}

/// `out` is the covariance matrix of the columns of `x` against the columns of
/// `y`: the entry in row `i` and column `j` is a covariance of column `i` of `x`
/// with column `j` of `y`.
pub open spec fn is_call<T: Scalar, K: Kernel<T>>(
    kernel: &K,
    x: MatrixView<T>,
    y: MatrixView<T>,
    out: MatrixView<T>,
) -> bool {
    &&& out.nrows == x.ncols
    &&& out.ncols == y.ncols
    &&& out.wf()
    &&& forall|i: int, j: int|
        0 <= i < x.ncols && 0 <= j < y.ncols ==> kernel.is_cov(
            x.col(i),
            y.col(j),
            #[trigger] out.at(i, j),
        )
}

/// `out` holds the covariances of the columns of `x` among themselves in one
/// triangle, diagonal included, and zeros in the rest.
pub open spec fn is_call_triangular<T: Scalar, K: Kernel<T>>(
    kernel: &K,
    x: MatrixView<T>,
    side: TriangleSide,
    out: MatrixView<T>,
) -> bool {
    &&& out.nrows == x.ncols
    &&& out.ncols == x.ncols
    &&& out.wf()
    &&& forall|i: int, j: int|
        0 <= i < x.ncols && 0 <= j < x.ncols ==> if side.spec_contains(i, j) {
            kernel.is_cov(x.col(i), x.col(j), #[trigger] out.at(i, j))
        } else {
            is_zero(#[trigger] out.at(i, j))
        }
}

/// `out` holds, for each column of `x`, a covariance of that column with itself.
pub open spec fn is_call_diagonal<T: Scalar, K: Kernel<T>>(
    kernel: &K,
    x: MatrixView<T>,
    out: Seq<T>,
) -> bool {
    &&& out.len() == x.ncols
    &&& forall|i: int| 0 <= i < x.ncols ==> kernel.is_self_cov(x.col(i), #[trigger] out[i])
}

/// A covariance function over points of a fixed number of dimensions. Points are
/// the columns of a matrix with one row per dimension.
pub trait Kernel<T: Scalar>: Sized {
    /// The number of input dimensions.
    spec fn dims(&self) -> nat;

    /// `k` is a covariance of the points `x` and `y`.
    spec fn is_cov(&self, x: Seq<T>, y: Seq<T>, k: T) -> bool;

    /// `k` is a covariance of the point `x` with itself, as the diagonal-only
    /// operation reports it.
    spec fn is_self_cov(&self, x: Seq<T>, k: T) -> bool;

    /// The shapes that the kernel reports when operands of the shapes `x` and
    /// `y` and an output of the shape `into` do not fit.
    spec fn mismatch(
        &self,
        x: (usize, usize),
        y: (usize, usize),
        into: (usize, usize),
    ) -> Seq<(usize, usize)>;

    /// Computes the covariance between two sets of points: on success the entry
    /// in row `i` and column `j` is a covariance of column `i` of `x` with
    /// column `j` of `y`.
    fn call(&self, x: &Matrix<T>, y: &Matrix<T>) -> (res: Result<
        Matrix<T>,
        IncompatibleShapeError,
    >)
        requires
            x@.ncols * y@.ncols <= usize::MAX,
        ensures
            res is Ok <==> x@.nrows == self.dims() && y@.nrows == self.dims(),
            res is Err ==> res->Err_0.shapes@ == self.mismatch(
                shape_of(x@),
                shape_of(y@),
                (x@.ncols as usize, y@.ncols as usize),
            ),
            res is Ok ==> {
                &&& res->Ok_0@.nrows == x@.ncols
                &&& res->Ok_0@.ncols == y@.ncols
                &&& res->Ok_0@.wf()
                &&& forall|i: int, j: int|
                    0 <= i < x@.ncols && 0 <= j < y@.ncols ==> self.is_cov(
                        x@.col(i),
                        y@.col(j),
                        #[trigger] res->Ok_0@.at(i, j),
                    )
            },
    ;

    /// Computes the covariance between two sets of points into `into`, whose
    /// shape must be `x.ncols() x y.ncols()`. On failure `into` is not touched.
    fn call_inplace(&self, x: &Matrix<T>, y: &Matrix<T>, into: &mut Matrix<T>) -> (res: Result<
        (),
        IncompatibleShapeError,
    >)
        ensures
            res is Ok <==> x@.nrows == self.dims() && y@.nrows == self.dims() && old(
                into,
            )@.nrows == x@.ncols && old(into)@.ncols == y@.ncols,
            res is Err ==> final(into)@ == old(into)@ && res->Err_0.shapes@ == self.mismatch(
                shape_of(x@),
                shape_of(y@),
                shape_of(old(into)@),
            ),
            res is Ok ==> {
                &&& final(into)@.nrows == x@.ncols
                &&& final(into)@.ncols == y@.ncols
                &&& final(into)@.wf()
                &&& forall|i: int, j: int|
                    0 <= i < x@.ncols && 0 <= j < y@.ncols ==> self.is_cov(
                        x@.col(i),
                        y@.col(j),
                        #[trigger] final(into)@.at(i, j),
                    )
            },
    ;

    /// Computes the covariance of a set of points with itself in one triangle
    /// only, diagonal included. The other triangle holds zeros.
    fn call_triangular(&self, x: &Matrix<T>, side: TriangleSide) -> (res: Result<
        Matrix<T>,
        IncompatibleShapeError,
    >)
        requires
            x@.ncols * x@.ncols <= usize::MAX,
        ensures
            res is Ok <==> x@.nrows == self.dims(),
            res is Err ==> res->Err_0.shapes@ == self.mismatch(
                shape_of(x@),
                shape_of(x@),
                (x@.ncols as usize, x@.ncols as usize),
            ),
            res is Ok ==> {
                &&& res->Ok_0@.nrows == x@.ncols
                &&& res->Ok_0@.ncols == x@.ncols
                &&& res->Ok_0@.wf()
                &&& forall|i: int, j: int|
                    0 <= i < x@.ncols && 0 <= j < x@.ncols ==> if side.spec_contains(i, j) {
                        self.is_cov(x@.col(i), x@.col(j), #[trigger] res->Ok_0@.at(i, j))
                    } else {
                        is_zero(#[trigger] res->Ok_0@.at(i, j))
                    }
            },
    ;

    /// Computes only the diagonal of the covariance of a set of points with
    /// itself: one entry per column of `x`. On failure the shapes are those of
    /// the square matrix whose diagonal was asked for.
    fn call_diagonal(&self, x: &Matrix<T>) -> (res: Result<Vec<T>, IncompatibleShapeError>)
        ensures
            res is Ok <==> x@.nrows == self.dims(),
            res is Err ==> res->Err_0.shapes@ == self.mismatch(
                shape_of(x@),
                shape_of(x@),
                (x@.ncols as usize, x@.ncols as usize),
            ),
            res is Ok ==> {
                &&& res->Ok_0@.len() == x@.ncols
                &&& forall|i: int|
                    0 <= i < x@.ncols ==> self.is_self_cov(x@.col(i), #[trigger] res->Ok_0@[i])
            },
    ;
}

/// The kernel does not tell its arguments apart: a covariance of `a` and `b` is
/// a covariance of `b` and `a`.
pub open spec fn is_symmetric<T: Scalar, K: Kernel<T>>(kernel: &K) -> bool {
    forall|a: Seq<T>, b: Seq<T>, k: T| #[trigger] kernel.is_cov(a, b, k) ==> kernel.is_cov(b, a, k)
}

/// For a symmetric kernel, the covariance matrix of `x` against `y`, transposed,
/// is a covariance matrix of `y` against `x`.
pub proof fn lemma_call_swapped_is_transpose<T: Scalar, K: Kernel<T>>(
    kernel: &K,
    x: MatrixView<T>,
    y: MatrixView<T>,
    out: MatrixView<T>,
)
    requires
        is_symmetric(kernel),
        is_call(kernel, x, y, out),
    ensures
        is_call(kernel, y, x, out.transpose()),
{
    let t = out.transpose();
    assert(out.ncols * out.nrows == out.nrows * out.ncols) by (nonlinear_arith);
    assert forall|i: int, j: int| 0 <= i < y.ncols && 0 <= j < x.ncols implies kernel.is_cov(
        y.col(i),
        x.col(j),
        #[trigger] t.at(i, j),
    ) by {
        lemma_transpose_at(out, j, i);
        assert(kernel.is_cov(x.col(j), y.col(i), out.at(j, i)));
    }
}

/// One triangle of the full covariance matrix of `x` with itself, with zeros in
/// the other triangle, is a result of the triangular operation.
pub proof fn lemma_triangle_of_call_is_call_triangular<T: Scalar, K: Kernel<T>>(
    kernel: &K,
    x: MatrixView<T>,
    side: TriangleSide,
    full: MatrixView<T>,
    triangle: MatrixView<T>,
)
    requires
        is_call(kernel, x, x, full),
        triangle.nrows == x.ncols,
        triangle.ncols == x.ncols,
        triangle.wf(),
        forall|i: int, j: int|
            0 <= i < x.ncols && 0 <= j < x.ncols ==> if side.spec_contains(i, j) {
                #[trigger] triangle.at(i, j) == full.at(i, j)
            } else {
                is_zero(#[trigger] triangle.at(i, j))
            },
    ensures
        is_call_triangular(kernel, x, side, triangle),
{
    assert forall|i: int, j: int| 0 <= i < x.ncols && 0 <= j < x.ncols implies if side.spec_contains(
        i,
        j,
    ) {
        kernel.is_cov(x.col(i), x.col(j), #[trigger] triangle.at(i, j))
    } else {
        is_zero(#[trigger] triangle.at(i, j))
    } by {
        if side.spec_contains(i, j) {
            assert(kernel.is_cov(x.col(i), x.col(j), full.at(i, j)));
        }
    }
}

/// The kernel has one covariance per pair of points.
pub open spec fn is_function<T: Scalar, K: Kernel<T>>(kernel: &K) -> bool {
    forall|a: Seq<T>, b: Seq<T>, k1: T, k2: T| #[trigger]
        kernel.is_cov(a, b, k1) && #[trigger] kernel.is_cov(a, b, k2) ==> k1 == k2
}

/// A kernel with one covariance per pair of points has one covariance matrix
/// per pair of point sets.
pub proof fn lemma_call_is_unique<T: Scalar, K: Kernel<T>>(
    kernel: &K,
    x: MatrixView<T>,
    y: MatrixView<T>,
    out1: MatrixView<T>,
    out2: MatrixView<T>,
)
    requires
        is_function(kernel),
        is_call(kernel, x, y, out1),
        is_call(kernel, x, y, out2),
    ensures
        out1 == out2,
{
    assert forall|k: int| 0 <= k < out1.data.len() implies out1.data[k] == out2.data[k] by {
        if x.ncols == 0 {
            assert(x.ncols * y.ncols == 0) by (nonlinear_arith)
                requires
                    x.ncols == 0,
            ;
        }
        lemma_offset_split(k, x.ncols as int, y.ncols as int);
        let i = k % (x.ncols as int);
        let j = k / (x.ncols as int);
        assert(kernel.is_cov(x.col(i), y.col(j), out1.at(i, j)));
        assert(kernel.is_cov(x.col(i), y.col(j), out2.at(i, j)));
    }
    assert(out1.data =~= out2.data);
}

/// For a symmetric kernel with one covariance per pair of points,
/// `call(x, y)` equals the transpose of `call(y, x)`.
pub proof fn lemma_call_equals_transpose_of_swapped<T: Scalar, K: Kernel<T>>(
    kernel: &K,
    x: MatrixView<T>,
    y: MatrixView<T>,
    kxy: MatrixView<T>,
    kyx: MatrixView<T>,
)
    requires
        is_symmetric(kernel),
        is_function(kernel),
        is_call(kernel, x, y, kxy),
        is_call(kernel, y, x, kyx),
    ensures
        kxy == kyx.transpose(),
{
    lemma_call_swapped_is_transpose(kernel, y, x, kyx);
    lemma_call_is_unique(kernel, x, y, kxy, kyx.transpose());
}

/// For a kernel with one covariance per pair of points, `call_triangular(x, side)`
/// equals `call(x, x)` in every cell of `side`.
pub proof fn lemma_call_triangular_equals_triangle_of_call<T: Scalar, K: Kernel<T>>(
    kernel: &K,
    x: MatrixView<T>,
    side: TriangleSide,
    full: MatrixView<T>,
    triangle: MatrixView<T>,
)
    requires
        is_function(kernel),
        is_call(kernel, x, x, full),
        is_call_triangular(kernel, x, side, triangle),
    ensures
        forall|i: int, j: int|
            0 <= i < x.ncols && 0 <= j < x.ncols && side.spec_contains(i, j)
                ==> #[trigger] triangle.at(i, j) == full.at(i, j),
{
    assert forall|i: int, j: int|
        0 <= i < x.ncols && 0 <= j < x.ncols && side.spec_contains(i, j)
        implies #[trigger] triangle.at(i, j) == full.at(i, j) by {
        assert(kernel.is_cov(x.col(i), x.col(j), full.at(i, j)));
        assert(kernel.is_cov(x.col(i), x.col(j), triangle.at(i, j)));
    }
}

/// The diagonal-only operation reports for every point what the kernel gives
/// for the point paired with itself.
pub open spec fn diagonal_agrees<T: Scalar, K: Kernel<T>>(kernel: &K) -> bool {
    forall|x: Seq<T>, k: T| #[trigger] kernel.is_cov(x, x, k) ==> kernel.is_self_cov(x, k)
}

/// Where the diagonal-only operation agrees with the kernel point by point, the
/// diagonal of `call(x, x)` is a result of `call_diagonal(x)`.
pub proof fn lemma_diagonal_of_call_is_call_diagonal<T: Scalar, K: Kernel<T>>(
    kernel: &K,
    x: MatrixView<T>,
    full: MatrixView<T>,
    diagonal: Seq<T>,
)
    requires
        diagonal_agrees(kernel),
        is_call(kernel, x, x, full),
        diagonal.len() == x.ncols,
        forall|i: int| 0 <= i < x.ncols ==> #[trigger] diagonal[i] == full.at(i, i),
    ensures
        is_call_diagonal(kernel, x, diagonal),
{
    assert forall|i: int| 0 <= i < x.ncols implies kernel.is_self_cov(
        x.col(i),
        #[trigger] diagonal[i],
    ) by {
        assert(kernel.is_cov(x.col(i), x.col(i), full.at(i, i)));
    }
}

} // verus!
