//! The radial basis function kernel, with one length scale per dimension and an
//! amplitude: `k(x, y) = amplitude * exp(sum_k gamma[k] * (x[k] - y[k])^2)`.

use crate::indexing::{index_to_2d, slice_indices};
use crate::kernels::kernel::{is_symmetric, shape_of, Kernel, TriangleSide};
use crate::linalg::errors::IncompatibleShapeError;
use crate::linalg::matrix::{
    lemma_col_is_chunk, lemma_offset_in_bounds, lemma_offset_split, Matrix, MatrixView,
};
use crate::parallel::par_collect;
use crate::parameterized::Parameterized;
use crate::scalar::{
    is_exp, is_half, is_minus, is_negate, is_over, is_sum, is_times, is_zero, sum_trace, Scalar,
};
use vstd::prelude::*;
use vstd::slice::slice_subrange;

verus! {

/// What a kernel is to the contracts: its exponent coefficients, one per
/// dimension, and its squared amplitude.
pub struct RBFView<T> {
    pub gamma: Seq<T>,
    pub amplitude: T,
}

/// `g` is the exponent coefficient of the length scale `l`: minus one half,
/// divided by the square of `l`.
pub open spec fn is_gamma<T: Scalar>(l: T, g: T) -> bool {
    exists|sq: T, h: T, nh: T|
        is_times(l, l, sq) && is_half(h) && is_negate(h, nh) && is_over(nh, sq, g)
}

/// `t` is the contribution of one dimension to the exponent: the squared
/// difference of the coordinates, times the coefficient.
pub open spec fn is_rbf_term<T: Scalar>(g: T, x: T, y: T, t: T) -> bool {
    exists|diff: T, sq: T| is_minus(x, y, diff) && is_times(diff, diff, sq) && is_times(sq, g, t)
}

/// The number of dimensions that a kernel and two points have in common.
pub open spec fn common_len(gamma: nat, x: nat, y: nat) -> nat {
    let gx = if gamma <= x {
        gamma
    } else {
        x
    };
    if gx <= y {
        gx
    } else {
        y
    }
}

/// `terms` are the contributions of the dimensions, in order.
pub open spec fn are_rbf_terms<T: Scalar>(
    gamma: Seq<T>,
    x: Seq<T>,
    y: Seq<T>,
    terms: Seq<T>,
) -> bool {
    &&& terms.len() == common_len(gamma.len(), x.len(), y.len())
    &&& forall|k: int|
        0 <= k < terms.len() ==> is_rbf_term(gamma[k], x[k], y[k], #[trigger] terms[k])
}

/// `r` is a covariance of the points `x` and `y`: the contributions of the
/// dimensions are summed in order, the sum is exponentiated, and the result is
/// scaled by the amplitude.
pub open spec fn is_rbf_point<T: Scalar>(kernel: RBFView<T>, x: Seq<T>, y: Seq<T>, r: T) -> bool {
    exists|terms: Seq<T>, s: T, e: T|
        are_rbf_terms(kernel.gamma, x, y, terms) && is_sum(terms, s) && is_exp(s, e) && is_times(
            e,
            kernel.amplitude,
            r,
        )
}

/// The shapes that a kernel of `dims` input dimensions reports when its operands
/// do not fit: both operands, the kernel's own row of coefficients, and the
/// output.
pub open spec fn rbf_shapes(
    dims: nat,
    x_shape: (usize, usize),
    y_shape: (usize, usize),
    into_shape: (usize, usize),
) -> Seq<(usize, usize)> {
    seq![x_shape, y_shape, (1usize, dims as usize), into_shape]
}

/// Whether operands of these shapes fit a kernel of `dims` dimensions and an
/// output of shape `into_shape`.
pub open spec fn shapes_fit(
    dims: nat,
    x_shape: (usize, usize),
    y_shape: (usize, usize),
    into_shape: (usize, usize),
) -> bool {
    &&& x_shape.0 == dims
    &&& y_shape.0 == dims
    &&& into_shape.0 == x_shape.1
    &&& into_shape.1 == y_shape.1
}

/// Radial basis function kernel.
#[derive(Debug)]
pub struct RBF<T> {
    gamma: Vec<T>,
    amplitude: T,
}

impl<T> View for RBF<T> {
    type V = RBFView<T>;

    closed spec fn view(&self) -> RBFView<T> {
        RBFView { gamma: self.gamma@, amplitude: self.amplitude }
    }
}

impl<T: Scalar> RBF<T> {
    /// Creates a kernel from one length scale per dimension and an amplitude.
    /// The amplitude is stored squared.
    pub fn new(length_scale: &Vec<T>, sigma: T) -> (kernel: Self)
        ensures
            kernel@.gamma.len() == length_scale@.len(),
            forall|k: int|
                0 <= k < length_scale@.len() ==> is_gamma(
                    length_scale@[k],
                    #[trigger] kernel@.gamma[k],
                ),
            is_times(sigma, sigma, kernel@.amplitude),
    {
        let gamma = Self::gamma(length_scale);
        RBF { gamma, amplitude: sigma.times(sigma) }
    }

    /// Computes the exponent coefficients of a vector of length scales.
    fn gamma(length_scale: &Vec<T>) -> (gamma: Vec<T>)
        ensures
            gamma@.len() == length_scale@.len(),
            forall|k: int|
                0 <= k < length_scale@.len() ==> is_gamma(length_scale@[k], #[trigger] gamma@[k]),
    {
        let mut gamma: Vec<T> = Vec::new();
        let mut k: usize = 0;
        while k < length_scale.len()
            invariant
                k <= length_scale@.len(),
                gamma@.len() == k,
                forall|i: int| 0 <= i < k ==> is_gamma(length_scale@[i], #[trigger] gamma@[i]),
            decreases length_scale@.len() - k,
        {
            let v = length_scale[k];
            let sq = v.times(v);
            let h = T::half();
            let nh = h.negate();
            let g = nh.over(sq);
            proof {
                assert(is_times(v, v, sq) && is_half(h) && is_negate(h, nh) && is_over(nh, sq, g));
            }
            gamma.push(g);
            k = k + 1;
        }
        gamma
    }

    /// Computes the covariance between two points.
    pub fn call_point(&self, x_point: &[T], y_point: &[T]) -> (r: T)
        ensures
            is_rbf_point(self@, x_point@, y_point@, r),
    {
        let mut n: usize = self.gamma.len();
        if x_point.len() < n {
            n = x_point.len();
        }
        if y_point.len() < n {
            n = y_point.len();
        }
        let mut acc = T::zero();
        let ghost mut terms: Seq<T> = Seq::empty();
        let ghost mut partial: Seq<T> = seq![acc];
        let mut k: usize = 0;
        while k < n
            invariant
                k <= n,
                n == common_len(self.gamma@.len(), x_point@.len(), y_point@.len()),
                terms.len() == k,
                forall|i: int|
                    0 <= i < k ==> is_rbf_term(
                        self.gamma@[i],
                        x_point@[i],
                        y_point@[i],
                        #[trigger] terms[i],
                    ),
                sum_trace(terms, partial, acc),
            decreases n - k,
        {
            let diff = x_point[k].minus(y_point[k]);
            let sq = diff.times(diff);
            let t = sq.times(self.gamma[k]);
            acc = acc.plus(t);
            proof {
                assert(is_minus(x_point@[k as int], y_point@[k as int], diff) && is_times(
                    diff,
                    diff,
                    sq,
                ) && is_times(sq, self.gamma@[k as int], t));
                terms = terms.push(t);
                partial = partial.push(acc);
            }
            k = k + 1;
        }
        let e = acc.exp();
        let r = e.times(self.amplitude);
        proof {
            assert(is_sum(terms, acc));
            assert(are_rbf_terms(self@.gamma, x_point@, y_point@, terms) && is_sum(terms, acc)
                && is_exp(acc, e) && is_times(e, self@.amplitude, r));
        }
        r
    }

    /// Checks that both operands have one row per dimension of the kernel and
    /// that the output has one row per column of `x` and one column per column
    /// of `y`.
    pub fn check_shapes(
        &self,
        x_shape: (usize, usize),
        y_shape: (usize, usize),
        into_shape: (usize, usize),
    ) -> (res: Result<(), IncompatibleShapeError>)
        ensures
            shapes_fit(self@.gamma.len(), x_shape, y_shape, into_shape) ==> res is Ok,
            !shapes_fit(self@.gamma.len(), x_shape, y_shape, into_shape) ==> res is Err
                && res->Err_0.shapes@ == rbf_shapes(
                self@.gamma.len(),
                x_shape,
                y_shape,
                into_shape,
            ),
    {
        if x_shape.0 != self.gamma.len() || y_shape.0 != self.gamma.len() || into_shape.0
            != x_shape.1 || into_shape.1 != y_shape.1 {
            let mut shapes: Vec<(usize, usize)> = Vec::new();
            shapes.push(x_shape);
            shapes.push(y_shape);
            shapes.push((1, self.gamma.len()));
            shapes.push(into_shape);
            proof {
                assert(shapes@ =~= rbf_shapes(
                    self@.gamma.len(),
                    x_shape,
                    y_shape,
                    into_shape,
                ));
            }
            return Err(IncompatibleShapeError { shapes });
        }
        Ok(())
    }

    /// Computes the covariance of column `i` of `x` with column `j` of `y`.
    fn call_columns(&self, x: &Matrix<T>, y: &Matrix<T>, i: usize, j: usize) -> (r: T)
        requires
            i < x@.ncols,
            j < y@.ncols,
        ensures
            is_rbf_point(self@, x@.col(i as int), y@.col(j as int), r),
    {
        let x_sl = x.as_slice();
        let y_sl = y.as_slice();
        let x_len: usize = x_sl.len();
        let y_len: usize = y_sl.len();
        proof {
            lemma_col_is_chunk(x@, i as int);
            lemma_col_is_chunk(y@, j as int);
            assert(i * x@.nrows + x@.nrows <= x_len);
            assert(j * y@.nrows + y@.nrows <= y_len);
        }
        let (xs, xe) = slice_indices(i, x.nrows());
        let (ys, ye) = slice_indices(j, y.nrows());
        let x_point = slice_subrange(x_sl, xs, xe);
        let y_point = slice_subrange(y_sl, ys, ye);
        self.call_point(x_point, y_point)
    }

    /// Writes the covariances of the columns of `x` against the columns of `y`
    /// into the cells of `into` that lie in `side`, or into all cells where no
    /// side is given. Every cell is computed on its own, in parallel.
    fn fill(&self, x: &Matrix<T>, y: &Matrix<T>, side: Option<&TriangleSide>, into: &mut Matrix<T>)
        requires
            old(into)@.nrows == x@.ncols,
            old(into)@.ncols == y@.ncols,
        ensures
            is_written(self@, x@, y@, side, old(into)@, final(into)@),
    {
        let nx = x.ncols();
        let ny = y.ncols();
        let total: usize = into.as_slice().len();
        let ghost before = into@;
        let current: &Matrix<T> = &*into;
        let cell = |index: usize| -> (v: T)
            requires
                index < total,
            ensures
                if in_side(side, (index % nx) as int, (index / nx) as int) {
                    is_rbf_point(
                        self@,
                        x@.col((index % nx) as int),
                        y@.col((index / nx) as int),
                        v,
                    )
                } else {
                    v == current@.data[index as int]
                },
            {
                proof {
                    if nx == 0 {
                        assert(nx * ny == 0) by (nonlinear_arith)
                            requires
                                nx == 0,
                        ;
                    }
                    lemma_offset_split(index as int, nx as int, ny as int);
                }
                let (j, i) = index_to_2d(index, nx);
                let inside = match side {
                    Some(s) => s.contains(i, j),
                    None => true,
                };
                if inside {
                    self.call_columns(x, y, i, j)
                } else {
                    *current.get(i, j)
                }
            };
        let data = par_collect(total, cell);
        *into = Matrix::from_vec(nx, ny, data);
        proof {
            assert forall|r: int, c: int| 0 <= r < x@.ncols && 0 <= c < y@.ncols implies if in_side(
                side,
                r,
                c,
            ) {
                is_rbf_point(self@, x@.col(r), y@.col(c), #[trigger] into@.at(r, c))
            } else {
                #[trigger] into@.at(r, c) == before.at(r, c)
            } by {
                let index = c * nx + r;
                lemma_offset_in_bounds(r, c, nx as int, ny as int);
                vstd::arithmetic::div_mod::lemma_fundamental_div_mod_converse(
                    index,
                    nx as int,
                    c,
                    r,
                );
                assert(cell.ensures((index as usize,), data@[index]));
            }
        }
    }

    /// Computes the covariance of the columns of `x` among themselves in one
    /// triangle of `into`, diagonal included. The rest of `into` is left as it
    /// was. On failure `into` is not touched.
    pub fn call_triangular_inplace(
        &self,
        x: &Matrix<T>,
        side: TriangleSide,
        into: &mut Matrix<T>,
    ) -> (res: Result<(), IncompatibleShapeError>)
        ensures
            shapes_fit(
                self@.gamma.len(),
                shape_of(x@),
                shape_of(x@),
                shape_of(old(into)@),
            ) ==> res is Ok && is_written(
                self@,
                x@,
                x@,
                Some(&side),
                old(into)@,
                final(into)@,
            ),
            !shapes_fit(
                self@.gamma.len(),
                shape_of(x@),
                shape_of(x@),
                shape_of(old(into)@),
            ) ==> res is Err && final(into)@ == old(into)@ && res->Err_0.shapes@ == rbf_shapes(
                self@.gamma.len(),
                shape_of(x@),
                shape_of(x@),
                shape_of(old(into)@),
            ),
    {
        let x_shape = x.shape();
        let into_shape = into.shape();
        match self.check_shapes(x_shape, x_shape, into_shape) {
            Err(e) => {
                return Err(e);
            },
            Ok(_) => {},
        }
        self.fill(x, x, Some(&side), into);
        Ok(())
    }
}

/// Whether the cell in row `r` and column `c` is one that gets written.
pub open spec fn in_side(side: Option<&TriangleSide>, r: int, c: int) -> bool {
    match side {
        Some(s) => s.spec_contains(r, c),
        None => true,
    }
}

/// `after` is `before` with every cell of `side` overwritten by the covariance of
/// column `r` of `x` with column `c` of `y`, `(r, c)` being the cell's row and
/// column; every other cell is untouched.
pub open spec fn is_written<T: Scalar>(
    kernel: RBFView<T>,
    x: MatrixView<T>,
    y: MatrixView<T>,
    side: Option<&TriangleSide>,
    before: MatrixView<T>,
    after: MatrixView<T>,
) -> bool {
    &&& after.nrows == x.ncols
    &&& after.ncols == y.ncols
    &&& after.wf()
    &&& forall|r: int, c: int|
        0 <= r < x.ncols && 0 <= c < y.ncols ==> if in_side(side, r, c) {
            is_rbf_point(kernel, x.col(r), y.col(c), #[trigger] after.at(r, c))
        } else {
            #[trigger] after.at(r, c) == before.at(r, c)
        }
}

impl<T: Scalar> Kernel<T> for RBF<T> {
    open spec fn dims(&self) -> nat {
        self@.gamma.len()
    }

    open spec fn is_cov(&self, x: Seq<T>, y: Seq<T>, k: T) -> bool {
        is_rbf_point(self@, x, y, k)
    }

    open spec fn is_self_cov(&self, x: Seq<T>, k: T) -> bool {
        k == self@.amplitude
    }

    open spec fn mismatch(
        &self,
        x: (usize, usize),
        y: (usize, usize),
        into: (usize, usize),
    ) -> Seq<(usize, usize)> {
        rbf_shapes(self@.gamma.len(), x, y, into)
    }

    /// Checks the shapes first, then computes every cell of `into` on its own.
    fn call_inplace(&self, x: &Matrix<T>, y: &Matrix<T>, into: &mut Matrix<T>) -> (res: Result<
        (),
        IncompatibleShapeError,
    >) {
        let x_shape = x.shape();
        let y_shape = y.shape();
        let into_shape = into.shape();
        match self.check_shapes(x_shape, y_shape, into_shape) {
            Err(e) => {
                return Err(e);
            },
            Ok(_) => {},
        }
        self.fill(x, y, None, into);
        Ok(())
    }

    /// Fills a fresh matrix of zeros.
    fn call(&self, x: &Matrix<T>, y: &Matrix<T>) -> (res: Result<
        Matrix<T>,
        IncompatibleShapeError,
    >) {
        let x_shape = x.shape();
        let y_shape = y.shape();
        let mut value = Matrix::<T>::zeros(x_shape.1, y_shape.1);
        match self.call_inplace(x, y, &mut value) {
            Err(e) => {
                return Err(e);
            },
            Ok(_) => {},
        }
        Ok(value)
    }

    /// Fills one triangle of a fresh matrix of zeros and never computes the
    /// other.
    fn call_triangular(&self, x: &Matrix<T>, side: TriangleSide) -> (res: Result<
        Matrix<T>,
        IncompatibleShapeError,
    >) {
        let x_shape = x.shape();
        let mut value = Matrix::<T>::zeros(x_shape.1, x_shape.1);
        let ghost zeros = value@;
        match self.call_triangular_inplace(x, side, &mut value) {
            Err(e) => {
                return Err(e);
            },
            Ok(_) => {},
        }
        proof {
            assert forall|i: int, j: int| 0 <= i < x@.ncols && 0 <= j < x@.ncols implies if side.spec_contains(
                i,
                j,
            ) {
                self.is_cov(x@.col(i), x@.col(j), #[trigger] value@.at(i, j))
            } else {
                is_zero(#[trigger] value@.at(i, j))
            } by {
                lemma_offset_in_bounds(i, j, x@.ncols as int, x@.ncols as int);
                assert(is_zero(zeros.data[j * x@.ncols + i]));
            }
        }
        Ok(value)
    }

    fn call_diagonal(&self, x: &Matrix<T>) -> (res: Result<Vec<T>, IncompatibleShapeError>) {
        let x_shape = x.shape();
        match self.check_shapes(x_shape, x_shape, (x_shape.1, x_shape.1)) {
            Err(e) => {
                return Err(e);
            },
            Ok(_) => {},
        }
        let mut diag: Vec<T> = Vec::new();
        let mut i: usize = 0;
        while i < x_shape.1
            invariant
                i <= x_shape.1,
                diag@.len() == i,
                forall|k: int| 0 <= k < i ==> #[trigger] diag@[k] == self@.amplitude,
            decreases x_shape.1 - i,
        {
            diag.push(self.amplitude);
            i = i + 1;
        }
        Ok(diag)
    }
}

/// Clones a vector.
fn clone_vec<T: Copy>(vec: &Vec<T>) -> (copy: Vec<T>)
    ensures
        copy@ == vec@,
{
    let mut copy: Vec<T> = Vec::new();
    let mut k: usize = 0;
    while k < vec.len()
        invariant
            k <= vec@.len(),
            copy@.len() == k,
            forall|i: int| 0 <= i < k ==> #[trigger] copy@[i] == vec@[i],
        decreases vec@.len() - k,
    {
        copy.push(vec[k]);
        k = k + 1;
    }
    proof {
        assert(copy@ =~= vec@);
    }
    copy
}

/// The parameters of the kernel are its exponent coefficients, one per
/// dimension, and its squared amplitude.
impl<T: Scalar> Parameterized<(Vec<T>, T)> for RBF<T> {
    fn get_params(&self) -> (params: (Vec<T>, T))
        ensures
            params.0@ == self@.gamma,
            params.1 == self@.amplitude,
    {
        (clone_vec(&self.gamma), self.amplitude)
    }

    fn set_params(&mut self, params: (Vec<T>, T))
        ensures
            final(self)@.gamma == params.0@,
            final(self)@.amplitude == params.1,
    {
        self.gamma = clone_vec(&params.0);
        self.amplitude = params.1
    }

    fn from_params(params: (Vec<T>, T)) -> (kernel: Self)
        ensures
            kernel@.gamma == params.0@,
            kernel@.amplitude == params.1,
    {
        RBF { gamma: clone_vec(&params.0), amplitude: params.1 }
    }
}

/// Swapping the operands of a difference does not change its square.
pub open spec fn squared_difference_is_symmetric<T: Scalar>() -> bool {
    forall|x: T, y: T, d: T, sq: T|
        #![trigger is_minus(x, y, d), is_times(d, d, sq)]
        is_minus(x, y, d) && is_times(d, d, sq) ==> exists|e: T|
            is_minus(y, x, e) && is_times(e, e, sq)
}

/// Where the square of a difference does not depend on the order of its
/// operands, the kernel is symmetric.
pub proof fn lemma_rbf_is_symmetric<T: Scalar>(kernel: &RBF<T>)
    requires
        squared_difference_is_symmetric::<T>(),
    ensures
        is_symmetric(kernel),
{
    assert forall|a: Seq<T>, b: Seq<T>, k: T| #[trigger] kernel.is_cov(a, b, k) implies kernel.is_cov(
        b,
        a,
        k,
    ) by {
        let (terms, s, e) = choose|terms: Seq<T>, s: T, e: T|
            are_rbf_terms(kernel@.gamma, a, b, terms) && is_sum(terms, s) && is_exp(s, e)
                && is_times(e, kernel@.amplitude, k);
        assert forall|i: int| 0 <= i < terms.len() implies is_rbf_term(
            kernel@.gamma[i],
            b[i],
            a[i],
            #[trigger] terms[i],
        ) by {
            let (d, sq) = choose|d: T, sq: T|
                is_minus(a[i], b[i], d) && is_times(d, d, sq) && is_times(
                    sq,
                    kernel@.gamma[i],
                    terms[i],
                );
            let e2 = choose|e2: T| is_minus(b[i], a[i], e2) && is_times(e2, e2, sq);
            assert(is_minus(b[i], a[i], e2) && is_times(e2, e2, sq) && is_times(
                sq,
                kernel@.gamma[i],
                terms[i],
            ));
        }
        assert(are_rbf_terms(kernel@.gamma, b, a, terms) && is_sum(terms, s) && is_exp(s, e)
            && is_times(e, kernel@.amplitude, k));
    }
}

} // verus!
