//! The standard Gaussian process.
//!
//! `f = K*' [K + sI]^-1 y`
//!
//! `cov = K** - K*' [K + sI]^-1 K*`

use crate::gp::errors::GPCompilationError;
use crate::kernels::kernel::{
    is_call, is_call_diagonal, is_call_triangular, shape_of, Kernel, TriangleSide,
};
use crate::linalg::errors::IncompatibleShapeError;
use crate::linalg::matmul::{
    is_tr_matmul, is_tr_matmul_diag, par_tr_matmul, par_tr_matmul_diag,
};
use crate::linalg::matrix::{Matrix, MatrixView};
use crate::linalg::solve::{is_lower_triangular_solve, par_solve_lower_triangular_unchecked};
use crate::linalg::util::{is_diagonal_added, par_add_diagonal_mut_unchecked};
use crate::parallel::par_collect;
use crate::scalar::{is_minus, Scalar};
use vstd::prelude::*;

verus! {

/// A Gaussian process that has not seen data yet: a kernel and the variance of
/// the observation noise.
#[derive(Debug)]
pub struct GP<T, K> {
    kernel: K,
    noise: T,
}

/// `k` is the training covariance of `gp` on `x`: the lower triangle of the
/// kernel matrix, with the noise added to its diagonal.
pub open spec fn is_training_covariance<T: Scalar, K: Kernel<T>>(
    kernel: &K,
    noise: T,
    x: MatrixView<T>,
    k: MatrixView<T>,
) -> bool {
    exists|tri: MatrixView<T>|
        is_call_triangular(kernel, x, TriangleSide::LOWER, tri) && is_diagonal_added(
            tri,
            noise,
            x.ncols as int,
            k,
        )
}

/// The shapes reported when there are not as many targets as training points.
pub open spec fn target_shapes<T>(x: MatrixView<T>, y_len: nat) -> Seq<(usize, usize)> {
    seq![(x.nrows as usize, x.ncols as usize), (y_len as usize, 1usize)]
}

impl<T: Scalar, K: Kernel<T>> GP<T, K> {
    /// The covariance function.
    pub closed spec fn kernel(&self) -> &K {
        &self.kernel
    }

    /// The variance of the observation noise, added to the diagonal of the
    /// training covariance.
    pub closed spec fn noise(&self) -> T {
        self.noise
    }

    /// The shapes reported for training points `x` and `y_len` targets that do
    /// not fit: those of `x` and the targets where their numbers differ, and
    /// else what the kernel reports for `x`.
    pub open spec fn mismatch(&self, x: MatrixView<T>, y_len: nat) -> Seq<(usize, usize)> {
        if x.ncols != y_len {
            target_shapes(x, y_len)
        } else {
            self.kernel().mismatch(shape_of(x), shape_of(x), (x.ncols as usize, x.ncols as usize))
        }
    }

    /// A process with the given kernel and noise variance.
    pub fn new(kernel: K, noise: T) -> (gp: Self)
        ensures
            *gp.kernel() == kernel,
            gp.noise() == noise,
    {
        GP { kernel, noise }
    }

    /// Builds the matrix that is to be factored: the lower triangle of the
    /// kernel matrix of `x`, with the noise added to the diagonal. Fails when
    /// `y` does not have one target per column of `x`, or when `x` does not
    /// have one row per dimension of the kernel.
    pub fn training_covariance(&self, x: &Matrix<T>, y: &Vec<T>) -> (res: Result<
        Matrix<T>,
        GPCompilationError,
    >)
        requires
            x@.ncols * x@.ncols <= usize::MAX,
        ensures
            res is Ok <==> x@.ncols == y@.len() && x@.nrows == self.kernel().dims(),
            res is Ok ==> is_training_covariance(self.kernel(), self.noise(), x@, res->Ok_0@),
            res is Err ==> res->Err_0 is IncompatibleShapeError
                && res->Err_0->IncompatibleShapeError_0.shapes@ == self.mismatch(x@, y@.len()),
    {
        let x_shape = x.shape();
        if x_shape.1 != y.len() {
            let mut shapes: Vec<(usize, usize)> = Vec::new();
            shapes.push(x_shape);
            shapes.push((y.len(), 1));
            proof {
                assert(shapes@ =~= target_shapes(x@, y@.len()));
            }
            return Err(
                GPCompilationError::IncompatibleShapeError(IncompatibleShapeError { shapes }),
            );
        }
        let mut kxx = match self.kernel.call_triangular(x, TriangleSide::LOWER) {
            Ok(k) => k,
            Err(e) => {
                return Err(GPCompilationError::IncompatibleShapeError(e));
            },
        };
        let ghost tri = kxx@;
        par_add_diagonal_mut_unchecked(&mut kxx, &self.noise);
        proof {
            assert(is_call_triangular(&self.kernel, x@, TriangleSide::LOWER, tri));
        }
        Ok(kxx)
    }

    /// Compiles this process on the training points `x`, one per column, and
    /// their targets `y`. Consumes the process and `x`.
    ///
    /// `factor` is the Cholesky routine: handed the training covariance and the
    /// targets, it returns the lower-triangular factor `L` and the weights
    /// `alpha` that solve `L L' alpha = y`, or nothing when the matrix is not
    /// positive-definite. It reads the lower triangle only.
    pub fn compile<F: FnOnce(Matrix<T>, &Vec<T>) -> Option<(Matrix<T>, Vec<T>)>>(
        self,
        x: Matrix<T>,
        y: &Vec<T>,
        factor: F,
    ) -> (res: Result<CompiledGP<T, K>, GPCompilationError>)
        requires
            x@.ncols * x@.ncols <= usize::MAX,
            forall|k: Matrix<T>|
                is_training_covariance(self.kernel(), self.noise(), x@, k@)
                    ==> #[trigger] factor.requires((k, y)),
            forall|k: Matrix<T>, l: Matrix<T>, a: Vec<T>| #[trigger]
                factor.ensures((k, y), Some((l, a))) ==> l@.nrows == k@.nrows && l@.ncols
                    == k@.ncols && a@.len() == y@.len(),
        ensures
            x@.ncols != y@.len() || x@.nrows != self.kernel().dims() ==> res is Err
                && res->Err_0 is IncompatibleShapeError
                && res->Err_0->IncompatibleShapeError_0.shapes@ == self.mismatch(x@, y@.len()),
            x@.ncols == y@.len() && x@.nrows == self.kernel().dims() ==> exists|
                k: Matrix<T>,
                out: Option<(Matrix<T>, Vec<T>)>,
            |
                is_compiled(self, x@, y, factor, k, out, res),
    {
        let kxx = match self.training_covariance(&x, y) {
            Ok(k) => k,
            Err(e) => {
                return Err(e);
            },
        };
        let ghost k = kxx;
        let out = factor(kxx, y);
        let ghost factorization = out;
        proof {
            if factorization is Some {
                let f = factorization->Some_0;
                assert(factor.ensures((k, y), Some((f.0, f.1))));
            }
        }
        let res = self.assemble(x, out);
        proof {
            assert(is_compiled(self, x@, y, factor, k, factorization, res));
        }
        res
    }

    /// Finishes the compilation with what the Cholesky routine returned for the
    /// training covariance of `x`: without a factor the matrix was not
    /// positive-definite, and with one the compiled process holds the factor,
    /// the weights, the kernel and `x`.
    pub fn assemble(self, x: Matrix<T>, factorization: Option<(Matrix<T>, Vec<T>)>) -> (res: Result<
        CompiledGP<T, K>,
        GPCompilationError,
    >)
        requires
            x@.nrows == self.kernel().dims(),
            factorization matches Some(f) ==> f.0@.nrows == x@.ncols && f.0@.ncols == x@.ncols
                && f.1@.len() == x@.ncols,
        ensures
            is_assembled(self, x@, factorization, res),
    {
        let n = x.ncols();
        match factorization {
            None => Err(GPCompilationError::NonPositiveDefiniteError),
            Some((l, a)) => {
                let alpha = Matrix::from_vec(n, 1, a);
                Ok(CompiledGP { cholesky: l, alpha, kernel: self.kernel, x })
            },
        }
    }
}

/// `res` is what assembling `gp`, the training points `x` and the outcome of the
/// factorization returns: failure where there is no factor, and else a process
/// that holds the factor, the weights, the kernel and the training points.
pub open spec fn is_assembled<T: Scalar, K: Kernel<T>>(
    gp: GP<T, K>,
    x: MatrixView<T>,
    factorization: Option<(Matrix<T>, Vec<T>)>,
    res: Result<CompiledGP<T, K>, GPCompilationError>,
) -> bool {
    match factorization {
        None => res is Err && res->Err_0 is NonPositiveDefiniteError,
        Some((l, a)) => {
            &&& res is Ok
            &&& res->Ok_0.cholesky() == l@
            &&& res->Ok_0.alpha() == a@
            &&& *res->Ok_0.kernel() == *gp.kernel()
            &&& res->Ok_0.x() == x
        },
    }
}

/// `res` is what compiling `gp` on `x` and `y` returns when the shapes fit: `k`
/// is the training covariance, `out` is what `factor` returned for it, and `res`
/// is assembled from `out`.
pub open spec fn is_compiled<
    T: Scalar,
    K: Kernel<T>,
    F: FnOnce(Matrix<T>, &Vec<T>) -> Option<(Matrix<T>, Vec<T>)>,
>(
    gp: GP<T, K>,
    x: MatrixView<T>,
    y: &Vec<T>,
    factor: F,
    k: Matrix<T>,
    out: Option<(Matrix<T>, Vec<T>)>,
    res: Result<CompiledGP<T, K>, GPCompilationError>,
) -> bool {
    &&& is_training_covariance(gp.kernel(), gp.noise(), x, k@)
    &&& factor.ensures((k, y), out)
    &&& is_assembled(gp, x, out, res)
}

/// A Gaussian process fitted to training data.
#[derive(Debug)]
pub struct CompiledGP<T: Scalar, K: Kernel<T>> {
    /// The Cholesky factor of (K + noise * I)
    cholesky: Matrix<T>,
    /// The weights that give the mean, as one column
    alpha: Matrix<T>,
    /// The kernel
    kernel: K,
    /// The input data set
    x: Matrix<T>,
}

/// A vector as a matrix of one column.
pub open spec fn column<T>(v: Seq<T>) -> MatrixView<T> {
    MatrixView { nrows: v.len(), ncols: 1, data: v }
}

/// `r` is `a` with the entries of `b` subtracted, one by one; where `b` ends
/// first, the rest of `a` stays.
pub open spec fn is_difference<T: Scalar>(a: Seq<T>, b: Seq<T>, r: Seq<T>) -> bool {
    &&& r.len() == a.len()
    &&& forall|i: int|
        0 <= i < a.len() ==> if i < b.len() {
            is_minus(a[i], b[i], #[trigger] r[i])
        } else {
            #[trigger] r[i] == a[i]
        }
}

/// `f` is the posterior mean at the columns of `xq`: the cross-covariance of the
/// training points with `xq`, transposed, times the weights.
pub open spec fn is_mean<T: Scalar, K: Kernel<T>>(
    kernel: &K,
    x: MatrixView<T>,
    alpha: Seq<T>,
    xq: MatrixView<T>,
    f: Seq<T>,
) -> bool {
    exists|kq: MatrixView<T>| is_call(kernel, x, xq, kq) && is_tr_matmul(kq, column(alpha), f)
}

/// `v` is the posterior variance at the columns of `xq`, given the
/// cross-covariance `kq` of the training points with `xq`: the prior variance
/// of each query point, less the squared length of the matching column of
/// `L^-1 kq`.
pub open spec fn is_var_of<T: Scalar, K: Kernel<T>>(
    kernel: &K,
    l: MatrixView<T>,
    xq: MatrixView<T>,
    kq: MatrixView<T>,
    v: Seq<T>,
) -> bool {
    exists|prior: Seq<T>, beta: MatrixView<T>, reduction: Seq<T>|
        is_call_diagonal(kernel, xq, prior) && is_lower_triangular_solve(l, kq, beta)
            && is_tr_matmul_diag(beta, beta, reduction) && is_difference(prior, reduction, v)
}

/// `v` is the posterior variance at the columns of `xq`.
pub open spec fn is_var<T: Scalar, K: Kernel<T>>(
    kernel: &K,
    x: MatrixView<T>,
    l: MatrixView<T>,
    xq: MatrixView<T>,
    v: Seq<T>,
) -> bool {
    exists|kq: MatrixView<T>| is_call(kernel, x, xq, kq) && is_var_of(kernel, l, xq, kq, v)
}

/// `v` is the full posterior covariance of the columns of `xq`, given the
/// cross-covariance `kq` of the training points with `xq`: the prior covariance
/// of the query points, less the product of `L^-1 kq` with itself, transposed
/// on the left.
pub open spec fn is_cov_of<T: Scalar, K: Kernel<T>>(
    kernel: &K,
    l: MatrixView<T>,
    xq: MatrixView<T>,
    kq: MatrixView<T>,
    v: MatrixView<T>,
) -> bool {
    exists|prior: MatrixView<T>, beta: MatrixView<T>, reduction: Seq<T>|
        is_call(kernel, xq, xq, prior) && is_lower_triangular_solve(l, kq, beta) && is_tr_matmul(
            beta,
            beta,
            reduction,
        ) && is_difference(prior.data, reduction, v.data) && v.nrows == xq.ncols && v.ncols
            == xq.ncols
}

/// `v` is the full posterior covariance of the columns of `xq`.
pub open spec fn is_cov<T: Scalar, K: Kernel<T>>(
    kernel: &K,
    x: MatrixView<T>,
    l: MatrixView<T>,
    xq: MatrixView<T>,
    v: MatrixView<T>,
) -> bool {
    exists|kq: MatrixView<T>| is_call(kernel, x, xq, kq) && is_cov_of(kernel, l, xq, kq, v)
}

/// Subtracts the entries of `r` from those of `l`, entry by entry and in
/// parallel.
fn subtract_each<T: Scalar>(l: &mut Vec<T>, r: &Vec<T>)
    ensures
        is_difference(old(l)@, r@, final(l)@),
{
    let n: usize = l.len();
    let minuend: &Vec<T> = &*l;
    let entry = |i: usize| -> (d: T)
        requires
            i < n,
        ensures
            if i < r@.len() {
                is_minus(minuend@[i as int], r@[i as int], d)
            } else {
                d == minuend@[i as int]
            },
        {
            if i < r.len() {
                minuend[i].minus(r[i])
            } else {
                minuend[i]
            }
        };
    let out = par_collect(n, entry);
    proof {
        assert forall|i: int| 0 <= i < l@.len() implies if i < r@.len() {
            is_minus(l@[i], r@[i], #[trigger] out@[i])
        } else {
            #[trigger] out@[i] == l@[i]
        } by {
            assert(entry.ensures((i as usize,), out@[i]));
        }
    }
    *l = out;
}

impl<T: Scalar, K: Kernel<T>> CompiledGP<T, K> {
    #[verifier::type_invariant]
    spec fn shapes_agree(self) -> bool {
        &&& self.cholesky@.nrows == self.x@.ncols
        &&& self.cholesky@.ncols == self.x@.ncols
        &&& self.alpha@.nrows == self.x@.ncols
        &&& self.alpha@.ncols == 1
        &&& self.x@.nrows == self.kernel.dims()
    }

    /// The Cholesky factor of the training covariance.
    pub closed spec fn cholesky(&self) -> MatrixView<T> {
        self.cholesky@
    }

    /// The weights that give the mean.
    pub closed spec fn alpha(&self) -> Seq<T> {
        self.alpha@.data
    }

    /// The covariance function.
    pub closed spec fn kernel(&self) -> &K {
        &self.kernel
    }

    /// The training points.
    pub closed spec fn x(&self) -> MatrixView<T> {
        self.x@
    }

    /// The shapes reported for query points `xq` that do not fit the kernel.
    pub open spec fn mismatch(&self, xq: MatrixView<T>) -> Seq<(usize, usize)> {
        self.kernel().mismatch(
            shape_of(self.x()),
            shape_of(xq),
            (self.x().ncols as usize, xq.ncols as usize),
        )
    }

    /// The training points, one per column.
    pub fn training_points(&self) -> (x: &Matrix<T>)
        ensures
            x@ == self.x(),
    {
        &self.x
    }

    /// Computes the mean and the variance at the columns of `x`.
    pub fn call(&self, x: &Matrix<T>) -> (res: Result<(Vec<T>, Vec<T>), IncompatibleShapeError>)
        requires
            self.x().ncols * x@.ncols <= usize::MAX,
        ensures
            res is Ok <==> x@.nrows == self.kernel().dims(),
            res is Err ==> res->Err_0.shapes@ == self.mismatch(x@),
            res is Ok ==> is_mean(self.kernel(), self.x(), self.alpha(), x@, res->Ok_0.0@)
                && is_var(self.kernel(), self.x(), self.cholesky(), x@, res->Ok_0.1@),
    {
        proof {
            use_type_invariant(self);
        }
        let k_x_xp = match self.kernel.call(&self.x, x) {
            Ok(k) => k,
            Err(e) => {
                return Err(e);
            },
        };
        proof {
            assert(is_call(&self.kernel, self.x@, x@, k_x_xp@));
        }
        let mean = match self.mean_precomputed(&k_x_xp) {
            Ok(m) => m,
            Err(e) => {
                return Err(e);
            },
        };
        let var = match self.var_precomputed(x, &k_x_xp) {
            Ok(v) => v,
            Err(e) => {
                return Err(e);
            },
        };
        Ok((mean, var))
    }

    /// Computes the mean at the columns of `x`.
    ///
    /// `f = K*' [K + sI]^-1 y`
    pub fn mean(&self, x: &Matrix<T>) -> (res: Result<Vec<T>, IncompatibleShapeError>)
        requires
            self.x().ncols * x@.ncols <= usize::MAX,
        ensures
            res is Ok <==> x@.nrows == self.kernel().dims(),
            res is Err ==> res->Err_0.shapes@ == self.mismatch(x@),
            res is Ok ==> is_mean(self.kernel(), self.x(), self.alpha(), x@, res->Ok_0@),
    {
        proof {
            use_type_invariant(self);
        }
        let k_x_xp = match self.kernel.call(&self.x, x) {
            Ok(k) => k,
            Err(e) => {
                return Err(e);
            },
        };
        proof {
            assert(is_call(&self.kernel, self.x@, x@, k_x_xp@));
        }
        self.mean_precomputed(&k_x_xp)
    }

    /// Finds the mean given a precomputed K*.
    fn mean_precomputed(&self, k_x_xp: &Matrix<T>) -> (res: Result<
        Vec<T>,
        IncompatibleShapeError,
    >)
        requires
            k_x_xp@.nrows == self.x().ncols,
        ensures
            res is Ok,
            is_tr_matmul(k_x_xp@, column(self.alpha()), res->Ok_0@),
    {
        proof {
            use_type_invariant(self);
        }
        let ghost a = self.alpha@;
        let shape = self.alpha.shape();
        let cols = k_x_xp.ncols();
        proof {
            assert(a.nrows * a.ncols == a.nrows) by (nonlinear_arith)
                requires
                    a.ncols == 1,
            ;
            assert(a == column(self.alpha()));
            assert(k_x_xp@.ncols * a.ncols == k_x_xp@.ncols) by (nonlinear_arith)
                requires
                    a.ncols == 1,
            ;
        }
        par_tr_matmul(k_x_xp, &self.alpha)
    }

    /// Computes just the variance of each column of `x`.
    pub fn var(&self, x: &Matrix<T>) -> (res: Result<Vec<T>, IncompatibleShapeError>)
        requires
            self.x().ncols * x@.ncols <= usize::MAX,
        ensures
            res is Ok <==> x@.nrows == self.kernel().dims(),
            res is Err ==> res->Err_0.shapes@ == self.mismatch(x@),
            res is Ok ==> is_var(self.kernel(), self.x(), self.cholesky(), x@, res->Ok_0@),
    {
        proof {
            use_type_invariant(self);
        }
        let k_x_xp = match self.kernel.call(&self.x, x) {
            Ok(k) => k,
            Err(e) => {
                return Err(e);
            },
        };
        proof {
            assert(is_call(&self.kernel, self.x@, x@, k_x_xp@));
        }
        self.var_precomputed(x, &k_x_xp)
    }

    /// Finds the variance given a precomputed K*.
    fn var_precomputed(&self, x: &Matrix<T>, k_x_xp: &Matrix<T>) -> (res: Result<
        Vec<T>,
        IncompatibleShapeError,
    >)
        requires
            k_x_xp@.nrows == self.x().ncols,
            k_x_xp@.ncols == x@.ncols,
        ensures
            res is Ok <==> x@.nrows == self.kernel().dims(),
            res is Ok ==> is_var_of(self.kernel(), self.cholesky(), x@, k_x_xp@, res->Ok_0@),
    {
        proof {
            use_type_invariant(self);
        }
        let mut k_xp_xp = match self.kernel.call_diagonal(x) {
            Ok(k) => k,
            Err(e) => {
                return Err(e);
            },
        };
        let ghost prior = k_xp_xp@;
        let fact = par_solve_lower_triangular_unchecked(&self.cholesky, k_x_xp);
        let zipped = match par_tr_matmul_diag(&fact, &fact) {
            Ok(z) => z,
            Err(e) => {
                return Err(e);
            },
        };
        subtract_each(&mut k_xp_xp, &zipped);
        proof {
            assert(is_call_diagonal(&self.kernel, x@, prior));
            assert(is_call_diagonal(&self.kernel, x@, prior) && is_lower_triangular_solve(
                self.cholesky@,
                k_x_xp@,
                fact@,
            ) && is_tr_matmul_diag(fact@, fact@, zipped@) && is_difference(
                prior,
                zipped@,
                k_xp_xp@,
            ));
        }
        Ok(k_xp_xp)
    }

    /// Computes the full covariance matrix of the columns of `x`.
    ///
    /// `V = K** - K*' [K + sI]^-1 K*`
    pub fn cov(&self, x: &Matrix<T>) -> (res: Result<Matrix<T>, IncompatibleShapeError>)
        requires
            self.x().ncols * x@.ncols <= usize::MAX,
            x@.ncols * x@.ncols <= usize::MAX,
        ensures
            res is Ok <==> x@.nrows == self.kernel().dims(),
            res is Err ==> res->Err_0.shapes@ == self.mismatch(x@),
            res is Ok ==> is_cov(self.kernel(), self.x(), self.cholesky(), x@, res->Ok_0@),
    {
        proof {
            use_type_invariant(self);
        }
        let k_x_xp = match self.kernel.call(&self.x, x) {
            Ok(k) => k,
            Err(e) => {
                return Err(e);
            },
        };
        proof {
            assert(is_call(&self.kernel, self.x@, x@, k_x_xp@));
        }
        self.cov_precomputed(x, &k_x_xp)
    }

    /// Finds the covariance matrix given a precomputed K*.
    fn cov_precomputed(&self, x: &Matrix<T>, k_x_xp: &Matrix<T>) -> (res: Result<
        Matrix<T>,
        IncompatibleShapeError,
    >)
        requires
            k_x_xp@.nrows == self.x().ncols,
            k_x_xp@.ncols == x@.ncols,
            x@.ncols * x@.ncols <= usize::MAX,
        ensures
            res is Ok <==> x@.nrows == self.kernel().dims(),
            res is Ok ==> is_cov_of(self.kernel(), self.cholesky(), x@, k_x_xp@, res->Ok_0@),
    {
        proof {
            use_type_invariant(self);
        }
        let k_xp_xp = match self.kernel.call(x, x) {
            Ok(k) => k,
            Err(e) => {
                return Err(e);
            },
        };
        let ghost prior = k_xp_xp@;
        let fact = par_solve_lower_triangular_unchecked(&self.cholesky, k_x_xp);
        let zipped = match par_tr_matmul(&fact, &fact) {
            Ok(z) => z,
            Err(e) => {
                return Err(e);
            },
        };
        let (nrows, ncols) = k_xp_xp.shape();
        let mut data = k_xp_xp.into_vec();
        subtract_each(&mut data, &zipped);
        let v = Matrix::from_vec(nrows, ncols, data);
        proof {
            assert(is_call(&self.kernel, x@, x@, prior));
            assert(is_call(&self.kernel, x@, x@, prior) && is_lower_triangular_solve(
                self.cholesky@,
                k_x_xp@,
                fact@,
            ) && is_tr_matmul(fact@, fact@, zipped@) && is_difference(prior.data, zipped@, v@.data)
                && v@.nrows == x@.ncols && v@.ncols == x@.ncols);
        }
        Ok(v)
    }
}

} // verus!
