//! Matrix products: plain, with the left operand transposed, and the diagonal of
//! the latter alone.

use crate::indexing::index_to_2d;
use crate::linalg::errors::IncompatibleShapeError;
use crate::linalg::matrix::{
    lemma_offset_in_bounds, lemma_offset_split, lemma_transpose_at, Matrix, MatrixView,
};
use crate::parallel::par_collect;
use crate::scalar::{
    are_products, is_deterministic, is_dot, is_sum, lemma_dot_is_unique, sum_trace, Scalar,
};
use vstd::prelude::*;

verus! {

/// `out` is a product `lhs * rhs`, stored column-major: the entry in row `i` and
/// column `j` is a dot product of row `i` of `lhs` with column `j` of `rhs`.
pub open spec fn is_matmul<T: Scalar>(lhs: MatrixView<T>, rhs: MatrixView<T>, out: Seq<T>) -> bool {
    let v = MatrixView { nrows: lhs.nrows, ncols: rhs.ncols, data: out };
    &&& v.wf()
    &&& forall|i: int, j: int|
        0 <= i < lhs.nrows && 0 <= j < rhs.ncols ==> is_dot(
            lhs.row(i),
            rhs.col(j),
            #[trigger] v.at(i, j),
        )
}

/// `out` is a product of the transpose of `lhs` with `rhs`, stored column-major:
/// the entry in row `i` and column `j` is a dot product of column `i` of `lhs`
/// with column `j` of `rhs`.
pub open spec fn is_tr_matmul<T: Scalar>(
    lhs: MatrixView<T>,
    rhs: MatrixView<T>,
    out: Seq<T>,
) -> bool {
    let v = MatrixView { nrows: lhs.ncols, ncols: rhs.ncols, data: out };
    &&& v.wf()
    &&& forall|i: int, j: int|
        0 <= i < lhs.ncols && 0 <= j < rhs.ncols ==> is_dot(
            lhs.col(i),
            rhs.col(j),
            #[trigger] v.at(i, j),
        )
}

/// The number of diagonal entries of an `nrows x ncols` matrix.
pub open spec fn diag_len(nrows: nat, ncols: nat) -> nat {
    if nrows <= ncols {
        nrows
    } else {
        ncols
    }
}

/// `out` is the diagonal of a product of the transpose of `lhs` with `rhs`:
/// entry `c` is a dot product of column `c` of `lhs` with column `c` of `rhs`.
pub open spec fn is_tr_matmul_diag<T: Scalar>(
    lhs: MatrixView<T>,
    rhs: MatrixView<T>,
    out: Seq<T>,
) -> bool {
    &&& out.len() == diag_len(lhs.ncols, rhs.ncols)
    &&& forall|c: int| 0 <= c < out.len() ==> is_dot(lhs.col(c), rhs.col(c), #[trigger] out[c])
}

/// `terms` are products that `op` may return for the pairs `((li, k), (k, rj))`,
/// `k` running over the `n` positions of the shared axis.
pub open spec fn cell_terms<T, O: Fn((usize, usize), (usize, usize)) -> T>(
    op: &O,
    li: usize,
    rj: usize,
    n: usize,
    terms: Seq<T>,
) -> bool {
    &&& terms.len() == n
    &&& forall|k: usize| k < n ==> op.ensures(((li, k), (k, rj)), #[trigger] terms[k as int])
}

/// `r` is a value of the output cell `(li, rj)`: a left-to-right sum of what `op`
/// returns along the shared axis.
pub open spec fn is_cell<T: Scalar, O: Fn((usize, usize), (usize, usize)) -> T>(
    op: &O,
    li: usize,
    rj: usize,
    n: usize,
    r: T,
) -> bool {
    exists|terms: Seq<T>| cell_terms(op, li, rj, n, terms) && is_sum(terms, r)
}

/// Computes one output cell: applies `op` along the shared axis and sums the
/// results in index order.
fn reduce_cell<T: Scalar, O: Fn((usize, usize), (usize, usize)) -> T>(
    op: &O,
    li: usize,
    rj: usize,
    n: usize,
) -> (r: T)
    requires
        forall|k: usize| k < n ==> op.requires(((li, k), (k, rj))),
    ensures
        is_cell(op, li, rj, n, r),
{
    let mut acc = T::zero();
    let ghost mut terms: Seq<T> = Seq::empty();
    let ghost mut partial: Seq<T> = seq![acc];
    let mut k: usize = 0;
    while k < n
        invariant
            k <= n,
            forall|k: usize| k < n ==> op.requires(((li, k), (k, rj))),
            cell_terms(op, li, rj, k, terms),
            sum_trace(terms, partial, acc),
        decreases n - k,
    {
        let p = op((li, k), (k, rj));
        acc = acc.plus(p);
        proof {
            terms = terms.push(p);
            partial = partial.push(acc);
        }
        k = k + 1;
    }
    proof {
        assert(is_sum(terms, acc));
        assert(cell_terms(op, li, rj, n, terms));
    }
    acc
}

/// The shorter of the two lengths along the shared axis.
fn shared_len(l_shape: (usize, usize), r_shape: (usize, usize)) -> (n: usize)
    ensures
        n == diag_len(r_shape.0 as nat, l_shape.1 as nat),
{
    if r_shape.0 <= l_shape.1 {
        r_shape.0
    } else {
        l_shape.1
    }
}

/// Builds the `l_shape.0 x r_shape.1` product column by column. Entry `(li, rj)`
/// is the sum over the shared axis of `op((li, k), (k, rj))`.
pub fn matmul_wrapper<T: Scalar, O: Fn((usize, usize), (usize, usize)) -> T + Sync>(
    l_shape: (usize, usize),
    r_shape: (usize, usize),
    op: &O,
) -> (out: Vec<T>)
    requires
        l_shape.0 * r_shape.1 <= usize::MAX,
        forall|li: usize, k: usize, rj: usize|
            li < l_shape.0 && k < diag_len(r_shape.0 as nat, l_shape.1 as nat) && rj < r_shape.1
                ==> #[trigger] op.requires(((li, k), (k, rj))),
    ensures
        out@.len() == l_shape.0 * r_shape.1,
        forall|li: usize, rj: usize|
            li < l_shape.0 && rj < r_shape.1 ==> is_cell(
                op,
                li,
                rj,
                diag_len(r_shape.0 as nat, l_shape.1 as nat) as usize,
                #[trigger] (MatrixView {
                    nrows: l_shape.0 as nat,
                    ncols: r_shape.1 as nat,
                    data: out@,
                }).at(li as int, rj as int),
            ),
{
    let n = shared_len(l_shape, r_shape);
    let nrows = l_shape.0;
    let total: usize = l_shape.0 * r_shape.1;
    let cell = |index: usize| -> (r: T)
        requires
            index < total,
        ensures
            is_cell(op, (index % nrows) as usize, (index / nrows) as usize, n, r),
        {
            proof {
                if nrows == 0 {
                    assert(nrows * r_shape.1 == 0) by (nonlinear_arith)
                        requires
                            nrows == 0,
                    ;
                }
                lemma_offset_split(index as int, nrows as int, r_shape.1 as int);
            }
            let (rj, li) = index_to_2d(index, nrows);
            reduce_cell(op, li, rj, n)
        };
    let out = par_collect(total, cell);
    proof {
        let v = MatrixView { nrows: l_shape.0 as nat, ncols: r_shape.1 as nat, data: out@ };
        assert forall|li: usize, rj: usize| li < l_shape.0 && rj < r_shape.1 implies is_cell(
            op,
            li,
            rj,
            n,
            #[trigger] v.at(li as int, rj as int),
        ) by {
            let index = rj * nrows + li;
            lemma_offset_in_bounds(li as int, rj as int, nrows as int, r_shape.1 as int);
            vstd::arithmetic::div_mod::lemma_fundamental_div_mod_converse(
                index,
                nrows as int,
                rj as int,
                li as int,
            );
            assert(cell.ensures((index as usize,), out@[index]));
        }
    }
    out
}

/// Builds only the diagonal of the product: entry `c` is the sum over the shared
/// axis of `op((c, k), (k, c))`.
pub fn matmul_wrapper_diag<T: Scalar, O: Fn((usize, usize), (usize, usize)) -> T + Sync>(
    l_shape: (usize, usize),
    r_shape: (usize, usize),
    op: &O,
) -> (out: Vec<T>)
    requires
        forall|c: usize, k: usize|
            c < diag_len(l_shape.0 as nat, r_shape.1 as nat) && k < diag_len(
                r_shape.0 as nat,
                l_shape.1 as nat,
            ) ==> #[trigger] op.requires(((c, k), (k, c))),
    ensures
        out@.len() == diag_len(l_shape.0 as nat, r_shape.1 as nat),
        forall|c: usize|
            c < out@.len() ==> is_cell(
                op,
                c,
                c,
                diag_len(r_shape.0 as nat, l_shape.1 as nat) as usize,
                #[trigger] out@[c as int],
            ),
{
    let n = shared_len(l_shape, r_shape);
    let len = if l_shape.0 <= r_shape.1 {
        l_shape.0
    } else {
        r_shape.1
    };
    let cell = |c: usize| -> (r: T)
        requires
            c < len,
        ensures
            is_cell(op, c, c, n, r),
        { reduce_cell(op, c, c, n) };
    par_collect(len, cell)
}

/// A cell that sums the products of paired entries of `u` and `v` is a dot
/// product of `u` and `v`.
proof fn lemma_cell_is_dot<T: Scalar, O: Fn((usize, usize), (usize, usize)) -> T>(
    op: &O,
    li: usize,
    rj: usize,
    n: usize,
    u: Seq<T>,
    v: Seq<T>,
    r: T,
)
    requires
        is_cell(op, li, rj, n, r),
        n == diag_len(v.len(), u.len()),
        forall|k: usize, p: T|
            k < n && op.ensures(((li, k), (k, rj)), p) ==> crate::scalar::is_times(
                u[k as int],
                v[k as int],
                p,
            ),
    ensures
        is_dot(u, v, r),
{
    let terms = choose|terms: Seq<T>| cell_terms(op, li, rj, n, terms) && is_sum(terms, r);
    assert forall|k: int| 0 <= k < terms.len() implies crate::scalar::is_times(
        u[k],
        v[k],
        #[trigger] terms[k],
    ) by {
        let ku = k as usize;
        assert(op.ensures(((li, ku), (ku, rj)), terms[ku as int]));
    }
    assert(are_products(u, v, terms));
}

/// The shape error of two operands, in the order given.
fn shape_error(l_shape: (usize, usize), r_shape: (usize, usize)) -> (e: IncompatibleShapeError)
    ensures
        e.shapes@ == seq![l_shape, r_shape],
{
    let mut shapes: Vec<(usize, usize)> = Vec::new();
    shapes.push(l_shape);
    shapes.push(r_shape);
    proof {
        assert(shapes@ =~= seq![l_shape, r_shape]);
    }
    IncompatibleShapeError { shapes }
}

/// Multiplies `lhs` by `rhs` and returns the product as a column-major buffer of
/// `lhs.nrows() * rhs.ncols()` entries. The operands fit when `lhs` has as many
/// columns as `rhs` has rows; otherwise the error carries both shapes.
pub fn par_matmul<T: Scalar>(lhs: &Matrix<T>, rhs: &Matrix<T>) -> (res: Result<
    Vec<T>,
    IncompatibleShapeError,
>)
    requires
        lhs@.ncols == rhs@.nrows ==> lhs@.nrows * rhs@.ncols <= usize::MAX,
    ensures
        lhs@.ncols == rhs@.nrows ==> res is Ok && is_matmul(lhs@, rhs@, res->Ok_0@),
        lhs@.ncols != rhs@.nrows ==> res is Err && res->Err_0.shapes@ == seq![
            (lhs@.nrows as usize, lhs@.ncols as usize),
            (rhs@.nrows as usize, rhs@.ncols as usize),
        ],
{
    let l_shape = lhs.shape();
    let r_shape = rhs.shape();
    if l_shape.1 != r_shape.0 {
        return Err(shape_error(l_shape, r_shape));
    }
    let op = |l: (usize, usize), r: (usize, usize)| -> (p: T)
        requires
            l.0 < lhs@.nrows,
            l.1 < lhs@.ncols,
            r.0 < rhs@.nrows,
            r.1 < rhs@.ncols,
        ensures
            crate::scalar::is_times(
                lhs@.at(l.0 as int, l.1 as int),
                rhs@.at(r.0 as int, r.1 as int),
                p,
            ),
        { (*lhs.get(l.0, l.1)).times(*rhs.get(r.0, r.1)) };
    let out = matmul_wrapper(l_shape, r_shape, &op);
    proof {
        let v = MatrixView { nrows: lhs@.nrows, ncols: rhs@.ncols, data: out@ };
        assert forall|i: int, j: int| 0 <= i < lhs@.nrows && 0 <= j < rhs@.ncols implies is_dot(
            lhs@.row(i),
            rhs@.col(j),
            #[trigger] v.at(i, j),
        ) by {
            let li = i as usize;
            let rj = j as usize;
            let w = MatrixView { nrows: l_shape.0 as nat, ncols: r_shape.1 as nat, data: out@ };
            assert(is_cell(&op, li, rj, l_shape.1, w.at(li as int, rj as int)));
            lemma_cell_is_dot(&op, li, rj, l_shape.1, lhs@.row(i), rhs@.col(j), v.at(i, j));
        }
    }
    Ok(out)
}

/// Multiplies the transpose of `lhs` by `rhs` without forming the transpose. The
/// product has `lhs.ncols() * rhs.ncols()` entries, column-major. The operands fit
/// when both have the same number of rows; otherwise the error carries the shape
/// of the transposed `lhs` and the shape of `rhs`.
pub fn par_tr_matmul<T: Scalar>(lhs: &Matrix<T>, rhs: &Matrix<T>) -> (res: Result<
    Vec<T>,
    IncompatibleShapeError,
>)
    requires
        lhs@.nrows == rhs@.nrows ==> lhs@.ncols * rhs@.ncols <= usize::MAX,
    ensures
        lhs@.nrows == rhs@.nrows ==> res is Ok && is_tr_matmul(lhs@, rhs@, res->Ok_0@),
        lhs@.nrows != rhs@.nrows ==> res is Err && res->Err_0.shapes@ == seq![
            (lhs@.ncols as usize, lhs@.nrows as usize),
            (rhs@.nrows as usize, rhs@.ncols as usize),
        ],
{
    let l_shape = (lhs.shape().1, lhs.shape().0);
    let r_shape = rhs.shape();
    if l_shape.1 != r_shape.0 {
        return Err(shape_error(l_shape, r_shape));
    }
    let op = |l: (usize, usize), r: (usize, usize)| -> (p: T)
        requires
            l.1 < lhs@.nrows,
            l.0 < lhs@.ncols,
            r.0 < rhs@.nrows,
            r.1 < rhs@.ncols,
        ensures
            crate::scalar::is_times(
                lhs@.at(l.1 as int, l.0 as int),
                rhs@.at(r.0 as int, r.1 as int),
                p,
            ),
        { (*lhs.get(l.1, l.0)).times(*rhs.get(r.0, r.1)) };
    let out = matmul_wrapper(l_shape, r_shape, &op);
    proof {
        let v = MatrixView { nrows: lhs@.ncols, ncols: rhs@.ncols, data: out@ };
        assert forall|i: int, j: int| 0 <= i < lhs@.ncols && 0 <= j < rhs@.ncols implies is_dot(
            lhs@.col(i),
            rhs@.col(j),
            #[trigger] v.at(i, j),
        ) by {
            let li = i as usize;
            let rj = j as usize;
            let w = MatrixView { nrows: l_shape.0 as nat, ncols: r_shape.1 as nat, data: out@ };
            assert(is_cell(&op, li, rj, l_shape.1, w.at(li as int, rj as int)));
            lemma_cell_is_dot(&op, li, rj, l_shape.1, lhs@.col(i), rhs@.col(j), v.at(i, j));
        }
    }
    Ok(out)
}

/// Computes only the diagonal of the product of the transpose of `lhs` with
/// `rhs`: one dot product of matching columns per entry, as many as the shorter
/// of the two column counts. The operands fit when both have the same number of
/// rows; otherwise the error carries the shape of the transposed `lhs` and the
/// shape of `rhs`.
pub fn par_tr_matmul_diag<T: Scalar>(lhs: &Matrix<T>, rhs: &Matrix<T>) -> (res: Result<
    Vec<T>,
    IncompatibleShapeError,
>)
    ensures
        lhs@.nrows == rhs@.nrows ==> res is Ok && is_tr_matmul_diag(lhs@, rhs@, res->Ok_0@),
        lhs@.nrows != rhs@.nrows ==> res is Err && res->Err_0.shapes@ == seq![
            (lhs@.ncols as usize, lhs@.nrows as usize),
            (rhs@.nrows as usize, rhs@.ncols as usize),
        ],
{
    let l_shape = (lhs.shape().1, lhs.shape().0);
    let r_shape = rhs.shape();
    if l_shape.1 != r_shape.0 {
        return Err(shape_error(l_shape, r_shape));
    }
    let op = |l: (usize, usize), r: (usize, usize)| -> (p: T)
        requires
            l.1 < lhs@.nrows,
            l.0 < lhs@.ncols,
            r.0 < rhs@.nrows,
            r.1 < rhs@.ncols,
        ensures
            crate::scalar::is_times(
                lhs@.at(l.1 as int, l.0 as int),
                rhs@.at(r.0 as int, r.1 as int),
                p,
            ),
        { (*lhs.get(l.1, l.0)).times(*rhs.get(r.0, r.1)) };
    let out = matmul_wrapper_diag(l_shape, r_shape, &op);
    proof {
        assert forall|c: int| 0 <= c < out@.len() implies is_dot(
            lhs@.col(c),
            rhs@.col(c),
            #[trigger] out@[c],
        ) by {
            let cu = c as usize;
            assert(is_cell(&op, cu, cu, l_shape.1, out@[cu as int]));
            lemma_cell_is_dot(&op, cu, cu, l_shape.1, lhs@.col(c), rhs@.col(c), out@[c]);
        }
    }
    Ok(out)
}

/// Column `i` of the transpose is row `i` of the matrix.
pub proof fn lemma_transpose_col_is_row<T>(a: MatrixView<T>, i: int)
    requires
        a.wf(),
        0 <= i < a.nrows,
    ensures
        a.transpose().col(i) == a.row(i),
{
    let t = a.transpose();
    assert forall|k: int| 0 <= k < a.ncols implies t.col(i)[k] == a.row(i)[k] by {
        lemma_transpose_at(a, i, k);
    }
    assert(t.col(i) =~= a.row(i));
}

/// Multiplying `a` by `b` and transpose-multiplying the transpose of `a`
/// by `b` are the same computation: every buffer that is a result of one is a
/// result of the other.
pub proof fn lemma_matmul_is_tr_matmul_of_transpose<T: Scalar>(
    a: MatrixView<T>,
    b: MatrixView<T>,
    out: Seq<T>,
)
    requires
        a.wf(),
    ensures
        is_matmul(a, b, out) <==> is_tr_matmul(a.transpose(), b, out),
{
    let t = a.transpose();
    let v = MatrixView { nrows: a.nrows, ncols: b.ncols, data: out };
    assert forall|i: int| 0 <= i < a.nrows implies t.col(i) == a.row(i) by {
        lemma_transpose_col_is_row(a, i);
    }
    if is_matmul(a, b, out) {
        assert forall|i: int, j: int| 0 <= i < t.ncols && 0 <= j < b.ncols implies is_dot(
            t.col(i),
            b.col(j),
            #[trigger] v.at(i, j),
        ) by {
            assert(is_dot(a.row(i), b.col(j), v.at(i, j)));
        }
    }
    if is_tr_matmul(t, b, out) {
        assert forall|i: int, j: int| 0 <= i < a.nrows && 0 <= j < b.ncols implies is_dot(
            a.row(i),
            b.col(j),
            #[trigger] v.at(i, j),
        ) by {
            assert(is_dot(t.col(i), b.col(j), v.at(i, j)));
        }
    }
}

/// The diagonal of a transposed product is a result of the diagonal-only
/// product: whatever `par_tr_matmul` returns, its diagonal entries meet the
/// contract of `par_tr_matmul_diag` on the same operands.
pub proof fn lemma_tr_matmul_diag_is_diagonal<T: Scalar>(
    a: MatrixView<T>,
    b: MatrixView<T>,
    full: Seq<T>,
    diag: Seq<T>,
)
    requires
        is_tr_matmul(a, b, full),
        diag.len() == diag_len(a.ncols, b.ncols),
        forall|c: int|
            0 <= c < diag.len() ==> diag[c] == (MatrixView {
                nrows: a.ncols,
                ncols: b.ncols,
                data: full,
            }).at(c, c),
    ensures
        is_tr_matmul_diag(a, b, diag),
{
    let v = MatrixView { nrows: a.ncols, ncols: b.ncols, data: full };
    assert forall|c: int| 0 <= c < diag.len() implies is_dot(
        a.col(c),
        b.col(c),
        #[trigger] diag[c],
    ) by {
        assert(is_dot(a.col(c), b.col(c), v.at(c, c)));
    }
}

/// Under arithmetic that returns one value per input, a matrix has one product
/// with another: any two results of `is_matmul` are the same buffer.
pub proof fn lemma_matmul_is_unique<T: Scalar>(
    a: MatrixView<T>,
    b: MatrixView<T>,
    out1: Seq<T>,
    out2: Seq<T>,
)
    requires
        is_deterministic::<T>(),
        is_matmul(a, b, out1),
        is_matmul(a, b, out2),
    ensures
        out1 == out2,
{
    let v1 = MatrixView { nrows: a.nrows, ncols: b.ncols, data: out1 };
    let v2 = MatrixView { nrows: a.nrows, ncols: b.ncols, data: out2 };
    assert forall|k: int| 0 <= k < out1.len() implies out1[k] == out2[k] by {
        if a.nrows == 0 {
            assert(a.nrows * b.ncols == 0) by (nonlinear_arith)
                requires
                    a.nrows == 0,
            ;
        }
        lemma_offset_split(k, a.nrows as int, b.ncols as int);
        let i = k % (a.nrows as int);
        let j = k / (a.nrows as int);
        assert(is_dot(a.row(i), b.col(j), v1.at(i, j)));
        assert(is_dot(a.row(i), b.col(j), v2.at(i, j)));
        lemma_dot_is_unique(a.row(i), b.col(j), v1.at(i, j), v2.at(i, j));
    }
    assert(out1 =~= out2);
}

/// Under arithmetic that returns one value per input, `par_matmul(a, b)` equals
/// `par_tr_matmul` of the transpose of `a` with `b`, entry by entry.
pub proof fn lemma_matmul_equals_tr_matmul_of_transpose<T: Scalar>(
    a: MatrixView<T>,
    b: MatrixView<T>,
    product: Seq<T>,
    tr_product: Seq<T>,
)
    requires
        a.wf(),
        is_deterministic::<T>(),
        is_matmul(a, b, product),
        is_tr_matmul(a.transpose(), b, tr_product),
    ensures
        product == tr_product,
{
    lemma_matmul_is_tr_matmul_of_transpose(a, b, tr_product);
    lemma_matmul_is_unique(a, b, product, tr_product);
}

/// Under arithmetic that returns one value per input, `par_tr_matmul_diag(a, b)`
/// equals the diagonal of `par_tr_matmul(a, b)`, entry by entry.
pub proof fn lemma_tr_matmul_diag_equals_diagonal<T: Scalar>(
    a: MatrixView<T>,
    b: MatrixView<T>,
    full: Seq<T>,
    diag: Seq<T>,
)
    requires
        is_deterministic::<T>(),
        is_tr_matmul(a, b, full),
        is_tr_matmul_diag(a, b, diag),
    ensures
        diag.len() == diag_len(a.ncols, b.ncols),
        forall|c: int|
            0 <= c < diag.len() ==> #[trigger] diag[c] == (MatrixView {
                nrows: a.ncols,
                ncols: b.ncols,
                data: full,
            }).at(c, c),
{
    let v = MatrixView { nrows: a.ncols, ncols: b.ncols, data: full };
    assert forall|c: int| 0 <= c < diag.len() implies #[trigger] diag[c] == v.at(c, c) by {
        assert(is_dot(a.col(c), b.col(c), v.at(c, c)));
        lemma_dot_is_unique(a.col(c), b.col(c), diag[c], v.at(c, c));
    }
}

} // verus!
