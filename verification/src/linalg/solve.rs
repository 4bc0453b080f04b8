//! Forward substitution against a lower-triangular matrix.

use crate::linalg::matrix::{chunk, lemma_col_is_chunk, Matrix, MatrixView};
use crate::parallel::par_collect;
use crate::scalar::{is_negate, is_over, is_plus, is_times, Scalar};
use vstd::prelude::*;

verus! {

/// `y` is a value of `x + r * c`.
pub open spec fn is_axpy<T: Scalar>(x: T, r: T, c: T, y: T) -> bool {
    exists|p: T| is_times(r, c, p) && is_plus(x, p, y)
}

/// `after` is `before` with unknown `i` eliminated: entry `i` is divided by the
/// pivot `a[i][i]`, and for every row `k` below, `a[k][i]` times the negated
/// quotient is added to entry `k`. The entries above `i` stay.
pub open spec fn is_forward_step<T: Scalar>(
    a: MatrixView<T>,
    i: int,
    before: Seq<T>,
    after: Seq<T>,
) -> bool {
    &&& after.len() == before.len()
    &&& forall|k: int| 0 <= k < i ==> #[trigger] after[k] == before[k]
    &&& is_over(before[i], a.at(i, i), after[i])
    &&& exists|neg: T|
        is_negate(after[i], neg) && forall|k: int|
            i < k < before.len() ==> is_axpy(before[k], a.at(k, i), neg, #[trigger] after[k])
}

/// `states` records a forward substitution: it starts at `b`, eliminates the
/// unknowns `0, 1, ..` in turn, and ends in `x`.
pub open spec fn forward_trace<T: Scalar>(
    a: MatrixView<T>,
    b: Seq<T>,
    states: Seq<Seq<T>>,
    x: Seq<T>,
) -> bool {
    &&& states.len() == b.len() + 1
    &&& states[0] == b
    &&& forall|i: int|
        0 <= i < b.len() ==> is_forward_step(a, i, #[trigger] states[i], states[i + 1])
    &&& x == states[b.len() as int]
}

/// `x` is a solution of `a * x = b` as forward substitution computes it. Only the
/// lower triangle of `a`, diagonal included, is read.
#[verifier::opaque]
pub open spec fn is_forward_solve<T: Scalar>(a: MatrixView<T>, b: Seq<T>, x: Seq<T>) -> bool {
    exists|states: Seq<Seq<T>>| forward_trace(a, b, states, x)
}

/// `x` solves `a * x = b` column by column.
pub open spec fn is_lower_triangular_solve<T: Scalar>(
    a: MatrixView<T>,
    b: MatrixView<T>,
    x: MatrixView<T>,
) -> bool {
    &&& x.nrows == b.nrows
    &&& x.ncols == b.ncols
    &&& x.wf()
    &&& forall|j: int| 0 <= j < b.ncols ==> is_forward_solve(a, b.col(j), #[trigger] x.col(j))
}

/// Solves `a * x = b` for one right-hand side, in place: on return `b` holds `x`.
/// The unknowns are found strictly one after the other.
pub fn solve_lower_triangular_vector_unchecked_mut<T: Scalar>(a: &Matrix<T>, b: &mut Vec<T>)
    requires
        a@.nrows == a@.ncols,
        old(b)@.len() == a@.nrows,
    ensures
        final(b)@.len() == old(b)@.len(),
        is_forward_solve(a@, old(b)@, final(b)@),
{
    let dim = a.nrows();
    let ghost mut states: Seq<Seq<T>> = seq![b@];
    let mut i: usize = 0;
    while i < dim
        invariant
            i <= dim,
            dim == a@.nrows,
            a@.nrows == a@.ncols,
            b@.len() == dim,
            states.len() == i + 1,
            states[0] == old(b)@,
            states[i as int] == b@,
            forall|s: int| 0 <= s < i ==> is_forward_step(a@, s, #[trigger] states[s], states[s + 1]),
        decreases dim - i,
    {
        let ghost before = b@;
        let coeff = b[i].over(*a.get(i, i));
        b[i] = coeff;
        let neg = coeff.negate();
        let mut k: usize = i + 1;
        while k < dim
            invariant
                i < k <= dim,
                dim == a@.nrows,
                a@.nrows == a@.ncols,
                b@.len() == dim,
                before.len() == dim,
                forall|m: int| 0 <= m < i ==> #[trigger] b@[m] == before[m],
                b@[i as int] == coeff,
                forall|m: int|
                    i < m < k ==> is_axpy(before[m], a@.at(m, i as int), neg, #[trigger] b@[m]),
                forall|m: int| k <= m < dim ==> #[trigger] b@[m] == before[m],
            decreases dim - k,
        {
            let p = (*a.get(k, i)).times(neg);
            let ghost prev = b@;
            let y = b[k].plus(p);
            b[k] = y;
            proof {
                assert(is_times(a@.at(k as int, i as int), neg, p) && is_plus(before[k as int], p, y));
                assert forall|m: int| i < m < k + 1 implies is_axpy(
                    before[m],
                    a@.at(m, i as int),
                    neg,
                    #[trigger] b@[m],
                ) by {
                    if m < k {
                        assert(b@[m] == prev[m]);
                    }
                }
            }
            k = k + 1;
        }
        proof {
            assert(is_negate(b@[i as int], neg));
            assert(is_forward_step(a@, i as int, before, b@));
            states = states.push(b@);
        }
        i = i + 1;
    }
    proof {
        reveal(is_forward_solve);
        assert(forward_trace(a@, old(b)@, states, b@));
    }
}

/// Appending one more column leaves the earlier columns as they were.
proof fn lemma_chunk_append<T>(before: Seq<T>, last: Seq<T>, j: int, n: int)
    requires
        0 <= j,
        before.len() == j * n,
        last.len() == n,
    ensures
        (before + last).len() == (j + 1) * n,
        chunk(before + last, j, n) == last,
        forall|c: int| 0 <= c < j ==> #[trigger] chunk(before + last, c, n) == chunk(before, c, n),
{
    assert((j + 1) * n == j * n + n) by (nonlinear_arith);
    assert(chunk(before + last, j, n) =~= last);
    assert forall|c: int| 0 <= c < j implies #[trigger] chunk(before + last, c, n) == chunk(
        before,
        c,
        n,
    ) by {
        assert(c * n + n <= j * n) by (nonlinear_arith)
            requires
                0 <= c < j,
                0 <= n,
        ;
        assert(0 <= c * n) by (nonlinear_arith)
            requires
                0 <= c,
                0 <= n,
        ;
        assert(chunk(before + last, c, n) =~= chunk(before, c, n));
    }
}

/// Copies column `j` of `m` into a buffer of its own.
fn copy_col<T: Scalar>(m: &Matrix<T>, j: usize) -> (col: Vec<T>)
    requires
        j < m@.ncols,
    ensures
        col@ == m@.col(j as int),
{
    let nrows = m.nrows();
    let mut col: Vec<T> = Vec::new();
    let mut i: usize = 0;
    while i < nrows
        invariant
            i <= nrows,
            j < m@.ncols,
            nrows == m@.nrows,
            col@.len() == i,
            forall|k: int| 0 <= k < i ==> #[trigger] col@[k] == m@.at(k, j as int),
        decreases nrows - i,
    {
        col.push(*m.get(i, j));
        i = i + 1;
    }
    proof {
        assert(col@ =~= m@.col(j as int));
    }
    col
}

/// Appends a copy of `col` to `data`.
fn append_col<T: Scalar>(data: &mut Vec<T>, col: &Vec<T>)
    ensures
        final(data)@ == old(data)@ + col@,
{
    let mut i: usize = 0;
    while i < col.len()
        invariant
            i <= col@.len(),
            data@ == old(data)@ + col@.subrange(0, i as int),
        decreases col@.len() - i,
    {
        data.push(col[i]);
        proof {
            assert(col@.subrange(0, i + 1) =~= col@.subrange(0, i as int).push(col@[i as int]));
            assert(data@ =~= old(data)@ + col@.subrange(0, i + 1));
        }
        i = i + 1;
    }
    proof {
        assert(col@.subrange(0, i as int) =~= col@);
    }
}

/// Solves `a * x = b` for every column of `b` and returns `x`, of the shape of
/// `b`. `a` is taken to be lower-triangular: what stands above its diagonal is
/// not read. The columns are solved independently of each other, in parallel;
/// within one column the unknowns are found one after the other.
pub fn par_solve_lower_triangular_unchecked<T: Scalar>(a: &Matrix<T>, b: &Matrix<T>) -> (x: Matrix<T>)
    requires
        a@.nrows == a@.ncols,
        b@.nrows == a@.nrows,
    ensures
        is_lower_triangular_solve(a@, b@, x@),
{
    let mut res = b.clone_owned();
    par_solve_lower_triangular_unchecked_mut(a, &mut res);
    res
}

/// Solves `a * x = b` for every column of `b`, in place: on return `b` holds `x`.
pub fn par_solve_lower_triangular_unchecked_mut<T: Scalar>(a: &Matrix<T>, b: &mut Matrix<T>)
    requires
        a@.nrows == a@.ncols,
        old(b)@.nrows == a@.nrows,
    ensures
        is_lower_triangular_solve(a@, old(b)@, final(b)@),
{
    let (nrows, ncols) = b.shape();
    let rhs: &Matrix<T> = &*b;
    let solve_col = |j: usize| -> (col: Vec<T>)
        requires
            j < ncols,
        ensures
            col@.len() == nrows,
            is_forward_solve(a@, rhs@.col(j as int), col@),
        {
            let mut col = copy_col(rhs, j);
            solve_lower_triangular_vector_unchecked_mut(a, &mut col);
            col
        };
    let cols = par_collect(ncols, solve_col);
    let mut data: Vec<T> = Vec::new();
    let mut j: usize = 0;
    while j < ncols
        invariant
            j <= ncols,
            cols@.len() == ncols,
            forall|c: usize| c < ncols ==> (#[trigger] cols@[c as int])@.len() == nrows,
            data@.len() == j * nrows,
            forall|c: int| 0 <= c < j ==> #[trigger] chunk(data@, c, nrows as int) == cols@[c]@,
        decreases ncols - j,
    {
        proof {
            lemma_chunk_append(data@, cols@[j as int]@, j as int, nrows as int);
        }
        append_col(&mut data, &cols[j]);
        j = j + 1;
    }
    proof {
        assert(ncols * nrows == nrows * ncols) by (nonlinear_arith);
    }
    let ghost before = b@;
    *b = Matrix::from_vec(nrows, ncols, data);
    proof {
        assert forall|c: int| 0 <= c < before.ncols implies is_forward_solve(
            a@,
            before.col(c),
            #[trigger] b@.col(c),
        ) by {
            lemma_col_is_chunk(b@, c);
            assert(solve_col.ensures((c as usize,), cols@[c]));
        }
    }
}

} // verus!
