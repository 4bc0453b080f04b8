//! In-place updates of a matrix.

use crate::linalg::matrix::{lemma_offset_in_bounds, lemma_offset_unique, Matrix, MatrixView};
use crate::parallel::par_collect;
use crate::scalar::{is_plus, Scalar};
use vstd::prelude::*;

verus! {

/// `after` is `before` with `f` added to the first `upto` diagonal entries and
/// every other entry untouched.
pub open spec fn is_diagonal_added<T: Scalar>(
    before: MatrixView<T>,
    f: T,
    upto: int,
    after: MatrixView<T>,
) -> bool {
    &&& after.nrows == before.nrows
    &&& after.ncols == before.ncols
    &&& after.data.len() == before.data.len()
    &&& forall|i: int, j: int|
        0 <= i < before.nrows && 0 <= j < before.ncols ==> if i == j && i < upto {
            is_plus(before.at(i, j), f, #[trigger] after.at(i, j))
        } else {
            #[trigger] after.at(i, j) == before.at(i, j)
        }
}

/// Adds `f` to every diagonal entry of the square matrix `mat`, in place. The sums
/// are formed in parallel.
pub fn par_add_diagonal_mut_unchecked<T: Scalar>(mat: &mut Matrix<T>, f: &T)
    requires
        old(mat)@.nrows == old(mat)@.ncols,
    ensures
        is_diagonal_added(old(mat)@, *f, old(mat)@.nrows as int, final(mat)@),
{
    let size = mat.shape().0;
    if size == 0 {
        return ;
    }
    let current: &Matrix<T> = &*mat;
    let raised = |i: usize| -> (v: T)
        requires
            i < size,
        ensures
            is_plus(current@.at(i as int, i as int), *f, v),
        { (*current.get(i, i)).plus(*f) };
    let diagonal = par_collect(size, raised);
    let mut i: usize = 0;
    while i < size
        invariant
            i <= size,
            size == old(mat)@.nrows,
            old(mat)@.nrows == old(mat)@.ncols,
            old(mat)@.wf(),
            diagonal@.len() == size,
            forall|k: int|
                0 <= k < size ==> is_plus(old(mat)@.at(k, k), *f, #[trigger] diagonal@[k]),
            is_diagonal_added(old(mat)@, *f, i as int, mat@),
        decreases size - i,
    {
        let ghost prev = mat@;
        mat.set(i, i, diagonal[i]);
        proof {
            let n = size as int;
            lemma_offset_in_bounds(i as int, i as int, n, n);
            assert forall|r: int, c: int| 0 <= r < n && 0 <= c < n implies if r == c && r < i + 1 {
                is_plus(old(mat)@.at(r, c), *f, #[trigger] mat@.at(r, c))
            } else {
                #[trigger] mat@.at(r, c) == old(mat)@.at(r, c)
            } by {
                lemma_offset_in_bounds(r, c, n, n);
                if r == i && c == i {
                    assert(mat@.at(r, c) == diagonal@[i as int]);
                } else {
                    if c * n + r == i * n + i {
                        lemma_offset_unique(r, c, i as int, i as int, n);
                    }
                    assert(mat@.at(r, c) == prev.at(r, c));
                }
            }
        }
        i = i + 1;
    }
}

} // verus!
