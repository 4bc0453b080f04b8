//! The parallel runtime: one fork-join region over an index range.

use rayon::iter::{IntoParallelIterator, ParallelIterator};
use vstd::prelude::*;

verus! {

/// Evaluates `f` at every index below `n` on the rayon thread pool and gathers
/// the results in index order.
///
/// Taken on trust from rayon's `into_par_iter` on a range, `map` and `collect`
/// into a `Vec`: the vector has one entry per index, and entry `i` is a value
/// that `f(i)` returned. The order in which the indices are visited is not
/// fixed, and nothing is claimed about it.
#[verifier::external_body]
pub(crate) fn par_collect<R: Send, F: Fn(usize) -> R + Sync + Send>(n: usize, f: F) -> (out: Vec<R>)
    requires
        forall|i: usize| i < n ==> #[trigger] f.requires((i,)),
    ensures
        out@.len() == n,
        forall|i: usize| i < n ==> f.ensures((i,), #[trigger] out@[i as int]),
{
    (0..n).into_par_iter().map(f).collect()
}

} // verus!
