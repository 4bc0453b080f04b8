//! The arithmetic that the library needs from its number type.
//!
//! The library never looks inside a scalar. Its contracts speak of the operations
//! through the relations below: `is_plus(a, b, r)` reads "`r` is a value that
//! `a.plus(b)` may return". A contract such as `is_dot(u, v, r)` therefore pins
//! down which operations produced `r`, on which operands and in which order.
//! Nothing is claimed about what an operation computes, so every statement
//! holds for rounding, saturating or exact arithmetic alike.

use vstd::prelude::*;

verus! {

/// A number type with the operations used by the kernels and the solvers.
pub trait Scalar: Copy + Send + Sync {
    /// The additive identity, the start of every sum.
    fn zero() -> Self;

    /// One half.
    fn half() -> Self;

    /// `self + rhs`
    fn plus(self, rhs: Self) -> Self;

    /// `self - rhs`
    fn minus(self, rhs: Self) -> Self;

    /// `self * rhs`
    fn times(self, rhs: Self) -> Self;

    /// `self / rhs`
    fn over(self, rhs: Self) -> Self;

    /// `-self`
    fn negate(self) -> Self;

    /// `e` raised to `self`
    fn exp(self) -> Self;
}

/// `r` is a value that `T::zero()` may return.
pub open spec fn is_zero<T: Scalar>(r: T) -> bool {
    call_ensures(T::zero, (), r)
}

/// `r` is a value that `T::half()` may return.
pub open spec fn is_half<T: Scalar>(r: T) -> bool {
    call_ensures(T::half, (), r)
}

/// `r` is a value that `a.plus(b)` may return.
pub open spec fn is_plus<T: Scalar>(a: T, b: T, r: T) -> bool {
    call_ensures(T::plus, (a, b), r)
}

/// `r` is a value that `a.minus(b)` may return.
pub open spec fn is_minus<T: Scalar>(a: T, b: T, r: T) -> bool {
    call_ensures(T::minus, (a, b), r)
}

/// `r` is a value that `a.times(b)` may return.
pub open spec fn is_times<T: Scalar>(a: T, b: T, r: T) -> bool {
    call_ensures(T::times, (a, b), r)
}

/// `r` is a value that `a.over(b)` may return.
pub open spec fn is_over<T: Scalar>(a: T, b: T, r: T) -> bool {
    call_ensures(T::over, (a, b), r)
}

/// `r` is a value that `a.negate()` may return.
pub open spec fn is_negate<T: Scalar>(a: T, r: T) -> bool {
    call_ensures(T::negate, (a,), r)
}

/// `r` is a value that `a.exp()` may return.
pub open spec fn is_exp<T: Scalar>(a: T, r: T) -> bool {
    call_ensures(T::exp, (a,), r)
}

/// `partial` records a left-to-right summation of `terms` that starts at zero and
/// ends in `r`: `partial[k]` is the sum of the first `k` terms.
pub open spec fn sum_trace<T: Scalar>(terms: Seq<T>, partial: Seq<T>, r: T) -> bool {
    &&& partial.len() == terms.len() + 1
    &&& is_zero(partial[0])
    &&& forall|k: int|
        0 <= k < terms.len() ==> is_plus(#[trigger] partial[k], terms[k], partial[k + 1])
    &&& r == partial[terms.len() as int]
}

/// `r` is a sum of `terms`, added one by one from the left to a zero.
pub open spec fn is_sum<T: Scalar>(terms: Seq<T>, r: T) -> bool {
    exists|partial: Seq<T>| sum_trace(terms, partial, r)
}

/// `terms[k]` is a product `u[k] * v[k]`, for every index that both have.
pub open spec fn are_products<T: Scalar>(u: Seq<T>, v: Seq<T>, terms: Seq<T>) -> bool {
    &&& terms.len() == if u.len() <= v.len() { u.len() } else { v.len() }
    &&& forall|k: int| 0 <= k < terms.len() ==> is_times(u[k], v[k], #[trigger] terms[k])
}

/// `r` is a dot product of `u` and `v`: the products of their paired entries,
/// summed in index order. The longer sequence is cut to the shorter one.
pub open spec fn is_dot<T: Scalar>(u: Seq<T>, v: Seq<T>, r: T) -> bool {
    exists|terms: Seq<T>| are_products(u, v, terms) && is_sum(terms, r)
}

/// Sums and products are functions of their operands: an operation returns the
/// same value whenever it is given the same operands, and there is one zero.
pub open spec fn is_deterministic<T: Scalar>() -> bool {
    &&& forall|r1: T, r2: T| #[trigger] is_zero(r1) && #[trigger] is_zero(r2) ==> r1 == r2
    &&& forall|a: T, b: T, r1: T, r2: T| #[trigger]
        is_plus(a, b, r1) && #[trigger] is_plus(a, b, r2) ==> r1 == r2
    &&& forall|a: T, b: T, r1: T, r2: T| #[trigger]
        is_times(a, b, r1) && #[trigger] is_times(a, b, r2) ==> r1 == r2
}

/// Two summations of the same terms agree on every partial sum.
proof fn lemma_partial_sums_agree<T: Scalar>(
    terms: Seq<T>,
    partial1: Seq<T>,
    r1: T,
    partial2: Seq<T>,
    r2: T,
    k: nat,
)
    requires
        is_deterministic::<T>(),
        sum_trace(terms, partial1, r1),
        sum_trace(terms, partial2, r2),
        k <= terms.len(),
    ensures
        partial1[k as int] == partial2[k as int],
    decreases k,
{
    if k > 0 {
        lemma_partial_sums_agree(terms, partial1, r1, partial2, r2, (k - 1) as nat);
        assert(is_plus(partial1[k - 1], terms[k - 1], partial1[k - 1 + 1]));
        assert(is_plus(partial2[k - 1], terms[k - 1], partial2[k - 1 + 1]));
    }
}

/// Under arithmetic that returns one value per input, two sequences have one
/// dot product.
pub proof fn lemma_dot_is_unique<T: Scalar>(u: Seq<T>, v: Seq<T>, r1: T, r2: T)
    requires
        is_deterministic::<T>(),
        is_dot(u, v, r1),
        is_dot(u, v, r2),
    ensures
        r1 == r2,
{
    let terms1 = choose|terms: Seq<T>| are_products(u, v, terms) && is_sum(terms, r1);
    let terms2 = choose|terms: Seq<T>| are_products(u, v, terms) && is_sum(terms, r2);
    assert forall|k: int| 0 <= k < terms1.len() implies terms1[k] == terms2[k] by {
        assert(is_times(u[k], v[k], terms1[k]));
        assert(is_times(u[k], v[k], terms2[k]));
    }
    assert(terms1 =~= terms2);
    let partial1 = choose|partial: Seq<T>| sum_trace(terms1, partial, r1);
    let partial2 = choose|partial: Seq<T>| sum_trace(terms1, partial, r2);
    lemma_partial_sums_agree(terms1, partial1, r1, partial2, r2, terms1.len());
}

} // verus!
