//! Coordinates inside a matrix that is stored as one flat, column-major buffer.

use vstd::prelude::*;

verus! {

/// The coordinate pair of a flat offset: the offset divided by the major length,
/// and the remainder.
pub open spec fn spec_index_to_2d(index: nat, nmajor: nat) -> (nat, nat)
    recommends
        nmajor > 0,
{
    (index / nmajor, index % nmajor)
}

/// The half-open range that the minor index occupies along the major axis.
pub open spec fn spec_slice_indices(index: nat, nmajor: nat) -> (nat, nat) {
    (index * nmajor, index * nmajor + nmajor)
}

/// Finds the 2-d coordinate of an offset into a flattened matrix whose major axis
/// has length `nmajor`. The result is in (minor, major) order.
pub fn index_to_2d(index: usize, nmajor: usize) -> (r: (usize, usize))
    requires
        nmajor > 0,
    ensures
        (r.0 as nat, r.1 as nat) == spec_index_to_2d(index as nat, nmajor as nat),
        r.0 * nmajor + r.1 == index,
        r.1 < nmajor,
{
    let i: usize = index / nmajor;
    proof {
        vstd::arithmetic::div_mod::lemma_fundamental_div_mod(index as int, nmajor as int);
        vstd::arithmetic::div_mod::lemma_mod_bound(index as int, nmajor as int);
        vstd::arithmetic::mul::lemma_mul_is_commutative(i as int, nmajor as int);
    }
    let j: usize = index - (i * nmajor);
    (i, j)
}

/// Gives the start and end positions of the slice that the minor index `index`
/// occupies when the major axis has length `nmajor`.
pub fn slice_indices(index: usize, nmajor: usize) -> (r: (usize, usize))
    requires
        index * nmajor + nmajor <= usize::MAX,
    ensures
        (r.0 as nat, r.1 as nat) == spec_slice_indices(index as nat, nmajor as nat),
{
    proof {
        vstd::arithmetic::mul::lemma_mul_nonnegative(index as int, nmajor as int);
    }
    let xs: usize = index * nmajor;
    let xe: usize = xs + nmajor;
    (xs, xe)
}

/// Splitting an offset is the inverse of flattening a coordinate: the offset of
/// `(minor, major)` splits into `(minor, major)` again.
pub proof fn lemma_index_to_2d_inverts_offset(minor: nat, major: nat, nmajor: nat)
    requires
        major < nmajor,
    ensures
        spec_index_to_2d(minor * nmajor + major, nmajor) == (minor, major),
{
    vstd::arithmetic::div_mod::lemma_fundamental_div_mod_converse(
        (minor * nmajor + major) as int,
        nmajor as int,
        minor as int,
        major as int,
    );
}

/// The slices of consecutive minor indices lie end to start, and a coordinate
/// `(minor, major)` has its offset inside the slice of `minor`.
pub proof fn lemma_slices_tile(minor: nat, major: nat, nmajor: nat)
    requires
        major < nmajor,
    ensures
        spec_slice_indices(minor, nmajor).1 == spec_slice_indices(minor + 1, nmajor).0,
        spec_slice_indices(minor, nmajor).0 <= minor * nmajor + major < spec_slice_indices(
            minor,
            nmajor,
        ).1,
{
    assert((minor + 1) * nmajor == minor * nmajor + nmajor) by (nonlinear_arith);
}

} // verus!
