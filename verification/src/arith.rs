//! Index arithmetic shared by the raster proofs: the correspondence between
//! a flat byte index and its (row, pixel, byte) coordinates.

use vstd::prelude::*;
use vstd::arithmetic::div_mod::lemma_fundamental_div_mod_converse;
use vstd::arithmetic::div_mod::lemma_fundamental_div_mod;

verus! {

/// Flat index of byte `b` of item `p` in a run of `size`-byte items that
/// starts at `start`.
pub open spec fn at(start: int, p: int, size: int, b: int) -> int {
    start + p * size + b
}

/// Composing an index from a quotient and an in-range remainder, then
/// dividing, gives the pair back.
pub proof fn lemma_split(p: int, size: int, b: int)
    requires
        size > 0,
        0 <= b < size,
    ensures
        (p * size + b) / size == p,
        (p * size + b) % size == b,
{
    lemma_fundamental_div_mod_converse(p * size + b, size, p, b);
}

/// Every non-negative index decomposes into quotient and remainder.
pub proof fn lemma_join(i: int, size: int)
    requires
        size > 0,
        i >= 0,
    ensures
        i == (i / size) * size + i % size,
        0 <= i % size < size,
        i / size >= 0,
{
    lemma_fundamental_div_mod(i, size);
    assert(i / size >= 0) by (nonlinear_arith)
        requires size > 0, i >= 0;
    assert((i / size) * size == size * (i / size)) by (nonlinear_arith);
}

/// An index below `n * size` has its quotient below `n`.
pub proof fn lemma_quotient_bound(i: int, size: int, n: int)
    requires
        size > 0,
        0 <= i < n * size,
    ensures
        i / size < n,
{
    lemma_join(i, size);
    let q = i / size;
    if q >= n {
        assert(q * size >= n * size) by (nonlinear_arith)
            requires q >= n, size > 0;
    }
}

/// The last byte of item `p` in a run of `n` items lies inside the run.
pub proof fn lemma_item_in_run(p: int, n: int, size: int, b: int)
    requires
        0 <= p < n,
        0 <= b < size,
    ensures
        0 <= p * size + b < n * size,
{
    assert(0 <= p * size + b < n * size) by (nonlinear_arith)
        requires 0 <= p < n, 0 <= b < size;
}

} // verus!
