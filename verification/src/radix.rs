//! Mixed-radix flat-index arithmetic.
//!
//! Every buffer in this library is a flat vector indexed by a chain of
//! coordinates (block, head, dimension, slot offset, ...). Each chain is
//! built from one primitive step, `mix(hi, lo, base) == hi * base + lo`
//! with `0 <= lo < base`, so bounds, injectivity and decoding of every
//! multi-dimensional index reduce to the three lemmas proved here.

use vstd::prelude::*;
use vstd::arithmetic::div_mod::{
    lemma_fundamental_div_mod, lemma_fundamental_div_mod_converse,
};

verus! {

/// One mixed-radix digit step: `hi` scaled by `base`, plus a digit `lo`.
pub open spec fn mix(hi: int, lo: int, base: int) -> int {
    hi * base + lo
}

/// A mixed-radix step stays within `hi_bound * base` when the digit is in
/// range and `hi` is below `hi_bound`.
pub proof fn lemma_mix_bound(hi: int, lo: int, hi_bound: int, base: int)
    requires
        0 <= hi < hi_bound,
        0 <= lo < base,
    ensures
        0 <= mix(hi, lo, base) < hi_bound * base,
{
    assert(0 <= hi * base + lo < hi_bound * base) by (nonlinear_arith)
        requires
            0 <= hi < hi_bound,
            0 <= lo < base,
    ;
}

/// A mixed-radix step is injective: equal encodings with in-range digits
/// have equal parts.
pub proof fn lemma_mix_inject(hi1: int, lo1: int, hi2: int, lo2: int, base: int)
    requires
        0 <= lo1 < base,
        0 <= lo2 < base,
        mix(hi1, lo1, base) == mix(hi2, lo2, base),
    ensures
        hi1 == hi2,
        lo1 == lo2,
{
    assert(hi1 == hi2 && lo1 == lo2) by (nonlinear_arith)
        requires
            0 <= lo1 < base,
            0 <= lo2 < base,
            hi1 * base + lo1 == hi2 * base + lo2,
    ;
}

/// Every flat index below `hi_bound * base` decodes into a mixed-radix
/// step: its quotient and remainder by `base` re-encode to it, and both
/// parts are in range.
pub proof fn lemma_mix_decode(v: int, hi_bound: int, base: int)
    requires
        0 < base,
        0 < hi_bound,
        0 <= v < hi_bound * base,
    ensures
        mix(v / base, v % base, base) == v,
        0 <= v / base < hi_bound,
        0 <= v % base < base,
{
    lemma_fundamental_div_mod(v, base);
    assert(0 <= v % base < base);
    assert((v / base) * base == base * (v / base)) by (nonlinear_arith);
    assert(mix(v / base, v % base, base) == v);
    assert(v / base < hi_bound) by (nonlinear_arith)
        requires
            0 < base,
            v < hi_bound * base,
            v == base * (v / base) + v % base,
            0 <= v % base < base,
    ;
    assert(v / base >= 0) by (nonlinear_arith)
        requires
            0 < base,
            0 <= v,
            v == base * (v / base) + v % base,
            0 <= v % base < base,
    ;
}

/// The quotient/remainder pair of a value already written as a mixed-radix
/// step is exactly its two parts.
pub proof fn lemma_mix_div_mod(hi: int, lo: int, base: int)
    requires
        0 <= hi,
        0 <= lo < base,
    ensures
        mix(hi, lo, base) / base == hi,
        mix(hi, lo, base) % base == lo,
{
    lemma_fundamental_div_mod_converse(mix(hi, lo, base), base, hi, lo);
}

} // verus!
