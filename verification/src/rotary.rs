//! Dimension-pairing conventions of rotary position embedding.
//!
//! The rotary kernel rewrites each head's first `rot_dim` dimensions in
//! pairs: pair `i` is rotated by the angle that the cos/sin cache stores
//! for the token's position at column `i`. Two pairing conventions exist
//! and must match the convention the cos/sin cache was built with: the
//! split-half convention pairs dimension `i` with `i + rot_dim / 2`, and
//! the interleaved convention pairs `2 * i` with `2 * i + 1`. The lemmas
//! here show that under either convention the pairs are disjoint and cover
//! the rotated dimensions exactly — the kernel touches each dimension
//! once.

use vstd::prelude::*;

verus! {

/// First dimension of rotation pair `i`.
pub open spec fn pair_first(neox_style: bool, rot_dim: int, i: int) -> int {
    if neox_style {
        i
    } else {
        2 * i
    }
}

/// Second dimension of rotation pair `i`.
pub open spec fn pair_second(neox_style: bool, rot_dim: int, i: int) -> int {
    if neox_style {
        i + rot_dim / 2
    } else {
        2 * i + 1
    }
}

/// The two dimensions of rotation pair `i`, computed executably.
pub fn rotary_pair(neox_style: bool, rot_dim: usize, i: usize) -> (r: (usize, usize))
    requires
        0 < rot_dim,
        rot_dim % 2 == 0,
        (i as int) < rot_dim as int / 2,
    ensures
        r.0 as int == pair_first(neox_style, rot_dim as int, i as int),
        r.1 as int == pair_second(neox_style, rot_dim as int, i as int),
        (r.0 as int) < rot_dim,
        (r.1 as int) < rot_dim,
        r.0 != r.1,
{
    proof {
        vstd::arithmetic::div_mod::lemma_fundamental_div_mod(rot_dim as int, 2);
    }
    if neox_style {
        (i, i + rot_dim / 2)
    } else {
        (2 * i, 2 * i + 1)
    }
}

/// Rotation pair `i` exists and touches dimension `d`.
pub open spec fn covered_by_pair(neox_style: bool, rot_dim: int, i: int, d: int) -> bool {
    0 <= i < rot_dim / 2
        && (d == pair_first(neox_style, rot_dim, i) || d == pair_second(neox_style, rot_dim, i))
}

/// Under either convention the rotation pairs cover every rotated
/// dimension: each `d` below `rot_dim` is the first or the second
/// dimension of exactly one pair.
pub proof fn lemma_rotary_pairs_cover(neox_style: bool, rot_dim: int, d: int)
    requires
        0 < rot_dim,
        rot_dim % 2 == 0,
        0 <= d < rot_dim,
    ensures
        exists|i: int| #[trigger] covered_by_pair(neox_style, rot_dim, i, d),
{
    vstd::arithmetic::div_mod::lemma_fundamental_div_mod(rot_dim, 2);
    let half = rot_dim / 2;
    if neox_style {
        if d < half {
            assert(covered_by_pair(neox_style, rot_dim, d, d));
        } else {
            assert(covered_by_pair(neox_style, rot_dim, d - half, d));
        }
    } else {
        vstd::arithmetic::div_mod::lemma_fundamental_div_mod(d, 2);
        let i = d / 2;
        assert(0 <= i < half) by (nonlinear_arith)
            requires
                d == 2 * i + d % 2,
                0 <= d % 2 < 2,
                0 <= d < rot_dim,
                rot_dim == 2 * half,
        ;
        if d % 2 == 0 {
            assert(d == pair_first(neox_style, rot_dim, i));
        } else {
            assert(d == pair_second(neox_style, rot_dim, i));
        }
        assert(covered_by_pair(neox_style, rot_dim, i, d));
    }
}

/// Under either convention distinct pairs touch distinct dimensions, and
/// no dimension is both a first and a second dimension.
pub proof fn lemma_rotary_pairs_disjoint(neox_style: bool, rot_dim: int, i1: int, i2: int)
    requires
        0 < rot_dim,
        rot_dim % 2 == 0,
        0 <= i1 < rot_dim / 2,
        0 <= i2 < rot_dim / 2,
    ensures
        pair_first(neox_style, rot_dim, i1) != pair_second(neox_style, rot_dim, i2),
        i1 != i2 ==> pair_first(neox_style, rot_dim, i1) != pair_first(neox_style, rot_dim, i2),
        i1 != i2 ==> pair_second(neox_style, rot_dim, i1)
            != pair_second(neox_style, rot_dim, i2),
{
    vstd::arithmetic::div_mod::lemma_fundamental_div_mod(rot_dim, 2);
}

} // verus!
