//! The parts of stochastic sampling that are counts and bits: how many
//! candidates are considered, and the number each draw starts from.

use vstd::prelude::*;

use crate::checksum::factor_loses_nothing;
use crate::engine::NUCLEUS_POOL;

verus! {

/// The step between the states of the generator.
pub const GOLDEN: u64 = 0x9e37_79b9_7f4a_7c15;

/// What the first round of mixing multiplies by.
pub const MIX_FIRST: u64 = 0xbf58_476d_1ce4_e5b9;

/// What the second round of mixing multiplies by.
pub const MIX_SECOND: u64 = 0x94d0_49bb_1331_11eb;

/// One round of mixing: fold the high bits in, then multiply.
pub open spec fn mixed(r: u64, shift: u64, factor: u64) -> u64 {
    (r ^ (r >> shift)).wrapping_mul(factor)
}

/// The number SplitMix64 gives for a state.
pub open spec fn splitmix(state: u64) -> u64 {
    let r = mixed(mixed(state.wrapping_add(GOLDEN), 30, MIX_FIRST), 27, MIX_SECOND);
    r ^ (r >> 31u64)
}

/// SplitMix64. Deterministic, seeded, and short: a dependency for picking a token
/// would be more surface than the job needs.
pub fn splitmix64(z: u64) -> (r: u64)
    ensures
        r == splitmix(z),
{
    let mut r: u64 = z.wrapping_add(GOLDEN);
    r = (r ^ (r >> 30u64)).wrapping_mul(MIX_FIRST);
    r = (r ^ (r >> 27u64)).wrapping_mul(MIX_SECOND);
    r ^ (r >> 31u64)
}

/// The number the draw of a step starts from. It depends on the seed and the
/// step alone, so a run can be repeated.
pub fn draw(seed: u64, step: u64) -> (r: u64)
    ensures
        r == splitmix(seed ^ step.wrapping_mul(GOLDEN)),
{
    splitmix64(seed ^ step.wrapping_mul(GOLDEN))
}

/// How many candidates a draw considers of a vocabulary: `top_k` of them, where
/// that is not zero, but never more than the pool and never more than there are.
pub open spec fn pool_of(top_k: int, vocab: int) -> int {
    let pool = if 0 < top_k < NUCLEUS_POOL {
        top_k
    } else {
        NUCLEUS_POOL as int
    };
    if pool < vocab {
        pool
    } else {
        vocab
    }
}

/// How many candidates a draw considers of a vocabulary.
pub fn pool_size(top_k: usize, vocab: usize) -> (k: usize)
    ensures
        k == pool_of(top_k as int, vocab as int),
{
    let pool: usize = if top_k > 0 && top_k < NUCLEUS_POOL {
        top_k
    } else {
        NUCLEUS_POOL
    };
    if pool < vocab {
        pool
    } else {
        vocab
    }
}

/// Two different states of the generator never give the same number, so two
/// steps of one run never start from the same one.
pub proof fn draws_differ(seed: u64, a: u64, b: u64)
    requires
        a != b,
    ensures
        splitmix(seed ^ a.wrapping_mul(GOLDEN)) != splitmix(seed ^ b.wrapping_mul(GOLDEN)),
{
    let x = a.wrapping_mul(GOLDEN);
    let y = b.wrapping_mul(GOLDEN);
    if x == y {
        factor_loses_nothing(a, b, GOLDEN, 0xf1de_83e1_9937_733d, 10771413168148108919);
    }
    let s = seed ^ x;
    let t = seed ^ y;
    assert(s != t) by (bit_vector)
        requires
            s == seed ^ x,
            t == seed ^ y,
            x != y,
    ;
    if splitmix(s) == splitmix(t) {
        let p0 = s.wrapping_add(GOLDEN);
        let q0 = t.wrapping_add(GOLDEN);
        let p1 = mixed(p0, 30, MIX_FIRST);
        let q1 = mixed(q0, 30, MIX_FIRST);
        let p2 = mixed(p1, 27, MIX_SECOND);
        let q2 = mixed(q1, 27, MIX_SECOND);
        assert(p2 == q2) by (bit_vector)
            requires
                p2 ^ (p2 >> 31u64) == q2 ^ (q2 >> 31u64),
        ;
        factor_loses_nothing(
            p1 ^ (p1 >> 27u64),
            q1 ^ (q1 >> 27u64),
            MIX_SECOND,
            0x3196_42b2_d24d_8ec3,
            2077064247507883091,
        );
        assert(p1 == q1) by (bit_vector)
            requires
                p1 ^ (p1 >> 27u64) == q1 ^ (q1 >> 27u64),
        ;
        factor_loses_nothing(
            p0 ^ (p0 >> 30u64),
            q0 ^ (q0 >> 30u64),
            MIX_FIRST,
            0x96de_1b17_3f11_9089,
            8125545580553827436,
        );
        assert(p0 == q0) by (bit_vector)
            requires
                p0 ^ (p0 >> 30u64) == q0 ^ (q0 >> 30u64),
        ;
    }
}

} // verus!
