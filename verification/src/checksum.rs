//! The checksum of the container.

use vstd::arithmetic::div_mod::{lemma_mod_multiples_vanish, lemma_mul_mod_noop_left};
use vstd::prelude::*;

verus! {

/// What the checksum of no bytes is.
pub const CHECKSUM_START: u64 = 0xcbf2_9ce4_8422_2325;

/// What each byte multiplies the checksum by. One hex digit longer than the
/// prime of FNV-1a; files in the world depend on it.
pub const CHECKSUM_FACTOR: u64 = 0x1000_0000_01b3;

/// The checksum after one more byte.
pub open spec fn checksum_step(h: u64, b: u8) -> u64 {
    (h ^ (b as u64)).wrapping_mul(CHECKSUM_FACTOR)
}

/// The checksum of a byte sequence.
pub open spec fn checksum(bytes: Seq<u8>) -> u64
    decreases bytes.len(),
{
    if bytes.len() == 0 {
        CHECKSUM_START
    } else {
        checksum_step(checksum(bytes.drop_last()), bytes.last())
    }
}

/// FNV-1a-shaped, 64-bit. **The multiplier is not the FNV-1a prime**, and must
/// not be corrected: any odd multiplier detects a truncated download or a bad
/// disk equally well, and changing it would invalidate every file written.
pub fn fnv1a(bytes: &[u8]) -> (h: u64)
    ensures
        h == checksum(bytes@),
{
    let mut h: u64 = 0xcbf2_9ce4_8422_2325;
    let mut i: usize = 0;
    assert(bytes@.take(0) =~= seq![]);
    while i < bytes.len()
        invariant
            i <= bytes@.len(),
            h == checksum(bytes@.take(i as int)),
        decreases bytes@.len() - i,
    {
        h = (h ^ (bytes[i] as u64)).wrapping_mul(0x1000_0000_01b3);
        i = i + 1;
        assert(bytes@.take(i as int).drop_last() =~= bytes@.take(i - 1));
    }
    assert(bytes@.take(i as int) =~= bytes@);
    h
}

/// Multiplying by a factor that has an inverse loses nothing.
pub proof fn factor_loses_nothing(x: u64, y: u64, factor: u64, inverse: u64, quotient: int)
    requires
        factor * inverse == quotient * 0x1_0000_0000_0000_0000 + 1,
        x.wrapping_mul(factor) == y.wrapping_mul(factor),
    ensures
        x == y,
{
    lemma_inverse(x, factor, inverse, quotient);
    lemma_inverse(y, factor, inverse, quotient);
}

proof fn lemma_inverse(x: u64, factor: u64, inverse: u64, quotient: int)
    requires
        factor * inverse == quotient * 0x1_0000_0000_0000_0000 + 1,
    ensures
        x.wrapping_mul(factor).wrapping_mul(inverse) == x,
{
    let m: int = 0x1_0000_0000_0000_0000;
    let f = factor as int;
    let g = inverse as int;
    let xi = x as int;
    lemma_mul_mod_noop_left(xi * f, g, m);
    assert(xi * f * g == m * (quotient * xi) + xi) by (nonlinear_arith)
        requires
            f * g == quotient * m + 1,
    ;
    lemma_mod_multiples_vanish(quotient * xi, xi, m);
}

proof fn lemma_factor_injective(x: u64, y: u64)
    requires
        x.wrapping_mul(CHECKSUM_FACTOR) == y.wrapping_mul(CHECKSUM_FACTOR),
    ensures
        x == y,
{
    factor_loses_nothing(x, y, CHECKSUM_FACTOR, 0xb46d_d957_aff6_957b, 12398993177650);
}

proof fn lemma_step_injective(h: u64, k: u64, b: u8)
    requires
        h != k,
    ensures
        checksum_step(h, b) != checksum_step(k, b),
{
    let w = b as u64;
    assert(h != k ==> h ^ w != k ^ w) by (bit_vector);
    if checksum_step(h, b) == checksum_step(k, b) {
        lemma_factor_injective(h ^ w, k ^ w);
    }
}

proof fn lemma_byte_matters(h: u64, a: u8, b: u8)
    requires
        a != b,
    ensures
        checksum_step(h, a) != checksum_step(h, b),
{
    let x = a as u64;
    let y = b as u64;
    assert(x != y ==> h ^ x != h ^ y) by (bit_vector);
    if checksum_step(h, a) == checksum_step(h, b) {
        lemma_factor_injective(h ^ x, h ^ y);
    }
}

/// The checksum detects every change of a single byte, and so every flip of a
/// single bit.
pub proof fn checksum_detects_a_changed_byte(bytes: Seq<u8>, at: int, value: u8)
    requires
        0 <= at < bytes.len(),
        bytes[at] != value,
    ensures
        checksum(bytes.update(at, value)) != checksum(bytes),
    decreases bytes.len(),
{
    let other = bytes.update(at, value);
    if at == bytes.len() - 1 {
        assert(other.drop_last() =~= bytes.drop_last());
        lemma_byte_matters(checksum(bytes.drop_last()), bytes.last(), value);
    } else {
        checksum_detects_a_changed_byte(bytes.drop_last(), at, value);
        assert(other.drop_last() =~= bytes.drop_last().update(at, value));
        lemma_step_injective(checksum(other.drop_last()), checksum(bytes.drop_last()), bytes.last());
    }
}

} // verus!
