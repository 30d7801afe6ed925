//! Which bits hold what.
//!
//! The device reads the words of a file as they stand, so it is not enough that
//! what was packed can be read back: every level, index and pattern has its own
//! bits, and these are they.

use vstd::prelude::*;

use crate::bytes::{
    halves_bytes, halves_of, halves_round_trip, le16, le16_bytes, le32, le32_bytes, le64,
    le64_bytes, words_bytes, words_of, words_round_trip,
};
use crate::hier::{min_index, packed_index, scale_index, PackedInt4Hier, HGROUP};
use crate::quant::{
    high_half, level_at, low_half, packed_levels, packed_pair, packing_round_trips, shape_fits,
    PackedInt4, GROUP,
};

verus! {

proof fn lemma_nibble_bits(w: u32)
    ensures
        (w >> 0u32) & 0xf == w / 1 % 16,
        (w >> 4u32) & 0xf == w / 0x10 % 16,
        (w >> 8u32) & 0xf == w / 0x100 % 16,
        (w >> 12u32) & 0xf == w / 0x1000 % 16,
        (w >> 16u32) & 0xf == w / 0x1_0000 % 16,
        (w >> 20u32) & 0xf == w / 0x10_0000 % 16,
        (w >> 24u32) & 0xf == w / 0x100_0000 % 16,
        (w >> 28u32) & 0xf == w / 0x1000_0000 % 16,
{
    assert((w >> 0u32) & 0xf == w / 1 % 16 && (w >> 4u32) & 0xf == w / 0x10 % 16 && (w >> 8u32) & 0xf == w
        / 0x100 % 16 && (w >> 12u32) & 0xf == w / 0x1000 % 16 && (w >> 16u32) & 0xf == w / 0x1_0000 % 16 && (w
        >> 20u32) & 0xf == w / 0x10_0000 % 16 && (w >> 24u32) & 0xf == w / 0x100_0000 % 16 && (w >> 28u32)
        & 0xf == w / 0x1000_0000 % 16) by (bit_vector);
}

/// Weight `k` of a matrix is read from bits `4i..4i+3` of word `k / 8`, where `i`
/// is `k % 8`.
pub proof fn levels_are_read_from_their_bits(qw: Seq<u32>, k: int)
    requires
        0 <= k,
    ensures
        level_at(qw, k) == (qw[k / 8] >> ((4 * (k % 8)) as u32)) & 0xf,
{
    let w = qw[k / 8];
    lemma_nibble_bits(w);
    let i = k % 8;
    assert(i == 0 || i == 1 || i == 2 || i == 3 || i == 4 || i == 5 || i == 6 || i == 7);
}

/// Weight `k` of a matrix is packed into bits `4i..4i+3` of word `k / 8`, where
/// `i` is `k % 8`, and there is a word for every eight weights.
pub proof fn levels_are_packed_into_their_bits(levels: Seq<u8>, k: int)
    requires
        levels.len() % 8 == 0,
        forall|j: int| 0 <= j < levels.len() ==> #[trigger] levels[j] <= 15,
        0 <= k < levels.len(),
    ensures
        packed_levels(levels).len() * 8 == levels.len(),
        (packed_levels(levels)[k / 8] >> ((4 * (k % 8)) as u32)) & 0xf == levels[k],
{
    packing_round_trips(levels, k, 0, 0);
    levels_are_read_from_their_bits(packed_levels(levels), k);
}

/// Of the two patterns in a word the first, which is a scale, has the low sixteen
/// bits, and the second, which is a zero or a min, the high ones.
pub proof fn pairs_have_their_halves(low: u16, high: u16, word: u32)
    ensures
        packed_pair(low, high) & 0xffff == low,
        packed_pair(low, high) >> 16u32 == high,
        low_half(word) == word & 0xffff,
        high_half(word) == word >> 16u32,
{
    let w = packed_pair(low, high);
    assert(w & 0xffff == w % 0x1_0000 && w >> 16u32 == w / 0x1_0000) by (bit_vector);
    assert(word & 0xffff == word % 0x1_0000 && word >> 16u32 == word / 0x1_0000) by (bit_vector);
}

/// Of the two indices in a byte the scale's has the low four bits and the min's
/// the high ones.
pub proof fn indices_have_their_nibbles(ls: u8, lm: u8, b: u8)
    requires
        ls <= 15,
        lm <= 15,
    ensures
        packed_index(ls, lm) & 0xf == ls,
        packed_index(ls, lm) >> 4u8 == lm,
        scale_index(b) == b & 0xf,
        min_index(b) == b >> 4u8,
{
    let p = packed_index(ls, lm);
    assert(p & 0xf == p % 16 && p >> 4u8 == p / 16) by (bit_vector);
    assert(b & 0xf == b % 16 && b >> 4u8 == b / 16) by (bit_vector);
}

/// Numbers are written with their lowest byte first: byte `i` of a number is its
/// bits `8i..8i+7`.
pub proof fn numbers_are_written_lowest_byte_first(a: u16, b: u32, c: u64, i: int)
    ensures
        le16_bytes(a).len() == 2,
        le32_bytes(b).len() == 4,
        le64_bytes(c).len() == 8,
        0 <= i < 2 ==> le16_bytes(a)[i] == (a >> ((8 * i) as u16)) & 0xff,
        0 <= i < 4 ==> le32_bytes(b)[i] == (b >> ((8 * i) as u32)) & 0xff,
        0 <= i < 8 ==> le64_bytes(c)[i] == (c >> ((8 * i) as u64)) & 0xff,
{
    assert((a >> 0u16) & 0xff == a % 0x100 && (a >> 8u16) & 0xff == a / 0x100) by (bit_vector);
    lemma_word_bytes(b);
    lemma_long_bytes(c);
    if 0 <= i < 2 {
        assert(i == 0 || i == 1);
    }
    if 0 <= i < 4 {
        assert(i == 0 || i == 1 || i == 2 || i == 3);
    }
    if 0 <= i < 8 {
        assert(i == 0 || i == 1 || i == 2 || i == 3 || i == 4 || i == 5 || i == 6 || i == 7);
    }
}

proof fn lemma_word_bytes(b: u32)
    ensures
        (b >> 0u32) & 0xff == b % 0x100,
        (b >> 8u32) & 0xff == b / 0x100 % 0x100,
        (b >> 16u32) & 0xff == b / 0x1_0000 % 0x100,
        (b >> 24u32) & 0xff == b / 0x100_0000,
{
    assert((b >> 0u32) & 0xff == b % 0x100 && (b >> 8u32) & 0xff == b / 0x100 % 0x100 && (b >> 16u32) & 0xff
        == b / 0x1_0000 % 0x100 && (b >> 24u32) & 0xff == b / 0x100_0000) by (bit_vector);
}

proof fn lemma_long_bytes(c: u64)
    ensures
        (c >> 0u64) & 0xff == c % 0x1_0000_0000 % 0x100,
        (c >> 8u64) & 0xff == c % 0x1_0000_0000 / 0x100 % 0x100,
        (c >> 16u64) & 0xff == c % 0x1_0000_0000 / 0x1_0000 % 0x100,
        (c >> 24u64) & 0xff == c % 0x1_0000_0000 / 0x100_0000,
        (c >> 32u64) & 0xff == c / 0x1_0000_0000 % 0x100,
        (c >> 40u64) & 0xff == c / 0x1_0000_0000 / 0x100 % 0x100,
        (c >> 48u64) & 0xff == c / 0x1_0000_0000 / 0x1_0000 % 0x100,
        (c >> 56u64) & 0xff == c / 0x1_0000_0000 / 0x100_0000,
{
    assert((c >> 0u64) & 0xff == c % 0x1_0000_0000 % 0x100 && (c >> 8u64) & 0xff == c % 0x1_0000_0000 / 0x100
        % 0x100 && (c >> 16u64) & 0xff == c % 0x1_0000_0000 / 0x1_0000 % 0x100 && (c >> 24u64) & 0xff == c
        % 0x1_0000_0000 / 0x100_0000 && (c >> 32u64) & 0xff == c / 0x1_0000_0000 % 0x100 && (c >> 40u64) & 0xff
        == c / 0x1_0000_0000 / 0x100 % 0x100 && (c >> 48u64) & 0xff == c / 0x1_0000_0000 / 0x1_0000 % 0x100 && (c
        >> 56u64) & 0xff == c / 0x1_0000_0000 / 0x100_0000) by (bit_vector);
}

/// Numbers are read with their lowest byte first: byte `i` counts as many units
/// as 256 to the power of `i`.
pub proof fn numbers_are_read_lowest_byte_first(s: Seq<u8>)
    requires
        s.len() == 8,
    ensures
        le16(s) == s[0] + 0x100 * s[1],
        le32(s) == s[0] + 0x100 * s[1] + 0x1_0000 * s[2] + 0x100_0000 * s[3],
        le64(s) == s[0] + 0x100 * s[1] + 0x1_0000 * s[2] + 0x100_0000 * s[3] + 0x1_0000_0000 * s[4]
            + 0x100_0000_0000 * s[5] + 0x1_0000_0000_0000 * s[6] + 0x100_0000_0000_0000 * s[7],
{
    let lo = s.take(4);
    let hi = s.subrange(4, 8);
    assert(lo[0] == s[0] && lo[1] == s[1] && lo[2] == s[2] && lo[3] == s[3]);
    assert(hi[0] == s[4] && hi[1] == s[5] && hi[2] == s[6] && hi[3] == s[7]);
}

/// Numbers of a list follow each other in the file: number `i` of a list of
/// 32-bit numbers has the bytes from `4 * i` on, of 16-bit numbers from `2 * i` on.
pub proof fn lists_are_written_in_order(words: Seq<u32>, halves: Seq<u16>, i: int, j: int)
    ensures
        words_bytes(words).len() == 4 * words.len(),
        halves_bytes(halves).len() == 2 * halves.len(),
        0 <= i < words.len() && 0 <= j < 4 ==> words_bytes(words)[4 * i + j] == (words[i] >> ((8 * j) as u32)) & 0xff,
        0 <= i < halves.len() && 0 <= j < 2 ==> halves_bytes(halves)[2 * i + j] == (halves[i] >> ((8
            * j) as u16)) & 0xff,
    decreases words.len() + halves.len(),
{
    words_round_trip(words);
    halves_round_trip(halves);
    if words.len() > 0 {
        lists_are_written_in_order(words.drop_last(), seq![], i, j);
        numbers_are_written_lowest_byte_first(0, words.last(), 0, j);
    }
    if halves.len() > 0 {
        lists_are_written_in_order(seq![], halves.drop_last(), i, j);
        numbers_are_written_lowest_byte_first(halves.last(), 0, 0, j);
    }
}

/// A byte sequence states a 32-bit number for every four of its bytes, and a
/// 16-bit number for every two, each with its lowest byte first.
pub proof fn lists_are_read_in_order(b: Seq<u8>, i: int)
    requires
        0 <= i,
    ensures
        words_of(b).len() == b.len() / 4,
        halves_of(b).len() == b.len() / 2,
        i < b.len() / 4 ==> words_of(b)[i] == b[4 * i] + 0x100 * b[4 * i + 1] + 0x1_0000 * b[4 * i + 2]
            + 0x100_0000 * b[4 * i + 3],
        i < b.len() / 2 ==> halves_of(b)[i] == b[2 * i] + 0x100 * b[2 * i + 1],
{
}

/// A matrix can be packed exactly where its width is whole groups, of 128 or of 32
/// by the format, and there is a weight for every place.
pub proof fn matrices_that_can_be_packed(weights: int, width: int, rows: int)
    requires
        0 <= width,
    ensures
        shape_fits(weights, width, rows, GROUP as int) <==> width % 128 == 0 && weights == rows * width,
        shape_fits(weights, width, rows, HGROUP as int) <==> width % 32 == 0 && weights == rows * width,
{
    assert(width * rows == rows * width) by (nonlinear_arith);
}

/// A packed matrix has a word for every eight weights. In groups of 128 it has a
/// word of scale and zero for each; in groups of 32 a byte of indices for each, and
/// a word of scales for each row.
pub proof fn packed_matrices_are_filled(p: PackedInt4, q: PackedInt4Hier)
    ensures
        p.wf() <==> p.in_features % 128 == 0 && 8 * p.qw@.len() == p.in_features * p.out_features && 128
            * p.sz@.len() == p.in_features * p.out_features,
        q.wf() <==> q.in_features % 32 == 0 && 8 * q.qw@.len() == q.in_features * q.out_features && 32
            * q.si@.len() == q.in_features * q.out_features && q.sb@.len() == q.out_features,
{
}

} // verus!
