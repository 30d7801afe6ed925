//! The int4 formats: how levels and scale metadata are packed into words.
//!
//! Fitting scales to weights is floating-point work and is done by the caller;
//! what is decided here is which shapes can be packed, where every nibble of a
//! packed matrix lies, and that packing loses none of them.

use vstd::prelude::*;

use crate::format::FormatIssue;

verus! {

/// Why a matrix cannot be packed, or does not have the shape it claims.
#[derive(Debug, Clone, Copy, PartialEq, Eq, Structural)]
pub enum ShapeIssue {
    /// The input width is not a multiple of the group size.
    Width { in_features: usize, group: usize },
    /// The weights are not as many as the shape says.
    Weights { got: usize, want: usize },
    /// The elements written for a tensor are not as many as its shape says.
    Elements { got: usize, want: usize },
}

/// What can go wrong in quantization and in the `.wstone` container.
#[derive(Debug)]
pub enum Error {
    /// A weight matrix had a shape the packer cannot represent.
    Shape(ShapeIssue),
    /// A `.wstone` file was malformed, truncated, or failed a checksum.
    Format(FormatIssue),
}

/// Weights sharing one scale/zero pair.
pub const GROUP: usize = 128;

/// The highest level of a 4-bit weight, scale index or min index.
pub const QMAX: u8 = 15;

/// An int4 group-quantized weight matrix, packed for the decode GEMV.
///
/// - `qw`: `[out_features][in_features/8]`, nibble `i` in bits `4i..4i+3`
/// - `sz`: `[out_features][in_features/GROUP]`, low half `scale`, high half `zero`
#[derive(Debug, Clone)]
pub struct PackedInt4 {
    /// Packed nibbles, eight per word.
    pub qw: Vec<u32>,
    /// Per-group scale and zero, as two f16 bit patterns in one word.
    pub sz: Vec<u32>,
    /// Input width.
    pub in_features: usize,
    /// Output width.
    pub out_features: usize,
}

/// The word eight levels pack into, the first lowest.
pub open spec fn packed_word(l: Seq<u8>) -> u32 {
    (l[0] + l[1] * 0x10 + l[2] * 0x100 + l[3] * 0x1000 + l[4] * 0x1_0000 + l[5] * 0x10_0000 + l[6]
        * 0x100_0000 + l[7] * 0x1000_0000) as u32
}

/// Sixteen to the power of `i`, for `i` below eight.
pub open spec fn nibble_unit(i: int) -> int {
    if i <= 0 {
        1
    } else if i == 1 {
        0x10
    } else if i == 2 {
        0x100
    } else if i == 3 {
        0x1000
    } else if i == 4 {
        0x1_0000
    } else if i == 5 {
        0x10_0000
    } else if i == 6 {
        0x100_0000
    } else {
        0x1000_0000
    }
}

/// Nibble `i` of a word.
pub open spec fn nibble(word: u32, i: int) -> u8 {
    (word as int / nibble_unit(i) % 16) as u8
}

/// The level of weight `k`, counted through the matrix row by row.
pub open spec fn level_at(qw: Seq<u32>, k: int) -> u8 {
    nibble(qw[k / 8], k % 8)
}

/// The words that levels pack into, eight to a word.
pub open spec fn packed_levels(levels: Seq<u8>) -> Seq<u32> {
    Seq::new(levels.len() / 8, |w: int| packed_word(levels.subrange(8 * w, 8 * w + 8)))
}

/// Two 16-bit patterns in one word, the first low.
pub open spec fn packed_pair(low: u16, high: u16) -> u32 {
    (low + high * 0x1_0000) as u32
}

/// The low pattern of a word.
pub open spec fn low_half(word: u32) -> u16 {
    (word % 0x1_0000) as u16
}

/// The high pattern of a word.
pub open spec fn high_half(word: u32) -> u16 {
    (word / 0x1_0000) as u16
}

proof fn lemma_digit(word: int, low: int, digit: int, high: int, unit: int)
    by (nonlinear_arith)
    requires
        unit > 0,
        0 <= low < unit,
        0 <= digit < 16,
        0 <= high,
        word == low + unit * (digit + 16 * high),
    ensures
        word / unit % 16 == digit,
{
    assert(word / unit == digit + 16 * high);
}

proof fn lemma_nibbles(l: Seq<u8>, i: int)
    requires
        l.len() == 8,
        forall|k: int| 0 <= k < 8 ==> #[trigger] l[k] <= QMAX,
        0 <= i < 8,
    ensures
        nibble(packed_word(l), i) == l[i],
{
    assert(l[0] <= 15 && l[1] <= 15 && l[2] <= 15 && l[3] <= 15 && l[4] <= 15 && l[5] <= 15 && l[6] <= 15
        && l[7] <= 15);
    let w = packed_word(l) as int;
    let h7 = l[7] as int;
    let h6 = l[6] + 16 * h7;
    let h5 = l[5] + 16 * h6;
    let h4 = l[4] + 16 * h5;
    let h3 = l[3] + 16 * h4;
    let h2 = l[2] + 16 * h3;
    let h1 = l[1] + 16 * h2;
    let b1 = l[0] as int;
    let b2 = b1 + 0x10 * l[1];
    let b3 = b2 + 0x100 * l[2];
    let b4 = b3 + 0x1000 * l[3];
    let b5 = b4 + 0x1_0000 * l[4];
    let b6 = b5 + 0x10_0000 * l[5];
    let b7 = b6 + 0x100_0000 * l[6];
    if i == 0 {
        lemma_digit(w, 0, l[0] as int, h1, 1);
    } else if i == 1 {
        lemma_digit(w, b1, l[1] as int, h2, 0x10);
    } else if i == 2 {
        lemma_digit(w, b2, l[2] as int, h3, 0x100);
    } else if i == 3 {
        lemma_digit(w, b3, l[3] as int, h4, 0x1000);
    } else if i == 4 {
        lemma_digit(w, b4, l[4] as int, h5, 0x1_0000);
    } else if i == 5 {
        lemma_digit(w, b5, l[5] as int, h6, 0x10_0000);
    } else if i == 6 {
        lemma_digit(w, b6, l[6] as int, h7, 0x100_0000);
    } else {
        lemma_digit(w, b7, l[7] as int, 0, 0x1000_0000);
    }
}

/// Packing loses nothing: every level comes back from the words, and both
/// patterns of a pair come back from theirs.
pub proof fn packing_round_trips(levels: Seq<u8>, k: int, low: u16, high: u16)
    requires
        levels.len() % 8 == 0,
        forall|j: int| 0 <= j < levels.len() ==> #[trigger] levels[j] <= QMAX,
        0 <= k < levels.len(),
    ensures
        level_at(packed_levels(levels), k) == levels[k],
        low_half(packed_pair(low, high)) == low,
        high_half(packed_pair(low, high)) == high,
{
    let w = k / 8;
    let l = levels.subrange(8 * w, 8 * w + 8);
    assert forall|j: int| 0 <= j < 8 implies #[trigger] l[j] <= QMAX by {
        assert(l[j] == levels[8 * w + j]);
    }
    lemma_nibbles(l, k % 8);
    assert(l[k % 8] == levels[k]);
}

/// Whether a shape can be packed with a group size: the width is a whole number
/// of groups, and the weights are as many as the shape says.
pub open spec fn shape_fits(weights: int, in_features: int, out_features: int, group: int) -> bool {
    in_features % group == 0 && weights == in_features * out_features
}

/// Checks a shape against a group size, and gives the groups per row.
///
/// The element count of the shape must be representable.
pub fn check_pack_shape(weights: usize, in_features: usize, out_features: usize, group: usize) -> (r: Result<
    usize,
    ShapeIssue,
>)
    requires
        group > 0,
        in_features * out_features <= usize::MAX,
    ensures
        r matches Ok(groups) ==> shape_fits(
            weights as int,
            in_features as int,
            out_features as int,
            group as int,
        ) && groups == in_features as int / group as int,
        r matches Err(issue) ==> if in_features as int % group as int != 0 {
            issue == (ShapeIssue::Width { in_features, group })
        } else {
            weights != in_features * out_features && issue == (ShapeIssue::Weights {
                got: weights,
                want: (in_features * out_features) as usize,
            })
        },
{
    if in_features % group != 0 {
        return Err(ShapeIssue::Width { in_features, group });
    }
    let want: usize = in_features * out_features;
    if weights != want {
        return Err(ShapeIssue::Weights { got: weights, want });
    }
    Ok(in_features / group)
}

/// Packs levels, eight to a word.
pub fn pack_levels(levels: &[u8]) -> (qw: Vec<u32>)
    requires
        levels@.len() % 8 == 0,
        forall|j: int| 0 <= j < levels@.len() ==> #[trigger] levels@[j] <= QMAX,
    ensures
        qw@ == packed_levels(levels@),
{
    let n: usize = levels.len() / 8;
    let mut out: Vec<u32> = Vec::new();
    let mut w: usize = 0;
    while w < n
        invariant
            w <= n,
            n == levels@.len() / 8,
            forall|j: int| 0 <= j < levels@.len() ==> #[trigger] levels@[j] <= QMAX,
            out@.len() == w,
            forall|k: int|
                0 <= k < w ==> #[trigger] out@[k] == packed_word(levels@.subrange(8 * k, 8 * k + 8)),
        decreases n - w,
    {
        let total: usize = levels.len();
        let at: usize = 8 * w;
        assert(at + 8 <= total);
        assert(levels@[at as int] <= 15 && levels@[at + 1] <= 15 && levels@[at + 2] <= 15 && levels@[at + 3]
            <= 15 && levels@[at + 4] <= 15 && levels@[at + 5] <= 15 && levels@[at + 6] <= 15 && levels@[at
            + 7] <= 15);
        let word: u32 = levels[at] as u32 + levels[at + 1] as u32 * 0x10 + levels[at + 2] as u32 * 0x100
            + levels[at + 3] as u32 * 0x1000 + levels[at + 4] as u32 * 0x1_0000 + levels[at + 5] as u32
            * 0x10_0000 + levels[at + 6] as u32 * 0x100_0000 + levels[at + 7] as u32 * 0x1000_0000;
        out.push(word);
        w = w + 1;
    }
    assert(out@ =~= packed_levels(levels@));
    out
}

/// Puts two 16-bit patterns in one word.
pub fn pack_pair(low: u16, high: u16) -> (word: u32)
    ensures
        word == packed_pair(low, high),
{
    low as u32 + high as u32 * 0x1_0000
}

/// Takes a word apart into its low and high patterns.
pub fn split_pair(word: u32) -> (halves: (u16, u16))
    ensures
        halves.0 == low_half(word),
        halves.1 == high_half(word),
{
    ((word % 0x1_0000) as u16, (word / 0x1_0000) as u16)
}

/// Reads nibble `i` of a word.
pub fn read_nibble(word: u32, i: usize) -> (level: u8)
    requires
        i < 8,
    ensures
        level == nibble(word, i as int),
        level <= QMAX,
{
    let unit: u32 = match i {
        0 => 1,
        1 => 0x10,
        2 => 0x100,
        3 => 0x1000,
        4 => 0x1_0000,
        5 => 0x10_0000,
        6 => 0x100_0000,
        _ => 0x1000_0000,
    };
    (word / unit % 16) as u8
}

/// Packs pairs of 16-bit patterns, one word to a pair.
pub fn pack_pairs(low: &[u16], high: &[u16]) -> (words: Vec<u32>)
    requires
        low@.len() == high@.len(),
    ensures
        words@.len() == low@.len(),
        forall|i: int| 0 <= i < words@.len() ==> #[trigger] words@[i] == packed_pair(low@[i], high@[i]),
{
    let mut out: Vec<u32> = Vec::new();
    let mut i: usize = 0;
    while i < low.len()
        invariant
            i <= low@.len(),
            low@.len() == high@.len(),
            out@.len() == i,
            forall|k: int| 0 <= k < i ==> #[trigger] out@[k] == packed_pair(low@[k], high@[k]),
        decreases low@.len() - i,
    {
        out.push(pack_pair(low[i], high[i]));
        i = i + 1;
    }
    out
}

impl PackedInt4 {
    /// The arrays have the lengths that the shape calls for.
    pub open spec fn wf(&self) -> bool {
        &&& self.in_features as int % GROUP as int == 0
        &&& self.qw@.len() * 8 == self.in_features * self.out_features
        &&& self.sz@.len() * GROUP == self.in_features * self.out_features
    }

    /// Packs the levels, scales and zeros of a matrix, row by row.
    pub fn from_levels(
        levels: &[u8],
        scales: &[u16],
        zeros: &[u16],
        in_features: usize,
        out_features: usize,
    ) -> (r: Result<PackedInt4, ShapeIssue>)
        requires
            in_features * out_features <= usize::MAX,
            forall|j: int| 0 <= j < levels@.len() ==> #[trigger] levels@[j] <= QMAX,
            scales@.len() == zeros@.len(),
            in_features as int % GROUP as int == 0 ==> scales@.len() * GROUP == in_features * out_features,
        ensures
            r is Ok <==> shape_fits(
                levels@.len() as int,
                in_features as int,
                out_features as int,
                GROUP as int,
            ),
            r matches Ok(p) ==> {
                &&& p.wf()
                &&& p.in_features == in_features && p.out_features == out_features
                &&& p.qw@ == packed_levels(levels@)
                &&& forall|g: int|
                    0 <= g < p.sz@.len() ==> #[trigger] p.sz@[g] == packed_pair(scales@[g], zeros@[g])
            },
            r matches Err(issue) ==> if in_features as int % GROUP as int != 0 {
                issue == (ShapeIssue::Width { in_features, group: GROUP })
            } else {
                issue == (ShapeIssue::Weights {
                    got: levels@.len() as usize,
                    want: (in_features * out_features) as usize,
                })
            },
    {
        match check_pack_shape(levels.len(), in_features, out_features, GROUP) {
            Err(issue) => Err(issue),
            Ok(_) => {
                proof {
                    lemma_whole_words(in_features as int, out_features as int, GROUP as int);
                }
                let qw = pack_levels(levels);
                let sz = pack_pairs(scales, zeros);
                Ok(PackedInt4 { qw, sz, in_features, out_features })
            },
        }
    }

    /// Bytes the GEMV reads per invocation, with the scale metadata.
    pub fn bytes(&self) -> (n: usize)
        requires
            self.qw@.len() * 4 + self.sz@.len() * 4 <= usize::MAX,
        ensures
            n == self.qw@.len() * 4 + self.sz@.len() * 4,
    {
        self.qw.len() * 4 + self.sz.len() * 4
    }

    /// The level of the weight at a row and column.
    pub fn level(&self, row: usize, col: usize) -> (level: u8)
        requires
            self.wf(),
            row < self.out_features,
            col < self.in_features,
        ensures
            level == level_at(self.qw@, row * self.in_features + col),
    {
        proof {
            assert(self.qw@.len() == self.qw.len());
            lemma_row_major(row as int, col as int, self.in_features as int, self.out_features as int);
            lemma_word_index(row as int, col as int, self.in_features as int);
        }
        read_nibble(self.qw[row * (self.in_features / 8) + col / 8], col % 8)
    }
}

/// A matrix of whole groups fills whole words.
pub proof fn lemma_whole_words(in_features: int, out_features: int, group: int)
    requires
        in_features % group == 0,
        group == 32 || group == 128,
    ensures
        (in_features * out_features) % 8 == 0,
{
    let words = in_features / 8;
    assert(in_features == 8 * words);
    assert(in_features * out_features == 8 * (words * out_features)) by (nonlinear_arith)
        requires
            in_features == 8 * words,
    ;
}

/// A position in a matrix comes before the end of it.
pub proof fn lemma_row_major(row: int, col: int, width: int, height: int)
    by (nonlinear_arith)
    requires
        0 <= row < height,
        0 <= col < width,
    ensures
        row * width + col < width * height,
        0 <= row * width,
{
}

proof fn lemma_word_index(row: int, col: int, width: int)
    requires
        0 <= row,
        0 <= col,
        width % 128 == 0,
        width >= 0,
    ensures
        (row * width + col) / 8 == row * (width / 8) + col / 8,
        (row * width + col) % 8 == col % 8,
        row * (width / 8) >= 0,
{
    let words = width / 8;
    assert(width == 8 * words);
    assert(row * width == 8 * (row * words)) by (nonlinear_arith)
        requires
            width == 8 * words,
    ;
    assert(row * words >= 0) by (nonlinear_arith)
        requires
            row >= 0,
            words >= 0,
    ;
}

} // verus!
