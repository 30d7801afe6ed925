//! int4 with hierarchical scale metadata: groups of 32.
//!
//! ```text
//! per row     half2 (d, dmin)              32 bits
//! per group   uint8 (ls | lm<<4)            8 bits per 32 weights
//! per weight  nibble q                      4 bits
//!
//! scale = d * ls        min = -dmin * lm        w = q*scale + min
//! ```
//!
//! `ls` is at least one. A zero scale index would make every weight in the group
//! reconstruct to `min` and force a special case into the quantizer and the
//! kernel.

use vstd::prelude::*;

use crate::quant::{
    check_pack_shape, level_at, lemma_row_major, lemma_whole_words, pack_levels, pack_pairs, packed_levels,
    packed_pair, read_nibble, shape_fits, ShapeIssue, QMAX,
};

verus! {

/// Weights sharing one `(ls, lm)` pair: exactly one 16-byte load of nibbles.
pub const HGROUP: usize = 32;

/// An int4 hierarchical-scale weight matrix, packed for the decode GEMV.
///
/// - `qw`: `[out_features][in_features/8]`, nibble `i` in bits `4i..4i+3`
/// - `si`: `[out_features][in_features/32]`, `ls` low, `lm` high
/// - `sb`: `[out_features]`, an f16 `d` low and an f16 `dmin` high
#[derive(Debug, Clone)]
pub struct PackedInt4Hier {
    /// Packed nibbles, eight per word.
    pub qw: Vec<u32>,
    /// Per-group scale and min indices, four bits each.
    pub si: Vec<u8>,
    /// Per-row `(d, dmin)`, two f16 bit patterns in one word.
    pub sb: Vec<u32>,
    /// Input width.
    pub in_features: usize,
    /// Output width.
    pub out_features: usize,
}

/// The byte a scale index and a min index pack into.
pub open spec fn packed_index(ls: u8, lm: u8) -> u8 {
    (ls + lm * 16) as u8
}

/// The scale index in a byte.
pub open spec fn scale_index(b: u8) -> u8 {
    b % 16
}

/// The min index in a byte.
pub open spec fn min_index(b: u8) -> u8 {
    b / 16
}

/// Both indices come back from their byte, and the scale index is never zero.
pub proof fn indices_round_trip(ls: u8, lm: u8)
    requires
        1 <= ls <= QMAX,
        lm <= QMAX,
    ensures
        scale_index(packed_index(ls, lm)) == ls,
        min_index(packed_index(ls, lm)) == lm,
        scale_index(packed_index(ls, lm)) >= 1,
{
}

/// Packs the indices of one group.
pub fn pack_index(ls: u8, lm: u8) -> (b: u8)
    requires
        1 <= ls <= QMAX,
        lm <= QMAX,
    ensures
        b == packed_index(ls, lm),
{
    ls + lm * 16
}

/// Takes the indices of one group apart.
pub fn split_index(b: u8) -> (indices: (u8, u8))
    ensures
        indices.0 == scale_index(b),
        indices.1 == min_index(b),
{
    (b % 16, b / 16)
}

/// Packs the indices of a list of groups.
pub fn pack_indices(ls: &[u8], lm: &[u8]) -> (si: Vec<u8>)
    requires
        ls@.len() == lm@.len(),
        forall|i: int| 0 <= i < ls@.len() ==> 1 <= #[trigger] ls@[i] <= QMAX,
        forall|i: int| 0 <= i < lm@.len() ==> #[trigger] lm@[i] <= QMAX,
    ensures
        si@.len() == ls@.len(),
        forall|i: int| 0 <= i < si@.len() ==> #[trigger] si@[i] == packed_index(ls@[i], lm@[i]),
{
    let mut out: Vec<u8> = Vec::new();
    let mut i: usize = 0;
    while i < ls.len()
        invariant
            i <= ls@.len(),
            ls@.len() == lm@.len(),
            forall|k: int| 0 <= k < ls@.len() ==> 1 <= #[trigger] ls@[k] <= QMAX,
            forall|k: int| 0 <= k < lm@.len() ==> #[trigger] lm@[k] <= QMAX,
            out@.len() == i,
            forall|k: int| 0 <= k < i ==> #[trigger] out@[k] == packed_index(ls@[k], lm@[k]),
        decreases ls@.len() - i,
    {
        assert(1 <= ls@[i as int] <= QMAX && lm@[i as int] <= QMAX);
        out.push(pack_index(ls[i], lm[i]));
        i = i + 1;
    }
    out
}

impl PackedInt4Hier {
    /// The arrays have the lengths that the shape calls for.
    pub open spec fn wf(&self) -> bool {
        &&& self.in_features as int % HGROUP as int == 0
        &&& self.qw@.len() * 8 == self.in_features * self.out_features
        &&& self.si@.len() * HGROUP == self.in_features * self.out_features
        &&& self.sb@.len() == self.out_features
    }

    /// Packs the levels of a matrix, the indices of its groups and the shared
    /// scales of its rows.
    pub fn from_levels(
        levels: &[u8],
        ls: &[u8],
        lm: &[u8],
        d: &[u16],
        dmin: &[u16],
        in_features: usize,
        out_features: usize,
    ) -> (r: Result<PackedInt4Hier, ShapeIssue>)
        requires
            in_features * out_features <= usize::MAX,
            forall|j: int| 0 <= j < levels@.len() ==> #[trigger] levels@[j] <= QMAX,
            ls@.len() == lm@.len(),
            in_features as int % HGROUP as int == 0 ==> ls@.len() * HGROUP == in_features * out_features,
            forall|i: int| 0 <= i < ls@.len() ==> 1 <= #[trigger] ls@[i] <= QMAX,
            forall|i: int| 0 <= i < lm@.len() ==> #[trigger] lm@[i] <= QMAX,
            d@.len() == dmin@.len() == out_features,
        ensures
            r is Ok <==> shape_fits(
                levels@.len() as int,
                in_features as int,
                out_features as int,
                HGROUP as int,
            ),
            r matches Ok(p) ==> {
                &&& p.wf()
                &&& p.in_features == in_features && p.out_features == out_features
                &&& p.qw@ == packed_levels(levels@)
                &&& forall|g: int|
                    0 <= g < p.si@.len() ==> #[trigger] p.si@[g] == packed_index(ls@[g], lm@[g])
                &&& forall|row: int|
                    0 <= row < p.sb@.len() ==> #[trigger] p.sb@[row] == packed_pair(d@[row], dmin@[row])
            },
            r matches Err(issue) ==> if in_features as int % HGROUP as int != 0 {
                issue == (ShapeIssue::Width { in_features, group: HGROUP })
            } else {
                issue == (ShapeIssue::Weights {
                    got: levels@.len() as usize,
                    want: (in_features * out_features) as usize,
                })
            },
    {
        match check_pack_shape(levels.len(), in_features, out_features, HGROUP) {
            Err(issue) => Err(issue),
            Ok(_) => {
                proof {
                    lemma_whole_words(in_features as int, out_features as int, HGROUP as int);
                }
                let qw = pack_levels(levels);
                let si = pack_indices(ls, lm);
                let sb = pack_pairs(d, dmin);
                Ok(PackedInt4Hier { qw, si, sb, in_features, out_features })
            },
        }
    }

    /// Bytes the GEMV reads per invocation, with all scale metadata.
    pub fn bytes(&self) -> (n: usize)
        requires
            self.qw@.len() * 4 + self.si@.len() + self.sb@.len() * 4 <= usize::MAX,
        ensures
            n == self.qw@.len() * 4 + self.si@.len() + self.sb@.len() * 4,
    {
        self.qw.len() * 4 + self.si.len() + self.sb.len() * 4
    }

    /// The level of the weight at a row and column.
    pub fn level(&self, row: usize, col: usize) -> (level: u8)
        requires
            self.wf(),
            row < self.out_features,
            col < self.in_features,
        ensures
            level == level_at(self.qw@, row * self.in_features + col),
    {
        proof {
            assert(self.qw@.len() == self.qw.len());
            lemma_row_major(row as int, col as int, self.in_features as int, self.out_features as int);
            let words = self.in_features as int / 8;
            assert(self.in_features == 8 * words);
            assert(row * self.in_features == 8 * (row * words)) by (nonlinear_arith)
                requires
                    self.in_features == 8 * words,
            ;
            assert(row * words >= 0) by (nonlinear_arith)
                requires
                    words >= 0,
            ;
        }
        read_nibble(self.qw[row * (self.in_features / 8) + col / 8], col % 8)
    }
}

} // verus!
