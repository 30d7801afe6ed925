//! Single-token kernels.

use vstd::prelude::*;

use super::gemv::{GROUP, HGROUP};
use super::{answers, exactly, holds, qkv_stride, qkv_width, Error, Operand, ShapeRule};

verus! {

/// What is wrong with a normalisation, if anything.
pub open spec fn rmsnorm_fault(x: usize, w: usize, out: usize) -> Option<ShapeRule> {
    if w != x {
        Some(ShapeRule::Length { of: Operand::Weights, got: w, expected: x })
    } else if out != x {
        Some(ShapeRule::Length { of: Operand::Output, got: out, expected: x })
    } else {
        None
    }
}

/// Checks a normalisation: the input, the gains and the output are equally wide.
pub fn rmsnorm(x: usize, w: usize, out: usize) -> (ok: Result<(), Error>)
    ensures
        answers(ok, rmsnorm_fault(x, w, out)),
{
    if w != x {
        return Err(
            Error::Shape(ShapeRule::Length { of: Operand::Weights, got: w, expected: x }),
        );
    }
    if out != x {
        return Err(
            Error::Shape(ShapeRule::Length { of: Operand::Output, got: out, expected: x }),
        );
    }
    Ok(())
}

/// The sizes of a table of rotations.
#[derive(Debug, Clone, Copy, PartialEq, Eq, Structural)]
pub struct RopeTable {
    /// Places it covers.
    pub max_seq: usize,
    /// Rotations at each place.
    pub half_dim: usize,
}

impl RopeTable {
    /// The sizes of a table for heads of a width, which must be even.
    pub fn new(max_seq: usize, head_dim: usize) -> (table: Result<RopeTable, Error>)
        ensures
            match table {
                Ok(t) => {
                    &&& head_dim != 0
                    &&& head_dim % 2 == 0
                    &&& t.max_seq == max_seq
                    &&& t.half_dim * 2 == head_dim
                },
                Err(e) => {
                    &&& head_dim == 0 || head_dim % 2 != 0
                    &&& e == Error::Shape(ShapeRule::OddHead(head_dim))
                },
            },
    {
        if head_dim % 2 != 0 || head_dim == 0 {
            return Err(Error::Shape(ShapeRule::OddHead(head_dim)));
        }
        Ok(RopeTable { max_seq, half_dim: head_dim / 2 })
    }

    /// Bytes resident on the device: a cosine and a sine for every rotation.
    pub fn bytes(&self) -> (n: usize)
        requires
            self.max_seq * self.half_dim * 8 <= usize::MAX,
        ensures
            n == self.max_seq * self.half_dim * 8,
    {
        self.max_seq * self.half_dim * 8
    }
}

/// The sizes of the cache of one block.
#[derive(Debug, Clone, Copy, PartialEq, Eq, Structural)]
pub struct KvCache {
    /// Key/value heads.
    pub n_kv: usize,
    /// Width of a head.
    pub head_dim: usize,
    /// Tokens it can hold.
    pub max_seq: usize,
    /// Elements of the scratch that partial sums of attention go to.
    pub partials: usize,
}

impl KvCache {
    /// The sizes of a cache, where `floats` is the scratch the device asks for.
    /// There is always some scratch.
    pub fn new(n_kv: usize, head_dim: usize, max_seq: usize, floats: i32) -> (cache: KvCache)
        ensures
            cache == (KvCache {
                n_kv,
                head_dim,
                max_seq,
                partials: if floats < 1 {
                    1
                } else {
                    floats as usize
                },
            }),
    {
        KvCache {
            n_kv,
            head_dim,
            max_seq,
            partials: if floats < 1 {
                1
            } else {
                floats as usize
            },
        }
    }

    /// The elements of the keys, and of the values.
    pub open spec fn elements(self) -> int {
        self.n_kv * self.max_seq * self.head_dim
    }

    /// The elements of the keys, and of the values.
    pub fn len(&self) -> (n: usize)
        requires
            self.n_kv * self.max_seq <= usize::MAX,
            self.elements() <= usize::MAX,
        ensures
            n == self.elements(),
    {
        self.n_kv * self.max_seq * self.head_dim
    }

    /// Bytes resident on the device.
    pub fn bytes(&self) -> (n: usize)
        requires
            self.n_kv * self.max_seq <= usize::MAX,
            self.elements() * 4 + self.partials * 4 <= usize::MAX,
        ensures
            n == self.elements() * 4 + self.partials * 4,
    {
        proof {
            assert(0 <= self.elements()) by (nonlinear_arith)
                requires
                    self.elements() == self.n_kv * self.max_seq * self.head_dim,
            ;
        }
        self.len() * 4 + self.partials * 4
    }
}

/// Whether a table of rotations is for a cache.
pub open spec fn table_fits(table: RopeTable, cache: KvCache) -> bool {
    table.half_dim == cache.head_dim / 2 && table.max_seq >= cache.max_seq
}

/// What is wrong with a rotation and an append to the cache, if anything.
pub open spec fn rope_cache_fault(
    qkv: usize,
    cache: KvCache,
    table: RopeTable,
    n_q: usize,
) -> Option<ShapeRule> {
    if qkv != qkv_width(n_q as int, cache.n_kv as int, cache.head_dim as int) {
        Some(
            ShapeRule::Heads {
                of: Operand::Qkv,
                got: qkv,
                rows: 1,
                n_q,
                n_kv: cache.n_kv,
                head_dim: cache.head_dim,
            },
        )
    } else if !table_fits(table, cache) {
        Some(ShapeRule::RotaryTable)
    } else {
        None
    }
}

/// Checks a rotation and an append to the cache.
pub fn rope_cache(qkv: usize, cache: &KvCache, table: &RopeTable, n_q: usize) -> (ok: Result<
    (),
    Error,
>)
    ensures
        answers(ok, rope_cache_fault(qkv, *cache, *table, n_q)),
{
    let fits: bool = match qkv_stride(n_q, cache.n_kv, cache.head_dim) {
        Some(n) => qkv == n,
        None => false,
    };
    if !fits {
        return Err(
            Error::Shape(
                ShapeRule::Heads {
                    of: Operand::Qkv,
                    got: qkv,
                    rows: 1,
                    n_q,
                    n_kv: cache.n_kv,
                    head_dim: cache.head_dim,
                },
            ),
        );
    }
    if table.half_dim != cache.head_dim / 2 || table.max_seq < cache.max_seq {
        return Err(Error::Shape(ShapeRule::RotaryTable));
    }
    Ok(())
}

/// What is wrong with an attention over the cache, if anything.
pub open spec fn attn_decode_fault(qkv: usize, cache: KvCache, out: usize, n_q: usize) -> Option<
    ShapeRule,
> {
    if qkv < n_q * cache.head_dim {
        Some(ShapeRule::Rows { of: Operand::Qkv, got: qkv, rows: n_q, width: cache.head_dim })
    } else if out != n_q * cache.head_dim {
        Some(ShapeRule::Matrix { of: Operand::Output, got: out, rows: n_q, width: cache.head_dim })
    } else {
        None
    }
}

/// Checks an attention over the cache: there are at least all queries to read,
/// and exactly as much room to write.
pub fn attn_decode(qkv: usize, cache: &KvCache, out: usize, n_q: usize) -> (ok: Result<(), Error>)
    ensures
        answers(ok, attn_decode_fault(qkv, *cache, out, n_q)),
{
    if !holds(qkv, n_q, cache.head_dim) {
        return Err(
            Error::Shape(
                ShapeRule::Rows { of: Operand::Qkv, got: qkv, rows: n_q, width: cache.head_dim },
            ),
        );
    }
    if !exactly(out, n_q, cache.head_dim) {
        return Err(
            Error::Shape(
                ShapeRule::Matrix {
                    of: Operand::Output,
                    got: out,
                    rows: n_q,
                    width: cache.head_dim,
                },
            ),
        );
    }
    Ok(())
}

/// What is wrong with a gated activation, if anything.
pub open spec fn swiglu_fault(gate_up: usize, out: usize) -> Option<ShapeRule> {
    if gate_up != 2 * out {
        Some(ShapeRule::Matrix { of: Operand::GateUp, got: gate_up, rows: 2, width: out })
    } else {
        None
    }
}

/// Checks a gated activation: two halves become one.
pub fn swiglu(gate_up: usize, out: usize) -> (ok: Result<(), Error>)
    ensures
        answers(ok, swiglu_fault(gate_up, out)),
{
    if !exactly(gate_up, 2, out) {
        return Err(
            Error::Shape(
                ShapeRule::Matrix { of: Operand::GateUp, got: gate_up, rows: 2, width: out },
            ),
        );
    }
    Ok(())
}

/// Checks a gather from a dense table, and says how many rows the table has.
pub fn embed_fp16(table: usize, out: usize) -> (rows: Result<usize, Error>)
    ensures
        match rows {
            Ok(rows) => out != 0 && table % out == 0 && rows * out == table,
            Err(e) => (out == 0 || table % out != 0) && e == Error::Shape(
                ShapeRule::Width { width: table, multiple: out },
            ),
        },
{
    if out == 0 || table % out != 0 {
        return Err(Error::Shape(ShapeRule::Width { width: table, multiple: out }));
    }
    let rows: usize = table / out;
    assert(rows * out == table) by (nonlinear_arith)
        requires
            0 < out,
            table % out == 0,
            rows == table / out,
    ;
    Ok(rows)
}

/// The rows of a packed table: eight weights to a word.
pub open spec fn packed_rows(qw: usize, hidden: usize) -> int {
    qw as int / (hidden as int / 8)
}

/// What is wrong with a gather from a table packed in groups of 128, if anything.
pub open spec fn embed_int4_fault(qw: usize, sz: usize, out: usize) -> Option<ShapeRule> {
    if out == 0 || out % GROUP != 0 {
        Some(ShapeRule::Width { width: out, multiple: GROUP })
    } else if sz != packed_rows(qw, out) * out / (GROUP as int) {
        Some(
            ShapeRule::Matrix {
                of: Operand::Scales,
                got: sz,
                rows: packed_rows(qw, out) as usize,
                width: (out / GROUP) as usize,
            },
        )
    } else {
        None
    }
}

/// Whether there is one unit of scales for each group of each row.
fn groups_match(len: usize, rows: usize, width: usize, group: usize) -> (yes: bool)
    requires
        0 < group,
        width % group == 0,
    ensures
        yes == (len == rows * width / (group as int)),
{
    let per_row: usize = width / group;
    assert(rows * width / (group as int) == rows * per_row) by {
        let a = rows as int;
        let b = width as int;
        let d = group as int;
        let w = per_row as int;
        assert(b == w * d) by (nonlinear_arith)
            requires
                0 < d,
                b % d == 0,
                w == b / d,
        ;
        assert(a * b == (a * w) * d) by (nonlinear_arith)
            requires
                b == w * d,
        ;
        assert((a * w) * d / d == a * w) by (nonlinear_arith)
            requires
                0 < d,
        ;
    }
    exactly(len, rows, per_row)
}

/// Checks a gather from a table packed in groups of 128.
pub fn embed_int4(qw: usize, sz: usize, out: usize) -> (ok: Result<(), Error>)
    ensures
        answers(ok, embed_int4_fault(qw, sz, out)),
{
    if out == 0 || out % GROUP != 0 {
        return Err(Error::Shape(ShapeRule::Width { width: out, multiple: GROUP }));
    }
    let rows: usize = qw / (out / 8);
    if !groups_match(sz, rows, out, GROUP) {
        return Err(
            Error::Shape(
                ShapeRule::Matrix { of: Operand::Scales, got: sz, rows, width: out / GROUP },
            ),
        );
    }
    Ok(())
}

/// What is wrong with a gather from a table in the hierarchical format, if
/// anything.
pub open spec fn embed_int4_hier_fault(qw: usize, si: usize, sb: usize, out: usize) -> Option<
    ShapeRule,
> {
    if out == 0 || out % HGROUP != 0 {
        Some(ShapeRule::Width { width: out, multiple: HGROUP })
    } else if si != packed_rows(qw, out) * out / (HGROUP as int) || sb != packed_rows(qw, out) {
        Some(
            ShapeRule::Arrays {
                in_features: out,
                out_features: packed_rows(qw, out) as usize,
            },
        )
    } else {
        None
    }
}

/// Checks a gather from a table in the hierarchical format.
pub fn embed_int4_hier(qw: usize, si: usize, sb: usize, out: usize) -> (ok: Result<(), Error>)
    ensures
        answers(ok, embed_int4_hier_fault(qw, si, sb, out)),
{
    if out == 0 || out % whetstone_hgroup() != 0 {
        return Err(Error::Shape(ShapeRule::Width { width: out, multiple: HGROUP }));
    }
    let rows: usize = qw / (out / 8);
    if !groups_match(si, rows, out, HGROUP) || sb != rows {
        return Err(Error::Shape(ShapeRule::Arrays { in_features: out, out_features: rows }));
    }
    Ok(())
}

/// Weights per group of the hierarchical format.
pub fn whetstone_hgroup() -> (n: usize)
    ensures
        n == HGROUP,
{
    HGROUP
}

/// What is wrong with a choice of the highest score, if anything.
pub open spec fn argmax_fault(logits: usize, out: usize) -> Option<ShapeRule> {
    if out != 1 {
        Some(ShapeRule::Length { of: Operand::Output, got: out, expected: 1 })
    } else if logits == 0 {
        Some(ShapeRule::Empty(Operand::Logits))
    } else {
        None
    }
}

/// Checks a choice of the highest score: there is room for one index, and there
/// is a score.
pub fn argmax(logits: usize, out: usize) -> (ok: Result<(), Error>)
    ensures
        answers(ok, argmax_fault(logits, out)),
{
    if out != 1 {
        return Err(Error::Shape(ShapeRule::Length { of: Operand::Output, got: out, expected: 1 }));
    }
    if logits == 0 {
        return Err(Error::Shape(ShapeRule::Empty(Operand::Logits)));
    }
    Ok(())
}

/// What is wrong with a score of one token, if anything.
pub open spec fn nll_fault(logits: usize, target: u32, acc: usize) -> Option<ShapeRule> {
    if acc < 2 {
        Some(ShapeRule::Rows { of: Operand::Accumulator, got: acc, rows: 1, width: 2 })
    } else if target >= logits {
        Some(ShapeRule::Target { target, vocab: logits })
    } else {
        None
    }
}

/// Checks a score of one token: there is room for a sum and a count, and the
/// token is in the vocabulary.
pub fn nll(logits: usize, target: u32, acc: usize) -> (ok: Result<(), Error>)
    ensures
        answers(ok, nll_fault(logits, target, acc)),
{
    if acc < 2 {
        return Err(
            Error::Shape(
                ShapeRule::Rows { of: Operand::Accumulator, got: acc, rows: 1, width: 2 },
            ),
        );
    }
    if target as u64 >= logits as u64 {
        return Err(Error::Shape(ShapeRule::Target { target, vocab: logits }));
    }
    Ok(())
}

} // verus!
