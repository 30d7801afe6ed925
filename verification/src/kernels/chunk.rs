//! Kernels that run several tokens in one pass over the weights.
//!
//! Buffers may be larger than a pass needs: scratch is allocated once, at the
//! widest a pass can be, and used at whatever width the pass has.

use vstd::prelude::*;

use super::decode::{table_fits, KvCache, RopeTable};
use super::gemv::{bias_fault, check_bias};
use super::{answers, exactly, holds, qkv_stride, qkv_width, Error, Operand, ShapeRule};

verus! {

/// Tokens one pass serves, of what the device reports: at least one.
pub fn max_tokens(reported: i32) -> (n: usize)
    ensures
        n == if reported < 1 {
            1
        } else {
            reported as int
        },
{
    if reported < 1 {
        1
    } else {
        reported as usize
    }
}

/// What is wrong with the rows a pass reads and writes, if anything.
pub open spec fn rows_fault(x: usize, y: usize, in_f: usize, out_f: usize, n: usize) -> Option<
    ShapeRule,
> {
    if n == 0 {
        Some(ShapeRule::NoRows)
    } else if x < n * in_f {
        Some(ShapeRule::Rows { of: Operand::X, got: x, rows: n, width: in_f })
    } else if y < n * out_f {
        Some(ShapeRule::Rows { of: Operand::Y, got: y, rows: n, width: out_f })
    } else {
        None
    }
}

/// Checks the rows a pass reads and writes.
pub fn check_rows(x: usize, y: usize, in_f: usize, out_f: usize, n: usize) -> (ok: Result<
    (),
    Error,
>)
    ensures
        answers(ok, rows_fault(x, y, in_f, out_f, n)),
{
    if n == 0 {
        return Err(Error::Shape(ShapeRule::NoRows));
    }
    if !holds(x, n, in_f) {
        return Err(
            Error::Shape(ShapeRule::Rows { of: Operand::X, got: x, rows: n, width: in_f }),
        );
    }
    if !holds(y, n, out_f) {
        return Err(
            Error::Shape(ShapeRule::Rows { of: Operand::Y, got: y, rows: n, width: out_f }),
        );
    }
    Ok(())
}

/// What is wrong with a dense projection of several rows, if anything.
pub open spec fn gemm_fp16_fault(
    w: usize,
    x: usize,
    bias: Option<usize>,
    y: usize,
    in_features: usize,
    out_features: usize,
    n: usize,
) -> Option<ShapeRule> {
    match rows_fault(x, y, in_features, out_features, n) {
        Some(rule) => Some(rule),
        None => if w != in_features * out_features {
            Some(
                ShapeRule::Matrix {
                    of: Operand::Weights,
                    got: w,
                    rows: out_features,
                    width: in_features,
                },
            )
        } else {
            bias_fault(out_features, bias)
        },
    }
}

/// Checks a dense projection of several rows.
pub fn gemm_fp16(
    w: usize,
    x: usize,
    bias: Option<usize>,
    y: usize,
    in_features: usize,
    out_features: usize,
    n: usize,
) -> (ok: Result<(), Error>)
    ensures
        answers(ok, gemm_fp16_fault(w, x, bias, y, in_features, out_features, n)),
{
    match check_rows(x, y, in_features, out_features, n) {
        Ok(_) => {},
        Err(e) => {
            return Err(e);
        },
    }
    if !exactly(w, in_features, out_features) {
        return Err(
            Error::Shape(
                ShapeRule::Matrix {
                    of: Operand::Weights,
                    got: w,
                    rows: out_features,
                    width: in_features,
                },
            ),
        );
    }
    check_bias(out_features, bias)
}

/// What is wrong with a normalisation of several rows, if anything.
pub open spec fn rmsnorm_fault(x: usize, w: usize, out: usize, dim: usize, n: usize) -> Option<
    ShapeRule,
> {
    match rows_fault(x, out, dim, dim, n) {
        Some(rule) => Some(rule),
        None => if w != dim {
            Some(ShapeRule::Length { of: Operand::Weights, got: w, expected: dim })
        } else {
            None
        },
    }
}

/// Checks a normalisation of several rows.
pub fn rmsnorm_eps(x: usize, w: usize, out: usize, dim: usize, n: usize) -> (ok: Result<(), Error>)
    ensures
        answers(ok, rmsnorm_fault(x, w, out, dim, n)),
{
    match check_rows(x, out, dim, dim, n) {
        Ok(_) => {},
        Err(e) => {
            return Err(e);
        },
    }
    if w != dim {
        return Err(
            Error::Shape(ShapeRule::Length { of: Operand::Weights, got: w, expected: dim }),
        );
    }
    Ok(())
}

/// Whether a buffer holds this many rows of queries, keys and values.
fn holds_heads(len: usize, rows: usize, n_q: usize, n_kv: usize, head_dim: usize) -> (yes: bool)
    ensures
        yes == (len >= rows * qkv_width(n_q as int, n_kv as int, head_dim as int)),
{
    let ghost width = qkv_width(n_q as int, n_kv as int, head_dim as int);
    if rows == 0 {
        assert(0 * width == 0) by (nonlinear_arith);
        return true;
    }
    match qkv_stride(n_q, n_kv, head_dim) {
        Some(stride) => holds(len, rows, stride),
        None => {
            assert(rows * width >= width) by (nonlinear_arith)
                requires
                    1 <= rows,
                    0 <= width,
            ;
            false
        },
    }
}

/// What is wrong with rotating several rows and appending them to the cache, if
/// anything. `gains` are the widths of the gains of queries and keys, where the
/// model has them.
pub open spec fn rope_cache_fault(
    qkv: usize,
    cache: KvCache,
    table: RopeTable,
    n_q: usize,
    pos0: usize,
    n: usize,
    gains: Option<(usize, usize)>,
) -> Option<ShapeRule> {
    if qkv < n * qkv_width(n_q as int, cache.n_kv as int, cache.head_dim as int) {
        Some(
            ShapeRule::Heads {
                of: Operand::Qkv,
                got: qkv,
                rows: n,
                n_q,
                n_kv: cache.n_kv,
                head_dim: cache.head_dim,
            },
        )
    } else if !table_fits(table, cache) {
        Some(ShapeRule::RotaryTable)
    } else if pos0 + n > cache.max_seq {
        Some(ShapeRule::PastCache { pos: pos0, rows: n, capacity: cache.max_seq })
    } else {
        match gains {
            Some((q, k)) => if q != cache.head_dim || k != cache.head_dim {
                Some(ShapeRule::Gains { q, k, head_dim: cache.head_dim })
            } else {
                None
            },
            None => None,
        }
    }
}

/// Checks rotating several rows and appending them to the cache.
pub fn rope_cache(
    qkv: usize,
    cache: &KvCache,
    table: &RopeTable,
    n_q: usize,
    pos0: usize,
    n: usize,
    gains: Option<(usize, usize)>,
) -> (ok: Result<(), Error>)
    ensures
        answers(ok, rope_cache_fault(qkv, *cache, *table, n_q, pos0, n, gains)),
{
    if !holds_heads(qkv, n, n_q, cache.n_kv, cache.head_dim) {
        return Err(
            Error::Shape(
                ShapeRule::Heads {
                    of: Operand::Qkv,
                    got: qkv,
                    rows: n,
                    n_q,
                    n_kv: cache.n_kv,
                    head_dim: cache.head_dim,
                },
            ),
        );
    }
    if table.half_dim != cache.head_dim / 2 || table.max_seq < cache.max_seq {
        return Err(Error::Shape(ShapeRule::RotaryTable));
    }
    if pos0 > cache.max_seq || n > cache.max_seq - pos0 {
        return Err(
            Error::Shape(ShapeRule::PastCache { pos: pos0, rows: n, capacity: cache.max_seq }),
        );
    }
    match gains {
        Some((q, k)) => {
            if q != cache.head_dim || k != cache.head_dim {
                return Err(
                    Error::Shape(ShapeRule::Gains { q, k, head_dim: cache.head_dim }),
                );
            }
            Ok(())
        },
        None => Ok(()),
    }
}

/// The elements of several rows of queries.
pub open spec fn query_elements(n: usize, n_q: usize, head_dim: usize) -> int {
    n * n_q * head_dim
}

/// Whether a buffer holds several rows of queries.
fn holds_queries(len: usize, n: usize, n_q: usize, head_dim: usize) -> (yes: bool)
    ensures
        yes == (len >= query_elements(n, n_q, head_dim)),
{
    if head_dim == 0 {
        assert(n * n_q * head_dim == 0) by (nonlinear_arith)
            requires
                head_dim == 0,
        ;
        return true;
    }
    match n.checked_mul(n_q) {
        Some(heads) => holds(len, heads, head_dim),
        None => {
            assert(n * n_q * head_dim >= n * n_q) by (nonlinear_arith)
                requires
                    1 <= head_dim,
            ;
            false
        },
    }
}

/// What is wrong with the attention of several rows, if anything.
pub open spec fn attn_fault(
    qkv: usize,
    cache: KvCache,
    out: usize,
    n_q: usize,
    pos0: usize,
    n: usize,
) -> Option<ShapeRule> {
    if qkv < n * qkv_width(n_q as int, cache.n_kv as int, cache.head_dim as int) {
        Some(
            ShapeRule::Heads {
                of: Operand::Qkv,
                got: qkv,
                rows: n,
                n_q,
                n_kv: cache.n_kv,
                head_dim: cache.head_dim,
            },
        )
    } else if out < query_elements(n, n_q, cache.head_dim) {
        Some(
            ShapeRule::Heads {
                of: Operand::Output,
                got: out,
                rows: n,
                n_q,
                n_kv: 0,
                head_dim: cache.head_dim,
            },
        )
    } else if pos0 + n > cache.max_seq {
        Some(ShapeRule::PastCache { pos: pos0, rows: n, capacity: cache.max_seq })
    } else {
        None
    }
}

/// Checks the attention of several rows.
pub fn attn(qkv: usize, cache: &KvCache, out: usize, n_q: usize, pos0: usize, n: usize) -> (ok:
    Result<(), Error>)
    ensures
        answers(ok, attn_fault(qkv, *cache, out, n_q, pos0, n)),
{
    if !holds_heads(qkv, n, n_q, cache.n_kv, cache.head_dim) {
        return Err(
            Error::Shape(
                ShapeRule::Heads {
                    of: Operand::Qkv,
                    got: qkv,
                    rows: n,
                    n_q,
                    n_kv: cache.n_kv,
                    head_dim: cache.head_dim,
                },
            ),
        );
    }
    if !holds_queries(out, n, n_q, cache.head_dim) {
        return Err(
            Error::Shape(
                ShapeRule::Heads {
                    of: Operand::Output,
                    got: out,
                    rows: n,
                    n_q,
                    n_kv: 0,
                    head_dim: cache.head_dim,
                },
            ),
        );
    }
    if pos0 > cache.max_seq || n > cache.max_seq - pos0 {
        return Err(
            Error::Shape(ShapeRule::PastCache { pos: pos0, rows: n, capacity: cache.max_seq }),
        );
    }
    Ok(())
}

/// What is wrong with the gated activation of several rows, if anything.
pub open spec fn swiglu_fault(gate_up: usize, out: usize, inter: usize, n: usize) -> Option<
    ShapeRule,
> {
    if gate_up < 2 * (n * inter) {
        Some(ShapeRule::Rows { of: Operand::GateUp, got: gate_up, rows: n, width: inter })
    } else if out < n * inter {
        Some(ShapeRule::Rows { of: Operand::Output, got: out, rows: n, width: inter })
    } else {
        None
    }
}

/// Checks the gated activation of several rows: there are two halves to read for
/// each row that is written.
pub fn swiglu(gate_up: usize, out: usize, inter: usize, n: usize) -> (ok: Result<(), Error>)
    ensures
        answers(ok, swiglu_fault(gate_up, out, inter, n)),
{
    let enough: bool = match n.checked_mul(inter) {
        Some(half) => holds(gate_up, 2, half),
        None => false,
    };
    if !enough {
        return Err(
            Error::Shape(
                ShapeRule::Rows { of: Operand::GateUp, got: gate_up, rows: n, width: inter },
            ),
        );
    }
    if !holds(out, n, inter) {
        return Err(
            Error::Shape(ShapeRule::Rows { of: Operand::Output, got: out, rows: n, width: inter }),
        );
    }
    Ok(())
}

/// What is wrong with a gather of several rows, if anything.
pub open spec fn gather_fault(tokens: usize, out: usize, hidden: usize, n: usize) -> Option<
    ShapeRule,
> {
    if n == 0 {
        Some(ShapeRule::NoRows)
    } else if tokens < n {
        Some(ShapeRule::Rows { of: Operand::Tokens, got: tokens, rows: n, width: 1 })
    } else if out < n * hidden {
        Some(ShapeRule::Rows { of: Operand::Output, got: out, rows: n, width: hidden })
    } else {
        None
    }
}

/// Checks a gather of several rows, from whatever kind of table.
pub fn check_gather(tokens: usize, out: usize, hidden: usize, n: usize) -> (ok: Result<(), Error>)
    ensures
        answers(ok, gather_fault(tokens, out, hidden, n)),
{
    if n == 0 {
        return Err(Error::Shape(ShapeRule::NoRows));
    }
    if tokens < n {
        return Err(
            Error::Shape(ShapeRule::Rows { of: Operand::Tokens, got: tokens, rows: n, width: 1 }),
        );
    }
    if !holds(out, n, hidden) {
        return Err(
            Error::Shape(
                ShapeRule::Rows { of: Operand::Output, got: out, rows: n, width: hidden },
            ),
        );
    }
    Ok(())
}

/// What is wrong with a choice of the highest score of each row, if anything.
pub open spec fn argmax_fault(logits: usize, out: usize, vocab: usize, n: usize) -> Option<
    ShapeRule,
> {
    if logits < n * vocab {
        Some(ShapeRule::Rows { of: Operand::Logits, got: logits, rows: n, width: vocab })
    } else if out < n {
        Some(ShapeRule::Rows { of: Operand::Output, got: out, rows: n, width: 1 })
    } else {
        None
    }
}

/// Checks a choice of the highest score of each row.
pub fn argmax(logits: usize, out: usize, vocab: usize, n: usize) -> (ok: Result<(), Error>)
    ensures
        answers(ok, argmax_fault(logits, out, vocab, n)),
{
    if !holds(logits, n, vocab) {
        return Err(
            Error::Shape(
                ShapeRule::Rows { of: Operand::Logits, got: logits, rows: n, width: vocab },
            ),
        );
    }
    if out < n {
        return Err(
            Error::Shape(ShapeRule::Rows { of: Operand::Output, got: out, rows: n, width: 1 }),
        );
    }
    Ok(())
}

} // verus!
