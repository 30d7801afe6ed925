//! Which calls of the kernels go through.
//!
//! A kernel reads and writes as far as the shapes say, whatever the buffers hold.
//! Each law says of a kernel exactly which sizes are let through; a size that is
//! let through and should not be is read or written past its end.

use vstd::prelude::*;

use crate::kernels::chunk;
use crate::kernels::decode;
use crate::kernels::decode::{
    attn_decode_fault, embed_int4_fault, embed_int4_hier_fault, nll_fault, packed_rows, table_fits,
    KvCache, RopeTable,
};
use crate::kernels::gemv::{
    bias_fault, comma_parts, dense_fault, gemm_fault, number_in, numbers_among, packed_len,
    row_fault, rule_in, vectors_fault,
};
use crate::kernels::moe::{accumulate_fault, router_fault, ExpertChoice, MAX_EXPERTS};
use crate::kernels::rescore::{apply_fault, blocks_for, cap_for, HeadRescore};
use crate::kernels::{
    answers, qkv_width, status_error, unknown_status, up_to_zero, Error, Operand, ShapeRule,
};
use crate::number::{signed_decimal, signed_text};
use crate::text::trimmed;

verus! {

// -------------------------------------------------------------- projections

/// A projection of one vector goes through exactly where what it reads is as wide
/// as the matrix, what it writes and what is added are as long as it, and a dense
/// matrix has an element for every place. Of several faults the first of matrix,
/// input, output and bias is named.
pub proof fn projections_that_go_through(
    w: usize,
    x: usize,
    bias: Option<usize>,
    y: usize,
    width: usize,
    rows: usize,
)
    ensures
        vectors_fault(width, rows, x, bias, y) is None <==> x == width && y == rows && (bias is None || bias
            == Some(rows)),
        dense_fault(w, x, bias, y, width, rows) is None <==> w == rows * width && x == width && y == rows && (bias
            is None || bias == Some(rows)),
        x != width ==> vectors_fault(width, rows, x, bias, y) == Some(
            (ShapeRule::Length { of: Operand::X, got: x, expected: width }),
        ),
        x == width && y != rows ==> vectors_fault(width, rows, x, bias, y) == Some(
            (ShapeRule::Length { of: Operand::Y, got: y, expected: rows }),
        ),
        bias matches Some(b) ==> b != rows ==> bias_fault(rows, bias) == Some(
            (ShapeRule::Length { of: Operand::Bias, got: b, expected: rows }),
        ),
        row_fault(width, y) is None <==> y == width,
{
    assert(width * rows == rows * width) by (nonlinear_arith);
}

/// A projection of several vectors goes through exactly where there is one, there
/// are as many to read and as much room to write, and the bias and a dense matrix
/// fit.
pub proof fn projections_of_several_that_go_through(
    w: usize,
    x: usize,
    bias: Option<usize>,
    y: usize,
    width: usize,
    rows: usize,
    n: usize,
)
    ensures
        gemm_fault(width, rows, x, bias, y, n) is None <==> 0 < n && n * width <= x && n * rows <= y && (bias
            is None || bias == Some(rows)),
        chunk::gemm_fp16_fault(w, x, bias, y, width, rows, n) is None <==> 0 < n && n * width <= x && n * rows <= y
            && w == rows * width && (bias is None || bias == Some(rows)),
        chunk::rows_fault(x, y, width, rows, n) is None <==> 0 < n && n * width <= x && n * rows <= y,
        n == 0 ==> gemm_fault(width, rows, x, bias, y, n) == Some(ShapeRule::NoRows),
{
    assert(width * rows == rows * width) by (nonlinear_arith);
}

/// A packed matrix takes a unit for every `per` weights.
pub proof fn packed_matrices_take_whole_units(rows: usize, width: usize, per: usize)
    requires
        0 < per,
        width % per == 0,
    ensures
        packed_len(rows, width, per) * per == rows * width,
{
    let a = rows as int;
    let d = per as int;
    let w = width as int / d;
    assert(width == w * d) by (nonlinear_arith)
        requires
            0 < d,
            width as int % d == 0,
            w == width as int / d,
    ;
    assert(a * (w * d) == (a * w) * d) by (nonlinear_arith);
    assert((a * w) * d / d == a * w) by (nonlinear_arith)
        requires
            0 < d,
    ;
}

// ------------------------------------------------------------------ one token

/// A normalisation goes through exactly where input, gains and output are equally
/// wide; of several rows, where there is one, they fit, and the gains are as wide
/// as a row.
pub proof fn normalisations_that_go_through(x: usize, w: usize, out: usize, dim: usize, n: usize)
    ensures
        decode::rmsnorm_fault(x, w, out) is None <==> x == w && x == out,
        chunk::rmsnorm_fault(x, w, out, dim, n) is None <==> 0 < n && n * dim <= x && n * dim <= out && w == dim,
{
}

/// A row of queries, keys and values has a head's width for every query head and
/// two for every key/value head.
pub proof fn rows_hold_queries_keys_and_values(n_q: int, n_kv: int, head_dim: int)
    ensures
        qkv_width(n_q, n_kv, head_dim) == n_q * head_dim + n_kv * head_dim + n_kv * head_dim,
{
    assert((n_q + 2 * n_kv) * head_dim == n_q * head_dim + n_kv * head_dim + n_kv * head_dim) by (nonlinear_arith);
}

/// A rotation goes through exactly where the row holds the heads, and the table is
/// for heads of that width and covers the cache.
pub proof fn rotations_that_go_through(qkv: usize, cache: KvCache, table: RopeTable, n_q: usize)
    ensures
        decode::rope_cache_fault(qkv, cache, table, n_q) is None <==> qkv == n_q * cache.head_dim + cache.n_kv
            * cache.head_dim + cache.n_kv * cache.head_dim && table.half_dim == cache.head_dim / 2
            && cache.max_seq <= table.max_seq,
        table_fits(table, cache) <==> table.half_dim == cache.head_dim / 2 && cache.max_seq <= table.max_seq,
{
    rows_hold_queries_keys_and_values(n_q as int, cache.n_kv as int, cache.head_dim as int);
}

/// A rotation of several rows goes through exactly where there are as many rows,
/// the table fits, the rows stay in the cache, and gains are as wide as a head.
pub proof fn rotations_of_several_that_go_through(
    qkv: usize,
    cache: KvCache,
    table: RopeTable,
    n_q: usize,
    pos0: usize,
    n: usize,
    gains: Option<(usize, usize)>,
)
    ensures
        chunk::rope_cache_fault(qkv, cache, table, n_q, pos0, n, gains) is None <==> n * qkv_width(
            n_q as int,
            cache.n_kv as int,
            cache.head_dim as int,
        ) <= qkv && table.half_dim == cache.head_dim / 2 && cache.max_seq <= table.max_seq && pos0 + n
            <= cache.max_seq && (gains is None || gains == Some((cache.head_dim, cache.head_dim))),
{
}

/// Attention goes through exactly where there are all queries to read and as much
/// room to write; of several rows, where the rows hold the heads, the output holds
/// the queries of every row, and the rows stay in the cache.
pub proof fn attentions_that_go_through(qkv: usize, cache: KvCache, out: usize, n_q: usize, pos0: usize, n: usize)
    ensures
        attn_decode_fault(qkv, cache, out, n_q) is None <==> n_q * cache.head_dim <= qkv && out == n_q
            * cache.head_dim,
        chunk::attn_fault(qkv, cache, out, n_q, pos0, n) is None <==> n * qkv_width(
            n_q as int,
            cache.n_kv as int,
            cache.head_dim as int,
        ) <= qkv && n * (n_q * cache.head_dim) <= out && pos0 + n <= cache.max_seq,
        chunk::query_elements(n, n_q, cache.head_dim) == n * (n_q * cache.head_dim),
{
    let a = n as int;
    let b = n_q as int;
    let d = cache.head_dim as int;
    assert(a * b * d == a * (b * d)) by (nonlinear_arith);
}

/// The cache of a block has a head's width for every head and place, in keys and
/// again in values.
pub proof fn caches_have_a_place_for_every_head(cache: KvCache)
    ensures
        cache.elements() == cache.max_seq * (cache.n_kv * cache.head_dim),
{
    let a = cache.n_kv as int;
    let b = cache.max_seq as int;
    let d = cache.head_dim as int;
    assert(a * b * d == b * (a * d)) by (nonlinear_arith);
}

/// A gated product goes through exactly where there are two halves to read for
/// what is written; of several rows, for each.
pub proof fn gated_products_that_go_through(gate_up: usize, out: usize, inter: usize, n: usize)
    ensures
        decode::swiglu_fault(gate_up, out) is None <==> gate_up == out + out,
        chunk::swiglu_fault(gate_up, out, inter, n) is None <==> n * inter + n * inter <= gate_up && n * inter
            <= out,
{
}

/// A gather from a table in groups of 128 goes through exactly where the row is
/// whole groups, and there is a word of scales for each group of the rows that the
/// words of levels make.
pub proof fn gathers_that_go_through(qw: usize, si: usize, sz: usize, sb: usize, out: usize, rows: int)
    requires
        0 < out,
        out % 8 == 0,
        rows * (out as int / 8) <= qw < (rows + 1) * (out as int / 8),
    ensures
        packed_rows(qw, out) == rows,
        embed_int4_fault(qw, sz, out) is None <==> out % 128 == 0 && sz * 128 == rows * out,
        embed_int4_hier_fault(qw, si, sb, out) is None <==> out % 32 == 0 && si * 32 == rows * out && sb == rows,
{
    let words = out as int / 8;
    assert(words * rows == rows * words) by (nonlinear_arith);
    assert((rows + 1) * words == rows * words + words) by (nonlinear_arith);
    vstd::arithmetic::div_mod::lemma_fundamental_div_mod_converse(qw as int, words, rows, qw - rows * words);
    if out % 32 == 0 {
        lemma_whole_groups(rows, out as int, 32, si as int);
    }
    if out % 128 == 0 {
        lemma_whole_groups(rows, out as int, 128, sz as int);
    }
}

proof fn lemma_whole_groups(rows: int, width: int, group: int, len: int)
    requires
        0 < group,
        width % group == 0,
    ensures
        len == rows * width / group <==> len * group == rows * width,
{
    let w = width / group;
    assert(width == w * group) by (nonlinear_arith)
        requires
            0 < group,
            width % group == 0,
            w == width / group,
    ;
    assert(rows * (w * group) == (rows * w) * group) by (nonlinear_arith);
    assert((rows * w) * group / group == rows * w) by (nonlinear_arith)
        requires
            0 < group,
    ;
    if len * group == (rows * w) * group {
        assert(len == rows * w) by (nonlinear_arith)
            requires
                len * group == (rows * w) * group,
                0 < group,
        ;
    }
}

/// A gather of several rows goes through exactly where there is one, there is a
/// token for each, and room for each.
pub proof fn gathers_of_several_that_go_through(tokens: usize, out: usize, hidden: usize, n: usize)
    ensures
        chunk::gather_fault(tokens, out, hidden, n) is None <==> 0 < n && n <= tokens && n * hidden <= out,
{
}

/// A choice goes through exactly where there is a score and room for one index; of
/// several rows, where there are scores and room for each.
pub proof fn choices_that_go_through(logits: usize, out: usize, vocab: usize, n: usize)
    ensures
        decode::argmax_fault(logits, out) is None <==> out == 1 && 0 < logits,
        chunk::argmax_fault(logits, out, vocab, n) is None <==> n * vocab <= logits && n <= out,
{
}

/// The score of a token is taken exactly where there is room for a sum and a count
/// and the token has a score.
pub proof fn scores_that_are_taken(logits: usize, target: u32, acc: usize)
    ensures
        nll_fault(logits, target, acc) is None <==> 2 <= acc && target < logits,
{
}

// ------------------------------------------------------ experts and rescoring

/// No more than 1024 experts can be routed.
pub proof fn experts_that_can_be_routed(n: usize)
    ensures
        n <= MAX_EXPERTS <==> n <= 1024,
{
}

/// A routing goes through exactly where there is a score for each expert, and an
/// expert's output is added exactly where it is as wide as the sum and its place
/// is among the chosen.
pub proof fn routings_that_go_through(logits: usize, choice: ExpertChoice, dst: usize, src: usize, slot: usize)
    ensures
        router_fault(logits, choice) is None <==> logits == choice.n_experts,
        accumulate_fault(dst, src, choice, slot) is None <==> dst == src && slot < choice.k,
{
}

/// Sixteen times as many leaders can be rescored as must be, or all there are.
/// The vocabulary is searched in blocks of 256, as many as it takes, but no more
/// than 512.
pub proof fn rescoring_has_room(k: int, vocab: int, n: int)
    requires
        1 <= k <= vocab,
    ensures
        n <= cap_for(k, vocab) <==> n <= 16 * k && n <= vocab,
        blocks_for(vocab) <= 512,
        (blocks_for(vocab) - 1) * 256 < vocab,
        vocab <= 512 * 256 ==> vocab <= blocks_for(vocab) * 256,
        vocab > 512 * 256 ==> blocks_for(vocab) == 512,
{
}

/// A rescoring goes through exactly where there is a score for each token and the
/// activation is as wide as the projection.
pub proof fn rescorings_that_go_through(r: HeadRescore, logits: usize, x: usize)
    ensures
        apply_fault(r, logits, x) is None <==> logits == r.vocab && x == r.hidden,
{
}

// ------------------------------------------------------------------- answers

/// A check lets a call through where nothing is wrong with it, and otherwise
/// answers with what is.
pub proof fn checks_answer_with_the_fault(ok: Result<(), Error>, fault: Option<ShapeRule>)
    requires
        answers(ok, fault),
    ensures
        ok is Ok <==> fault is None,
        fault matches Some(rule) ==> ok matches Err(e) && e matches Error::Shape(r) && r == rule,
{
}

/// Every status code has its own meaning, and comes with the device's words.
pub proof fn status_codes_have_their_meanings(status: i32, words: Seq<char>, e: Error)
    requires
        status_error(status, words, e),
    ensures
        e is InvalidArg <==> status == 2,
        e is UnsupportedArch <==> status == 3,
        e is Oom <==> status == 4,
        e is Shape <==> status == 5,
        e is Cuda <==> status < 2 || 5 < status,
        e !is NoDevice,
        status == 1 ==> (e matches Error::Cuda(w) && w@ == words),
        status == 2 ==> (e matches Error::InvalidArg(w) && w@ == words),
        status == 3 ==> (e matches Error::UnsupportedArch(w) && w@ == words),
        status == 4 ==> (e matches Error::Oom(w) && w@ == words),
        status == 5 ==> (e matches Error::Shape(ShapeRule::Device(w)) && w@ == words),
        status < 1 || 5 < status ==> (e matches Error::Cuda(w) && w@ == "unknown status "@ + signed_text(
            status as int,
        ) + ": "@ + words),
{
    assert(unknown_status(status, words) == "unknown status "@ + signed_text(status as int) + ": "@ + words);
}

/// A device's name is what stands before the first zero of its field, or all of it
/// where there is none.
pub proof fn names_end_at_the_first_zero(field: Seq<u8>)
    ensures
        up_to_zero(field).is_prefix_of(field),
        forall|i: int| 0 <= i < up_to_zero(field).len() ==> #[trigger] up_to_zero(field)[i] != 0,
        up_to_zero(field).len() < field.len() ==> field[up_to_zero(field).len() as int] == 0,
    decreases field.len(),
{
    if field.len() > 0 && field[0] != 0 {
        let rest = field.skip(1);
        names_end_at_the_first_zero(rest);
        let name = up_to_zero(field);
        assert forall|i: int| 0 <= i < name.len() implies #[trigger] name[i] != 0 && name[i] == field[i] by {
            if i > 0 {
                assert(name[i] == up_to_zero(rest)[i - 1]);
                assert(up_to_zero(rest)[i - 1] == rest[i - 1]);
            }
        }
        assert(name =~= field.take(name.len() as int));
    }
}

// ---------------------------------------------------------------- tile rules

/// A text is cut at its commas: what stands before the first is the first part,
/// and the rest is cut in the same way.
pub proof fn texts_are_cut_at_commas(part: Seq<char>, rest: Seq<char>)
    requires
        forall|i: int| 0 <= i < part.len() ==> #[trigger] part[i] != ',',
    ensures
        comma_parts(part) == seq![part],
        comma_parts(part + seq![','] + rest) == seq![part] + comma_parts(rest),
    decreases part.len() + rest.len(),
{
    if part.len() == 0 {
        assert(part =~= Seq::<char>::empty());
    } else {
        let front = part.drop_last();
        texts_are_cut_at_commas(front, Seq::empty());
        assert(front.push(part.last()) =~= part);
        assert(part[part.len() - 1] != ',');
        assert(seq![front].drop_last().push(part) =~= seq![part]);
        assert(comma_parts(part) =~= seq![part]);
    }
    let text = part + seq![','] + rest;
    if rest.len() == 0 {
        assert(text.drop_last() =~= part);
        assert(rest =~= Seq::<char>::empty());
        assert(comma_parts(text) =~= seq![part] + comma_parts(rest));
    } else {
        let front = rest.drop_last();
        texts_are_cut_at_commas(part, front);
        assert(text.drop_last() =~= part + seq![','] + front);
        lemma_some_part(front);
        let parts = comma_parts(front);
        assert((seq![part] + parts).drop_last() =~= seq![part] + parts.drop_last());
        assert(comma_parts(text) =~= seq![part] + comma_parts(rest));
    }
}

proof fn lemma_some_part(s: Seq<char>)
    ensures
        comma_parts(s).len() > 0,
    decreases s.len(),
{
    if s.len() > 0 {
        lemma_some_part(s.drop_last());
    }
}

/// A rule is three numbers between commas, in their order; each may have white
/// space round it.
pub proof fn rules_are_three_numbers(a: Seq<char>, b: Seq<char>, c: Seq<char>, x: i32, y: i32, z: i32)
    requires
        forall|i: int| 0 <= i < a.len() ==> #[trigger] a[i] != ',',
        forall|i: int| 0 <= i < b.len() ==> #[trigger] b[i] != ',',
        forall|i: int| 0 <= i < c.len() ==> #[trigger] c[i] != ',',
        signed_decimal(trimmed(a)) == Some(x as int),
        signed_decimal(trimmed(b)) == Some(y as int),
        signed_decimal(trimmed(c)) == Some(z as int),
    ensures
        rule_in(a + seq![','] + (b + seq![','] + c)) == Some((x, y, z)),
        rule_in(a + seq![','] + b) is None,
        rule_in(a) is None,
{
    texts_are_cut_at_commas(c, Seq::empty());
    texts_are_cut_at_commas(b, c);
    texts_are_cut_at_commas(a, b + seq![','] + c);
    texts_are_cut_at_commas(a, b);
    texts_are_cut_at_commas(b, Seq::empty());
    let three = comma_parts(a + seq![','] + (b + seq![','] + c));
    assert(three =~= seq![a, b, c]);
    let two = comma_parts(a + seq![','] + b);
    assert(two =~= seq![a, b]);
    assert(number_in(a) == Some(x) && number_in(b) == Some(y) && number_in(c) == Some(z));
    lemma_numbers(seq![a, b, c], seq![x, y, z]);
    lemma_numbers(seq![a, b], seq![x, y]);
    lemma_numbers(seq![a], seq![x]);
}

proof fn lemma_numbers(parts: Seq<Seq<char>>, numbers: Seq<i32>)
    requires
        parts.len() == numbers.len(),
        forall|i: int| 0 <= i < parts.len() ==> number_in(#[trigger] parts[i]) == Some(numbers[i]),
    ensures
        numbers_among(parts) == numbers,
    decreases parts.len(),
{
    if parts.len() == 0 {
        assert(numbers =~= Seq::<i32>::empty());
    } else {
        lemma_numbers(parts.drop_last(), numbers.drop_last());
        assert(numbers.drop_last().push(numbers.last()) =~= numbers);
    }
}

/// Parts that are no number do not count towards a rule.
pub proof fn other_parts_do_not_count(parts: Seq<Seq<char>>)
    ensures
        numbers_among(parts).len() <= parts.len(),
        numbers_among(parts) == numbers_among(parts.filter(|p: Seq<char>| signed_decimal(trimmed(p)) is Some)),
    decreases parts.len(),
{
    reveal(Seq::filter);
    let keep = |p: Seq<char>| signed_decimal(trimmed(p)) is Some;
    if parts.len() > 0 {
        let front = parts.drop_last();
        other_parts_do_not_count(front);
        if keep(parts.last()) {
            assert(front.filter(keep).push(parts.last()).drop_last() =~= front.filter(keep));
        }
    }
}

} // verus!
