//! What the counts count.
//!
//! Each law here says what a count is made of, or how it changes when what is
//! counted changes.

use vstd::prelude::*;

use crate::activations::{are_sizes, ActivationSizes};
use crate::checksum::checksum;
use crate::cli::tune::rule_at;
use crate::cli::verify::{bytes_of, count_of, params_len, params_of, totals_of};
use crate::config::{config_fault, ConfigFault, ModelConfig};
use crate::format::{blobs_len, entry_len, product, tensors_len, Blob, EntryView, TensorKind};
use crate::profile::{block_stages, blocks_stages, stages_are_counted, step_stages, Stage};
use crate::sampling::{pool_of, splitmix};

verus! {

// ------------------------------------------------------------- configuration

/// Heads and their width are as the configuration states them. Where it states no
/// key/value heads, every query head has its own; where it states no width, the
/// heads share the residual stream.
pub proof fn heads_are_as_stated(c: ModelConfig)
    ensures
        c.num_key_value_heads matches Some(n) ==> c.kv_heads() == n,
        c.num_key_value_heads is None ==> c.kv_heads() == c.num_attention_heads,
        c.head_dim matches Some(d) ==> c.head_width() == d,
        c.head_dim is None && c.num_attention_heads > 0 ==> c.head_width() * c.num_attention_heads
            <= c.hidden_size < (c.head_width() + 1) * c.num_attention_heads,
{
    if c.head_dim is None && c.num_attention_heads > 0 {
        let h = c.hidden_size as int;
        let n = c.num_attention_heads as int;
        vstd::arithmetic::div_mod::lemma_fundamental_div_mod(h, n);
        assert(n * (h / n) == (h / n) * n) by (nonlinear_arith);
        assert((h / n + 1) * n == (h / n) * n + n) by (nonlinear_arith);
    }
}

/// The weights of a block are those of its seven matrices: queries, keys, values
/// and the attention output, and the projections of the MLP, gate, up and down.
pub proof fn a_block_is_its_seven_matrices(c: ModelConfig)
    ensures
        ({
            let stream = c.hidden_size as int;
            let queries = c.num_attention_heads * c.head_width();
            let keys = c.kv_heads() * c.head_width();
            let inner = c.intermediate_size as int;
            &&& c.attn_weights() == queries * stream + keys * stream + keys * stream + stream * queries
            &&& c.mlp_weights() == inner * stream + inner * stream + stream * inner
            &&& c.block_weights() == c.attn_weights() + c.mlp_weights()
        }),
{
    let h = c.hidden_size as int;
    let n = c.num_attention_heads as int;
    let k = c.kv_heads() as int;
    let d = c.head_width() as int;
    let i = c.intermediate_size as int;
    assert((n * d) * h == h * n * d && h * (n * d) == h * n * d && (k * d) * h == h * k * d) by (nonlinear_arith);
    assert(i * h == h * i) by (nonlinear_arith);
}

/// A model with one block more has the weights of one block more, and one without
/// blocks has none. A vocabulary with one entry more takes one row more.
pub proof fn weights_grow_with_the_model(c: ModelConfig, taller: ModelConfig, wider: ModelConfig)
    requires
        taller.num_hidden_layers == c.num_hidden_layers + 1,
        taller.block_weights() == c.block_weights(),
        wider.vocab_size == c.vocab_size + 1,
        wider.hidden_size == c.hidden_size,
    ensures
        taller.body_weights() == c.body_weights() + c.block_weights(),
        c.num_hidden_layers == 0 ==> c.body_weights() == 0,
        wider.head_weights() == c.head_weights() + c.hidden_size,
        c.vocab_size == 0 ==> c.head_weights() == 0,
{
    let l = c.num_hidden_layers as int;
    let b = c.block_weights() as int;
    let v = c.vocab_size as int;
    let h = c.hidden_size as int;
    assert((l + 1) * b == l * b + b && (v + 1) * h == v * h + h) by (nonlinear_arith);
    assert(0 * b == 0 && 0 * h == 0) by (nonlinear_arith);
}

/// Each token adds to the cache a key and a value, for every block, of as many
/// elements as the key/value heads have; and no token takes nothing.
pub proof fn each_token_adds_a_key_and_a_value(c: ModelConfig, seq_len: nat, bytes: nat)
    ensures
        c.cache_bytes(seq_len + 1, bytes) == c.cache_bytes(seq_len, bytes) + c.num_hidden_layers * (
        c.kv_heads() * c.head_width() * bytes + c.kv_heads() * c.head_width() * bytes),
        c.cache_bytes(0, bytes) == 0,
{
    let l = c.num_hidden_layers as int;
    let k = c.kv_heads() as int;
    let d = c.head_width() as int;
    let s = seq_len as int;
    let e = bytes as int;
    assert(2 * (l * k * d * (s + 1) * e) == 2 * (l * k * d * s * e) + l * (k * d * e + k * d * e))
        by (nonlinear_arith);
    assert(2 * (l * k * d * 0 * e) == 0) by (nonlinear_arith);
}

/// Which configurations can be executed: those with a stream and heads, whose
/// heads share the stream evenly or state their width, whose key/value heads are
/// shared evenly, whose activation is `silu` by one of its names, and whose family
/// is one of the two, or not stated.
pub proof fn configurations_that_can_be_executed(c: ModelConfig)
    ensures
        config_fault(c) is None <==> {
            &&& 0 < c.hidden_size && 0 < c.num_attention_heads && 0 < c.kv_heads()
            &&& c.head_dim is Some || c.hidden_size % c.num_attention_heads == 0
            &&& c.num_attention_heads % c.kv_heads() == 0
            &&& c.hidden_act@ == "silu"@ || c.hidden_act@ == "swish"@
            &&& c.model_type@ == ""@ || c.model_type@ == "qwen2"@ || c.model_type@ == "qwen3"@
        },
        config_fault(c) == Some(ConfigFault::Zero) <==> c.hidden_size == 0 || c.num_attention_heads == 0,
        config_fault(c) == Some(ConfigFault::UnevenHeads) ==> c.head_dim is None && c.hidden_size
            % c.num_attention_heads != 0,
        config_fault(c) == Some(ConfigFault::KvHeads) ==> c.kv_heads() == 0 || c.num_attention_heads
            % c.kv_heads() != 0,
        config_fault(c) == Some(ConfigFault::Activation) ==> c.hidden_act@ != "silu"@ && c.hidden_act@
            != "swish"@,
        config_fault(c) == Some(ConfigFault::Family) ==> c.model_type@ != ""@ && c.model_type@ != "qwen2"@
            && c.model_type@ != "qwen3"@,
{
    reveal_strlit("");
    if c.model_type@.len() == 0 {
        assert(c.model_type@ =~= ""@);
    }
}

/// What passes through a pass fits its buffers: rows of the stream, rows of
/// queries with the keys and values beside them, both halves of the gated product,
/// and a score for every entry of the vocabulary.
pub proof fn buffers_hold_what_passes_through(s: ActivationSizes, c: ModelConfig, width: usize)
    requires
        are_sizes(s, c, width),
    ensures
        s.x == width * c.hidden_size,
        s.h == s.x,
        s.attn == width * (c.num_attention_heads * c.head_width()),
        s.qkv == s.attn + width * (c.kv_heads() * c.head_width()) + width * (c.kv_heads()
            * c.head_width()),
        s.act == width * c.intermediate_size,
        s.gate_up == s.act + s.act,
        s.logits == width * c.vocab_size,
        s.tokens == width,
        s.total() == 4 * (s.x + s.qkv + s.gate_up + s.logits + s.tokens + s.tokens) + 2 * (s.h + s.attn
            + s.act),
{
    let w = width as int;
    let n = c.num_attention_heads as int;
    let k = c.kv_heads() as int;
    let d = c.head_width() as int;
    let i = c.intermediate_size as int;
    assert(w * ((n + 2 * k) * d) == w * (n * d) + w * (k * d) + w * (k * d)) by (nonlinear_arith);
    assert(w * (2 * i) == w * i + w * i) by (nonlinear_arith);
}

// ------------------------------------------------------------ a decode step

proof fn lemma_block_stage(layers: nat, l: nat, j: int)
    requires
        l < layers,
        0 <= j < 10,
    ensures
        blocks_stages(layers).len() == 10 * layers,
        blocks_stages(layers)[10 * l + j] == block_stages()[j],
    decreases layers,
{
    stages_are_counted(layers);
    stages_are_counted((layers - 1) as nat);
    if l + 1 < layers {
        lemma_block_stage((layers - 1) as nat, l, j);
    }
}

/// The intervals of a decode step: the gather; of every block the normalisation,
/// the joined projection, the rotation, attention, the output projection, the
/// second normalisation, the joined gate and up projections, the gated product,
/// the down projection and the boundary; then the last normalisation, the output
/// projection, the choice and the advance.
pub proof fn every_interval_has_its_class(layers: nat, l: nat)
    ensures
        ({
            let s = step_stages(layers);
            let at = (1 + 10 * l) as int;
            let last = (1 + 10 * layers) as int;
            &&& s.len() == last + 4
            &&& s[0] == Stage::Embed
            &&& l < layers ==> {
                &&& s[at] == Stage::RmsNorm && s[at + 1] == Stage::Qkv && s[at + 2] == Stage::Rope
                &&& s[at + 3] == Stage::Attention && s[at + 4] == Stage::OProj && s[at + 5]
                    == Stage::RmsNorm
                &&& s[at + 6] == Stage::GateUp && s[at + 7] == Stage::Swiglu && s[at + 8]
                    == Stage::DownProj
                &&& s[at + 9] == Stage::Advance
            }
            &&& s[last] == Stage::RmsNorm && s[last + 1] == Stage::LmHead && s[last + 2]
                == Stage::Sample && s[last + 3] == Stage::Advance
        }),
{
    stages_are_counted(layers);
    if l < layers {
        lemma_block_stage(layers, l, 0);
        lemma_block_stage(layers, l, 1);
        lemma_block_stage(layers, l, 2);
        lemma_block_stage(layers, l, 3);
        lemma_block_stage(layers, l, 4);
        lemma_block_stage(layers, l, 5);
        lemma_block_stage(layers, l, 6);
        lemma_block_stage(layers, l, 7);
        lemma_block_stage(layers, l, 8);
        lemma_block_stage(layers, l, 9);
    }
}

/// A tuning run tries variants 3, 4 and 9 and no others, in every combination, the
/// last choice changing fastest.
pub proof fn rules_try_the_variants_that_won(i: int)
    requires
        0 <= i < 27,
    ensures
        rule_at(i).0 == if i < 9 {
            3usize
        } else if i < 18 {
            4usize
        } else {
            9usize
        },
        rule_at(i).1 == if i % 9 < 3 {
            3usize
        } else if i % 9 < 6 {
            4usize
        } else {
            9usize
        },
        rule_at(i).2 == if i % 3 == 0 {
            3usize
        } else if i % 3 == 1 {
            4usize
        } else {
            9usize
        },
{
}

/// A draw considers as many candidates as it may: no more than the vocabulary has,
/// no more than the pool of 512, and no more than `top_k` where one is set.
pub proof fn a_draw_considers_as_many_as_it_may(top_k: int, vocab: int, n: int)
    requires
        0 <= top_k,
        0 <= vocab,
    ensures
        n <= pool_of(top_k, vocab) <==> n <= vocab && n <= 512 && (top_k == 0 || n <= top_k),
{
}

/// The numbers are those of SplitMix64: a state is stepped by the golden ratio and
/// mixed in two rounds, by 30 and 27 bits, and once more by 31.
pub proof fn numbers_are_those_of_splitmix(state: u64, a: u64, b: u64, c: u64)
    requires
        a == state.wrapping_add(0x9e37_79b9_7f4a_7c15),
        b == (a ^ (a >> 30u64)).wrapping_mul(0xbf58_476d_1ce4_e5b9),
        c == (b ^ (b >> 27u64)).wrapping_mul(0x94d0_49bb_1331_11eb),
    ensures
        splitmix(state) == c ^ (c >> 31u64),
{
}

/// Every byte is mixed into the checksum by exclusive or, and multiplies it by
/// `0x1000000001b3`; without bytes it is the offset of FNV-1a.
pub proof fn every_byte_is_mixed_in(bytes: Seq<u8>, b: u8)
    ensures
        checksum(Seq::empty()) == 0xcbf2_9ce4_8422_2325,
        checksum(bytes.push(b)) == (checksum(bytes) ^ (b as u64)).wrapping_mul(0x1000_0000_01b3),
{
    assert(bytes.push(b).drop_last() =~= bytes);
}

// -------------------------------------------------------------- a directory

/// What a tensor stores is what its blobs store, and its elements are the product
/// of its dimensions.
pub proof fn a_tensor_is_its_blobs(e: EntryView, more: EntryView, name: Seq<char>, b: Blob, shape: Seq<usize>, d: usize)
    requires
        more.blobs == e.blobs.push((name, b)),
    ensures
        e.blobs.len() == 0 ==> entry_len(e) == 0,
        entry_len(more) == entry_len(e) + b.len,
        product(seq![], 0) == 1,
        product(shape.push(d), shape.len() as int + 1) == product(shape, shape.len() as int) * (d as nat),
{
    lemma_blobs_front(e.blobs, (name, b), e.blobs.len() as int);
    lemma_product_front(shape, d, shape.len() as int);
}

proof fn lemma_blobs_front(blobs: Seq<(Seq<char>, Blob)>, last: (Seq<char>, Blob), n: int)
    requires
        n <= blobs.len(),
    ensures
        blobs_len(blobs.push(last), n) == blobs_len(blobs, n),
    decreases n,
{
    if n > 0 {
        lemma_blobs_front(blobs, last, n - 1);
    }
}

proof fn lemma_product_front(shape: Seq<usize>, last: usize, n: int)
    requires
        n <= shape.len(),
    ensures
        product(shape.push(last), n) == product(shape, n),
    decreases n,
{
    if n > 0 {
        lemma_product_front(shape, last, n - 1);
    }
}

/// What a decode step leaves out is the tensor of that name and nothing else: with
/// it, what is read comes to all that is stored.
pub proof fn one_tensor_is_left_out(tensors: Seq<EntryView>, k: int)
    requires
        0 <= k < tensors.len(),
        forall|i: int| 0 <= i < tensors.len() && i != k ==> (#[trigger] tensors[i]).name != tensors[k].name,
    ensures
        tensors_len(tensors, tensors.len() as int, None) == tensors_len(
            tensors,
            tensors.len() as int,
            Some(tensors[k].name),
        ) + entry_len(tensors[k]),
{
    lemma_left_out(tensors, k, tensors.len() as int);
}

proof fn lemma_left_out(tensors: Seq<EntryView>, k: int, n: int)
    requires
        0 <= k < tensors.len(),
        0 <= n <= tensors.len(),
        forall|i: int| 0 <= i < tensors.len() && i != k ==> (#[trigger] tensors[i]).name != tensors[k].name,
    ensures
        tensors_len(tensors, n, None) == tensors_len(tensors, n, Some(tensors[k].name)) + if k < n {
            entry_len(tensors[k])
        } else {
            0
        },
    decreases n,
{
    if n > 0 {
        lemma_left_out(tensors, k, n - 1);
    }
}

/// A name that no tensor has leaves nothing out, and one tensor more stores what it
/// stores more.
pub proof fn other_tensors_are_all_read(tensors: Seq<EntryView>, e: EntryView, name: Seq<char>)
    requires
        forall|i: int| 0 <= i < tensors.len() ==> (#[trigger] tensors[i]).name != name,
    ensures
        tensors_len(tensors, tensors.len() as int, Some(name)) == tensors_len(
            tensors,
            tensors.len() as int,
            None,
        ),
        tensors_len(tensors.push(e), tensors.len() as int + 1, None) == tensors_len(
            tensors,
            tensors.len() as int,
            None,
        ) + entry_len(e),
        tensors.len() == 0 ==> tensors_len(tensors, 0, None) == 0,
{
    lemma_all_read(tensors, e, name, tensors.len() as int);
}

proof fn lemma_all_read(tensors: Seq<EntryView>, e: EntryView, name: Seq<char>, n: int)
    requires
        n <= tensors.len(),
        forall|i: int| 0 <= i < tensors.len() ==> (#[trigger] tensors[i]).name != name,
    ensures
        tensors_len(tensors, n, Some(name)) == tensors_len(tensors, n, None),
        tensors_len(tensors.push(e), n, None) == tensors_len(tensors, n, None),
    decreases n,
{
    if n > 0 {
        lemma_all_read(tensors, e, name, n - 1);
    }
}

/// Every tensor is counted under one kind: over the four kinds the tensors, their
/// bytes and their elements come to those of the directory.
pub proof fn kinds_add_up(tensors: Seq<EntryView>, n: int)
    requires
        0 <= n <= tensors.len(),
    ensures
        count_of(tensors, TensorKind::Fp16, n) + count_of(tensors, TensorKind::Fp32, n) + count_of(
            tensors,
            TensorKind::Int4G128,
            n,
        ) + count_of(tensors, TensorKind::Int4HierG32, n) == n,
        bytes_of(tensors, TensorKind::Fp16, n) + bytes_of(tensors, TensorKind::Fp32, n) + bytes_of(
            tensors,
            TensorKind::Int4G128,
            n,
        ) + bytes_of(tensors, TensorKind::Int4HierG32, n) == tensors_len(tensors, n, None),
        params_of(tensors, TensorKind::Fp16, n) + params_of(tensors, TensorKind::Fp32, n) + params_of(
            tensors,
            TensorKind::Int4G128,
            n,
        ) + params_of(tensors, TensorKind::Int4HierG32, n) == params_len(tensors, n),
    decreases n,
{
    if n > 0 {
        kinds_add_up(tensors, n - 1);
        match tensors[n - 1].kind {
            TensorKind::Fp16 => {},
            TensorKind::Fp32 => {},
            TensorKind::Int4G128 => {},
            TensorKind::Int4HierG32 => {},
        }
    }
}

/// Tensors of other kinds do not count: where none is of a kind, its counts are
/// zero, and where all are, they are those of the directory.
pub proof fn a_kind_counts_its_own(tensors: Seq<EntryView>, kind: TensorKind, n: int)
    requires
        0 <= n <= tensors.len(),
    ensures
        (forall|i: int| 0 <= i < n ==> (#[trigger] tensors[i]).kind != kind) ==> count_of(tensors, kind, n) == 0
            && bytes_of(tensors, kind, n) == 0 && params_of(tensors, kind, n) == 0,
        (forall|i: int| 0 <= i < n ==> (#[trigger] tensors[i]).kind == kind) ==> count_of(tensors, kind, n) == n
            && bytes_of(tensors, kind, n) == tensors_len(tensors, n, None) && params_of(tensors, kind, n)
            == params_len(tensors, n),
    decreases n,
{
    if n > 0 {
        a_kind_counts_its_own(tensors, kind, n - 1);
    }
}

/// The elements of a directory are those of its tensors.
pub proof fn elements_are_those_of_the_tensors(tensors: Seq<EntryView>, e: EntryView)
    ensures
        params_len(Seq::empty(), 0) == 0,
        params_len(tensors.push(e), tensors.len() as int + 1) == params_len(tensors, tensors.len() as int) + product(
            e.shape,
            e.shape.len() as int,
        ),
{
    lemma_params_front(tensors, e, tensors.len() as int);
}

proof fn lemma_params_front(tensors: Seq<EntryView>, e: EntryView, n: int)
    requires
        n <= tensors.len(),
    ensures
        params_len(tensors.push(e), n) == params_len(tensors, n),
    decreases n,
{
    if n > 0 {
        lemma_params_front(tensors, e, n - 1);
    }
}

/// Where a kind stands in the order of the kinds' names.
pub open spec fn place_of_kind(kind: TensorKind) -> int {
    match kind {
        TensorKind::Fp16 => 0,
        TensorKind::Fp32 => 1,
        TensorKind::Int4G128 => 2,
        TensorKind::Int4HierG32 => 3,
    }
}

/// The summary of a directory has one line for every kind there is a tensor of, in
/// the order of the kinds' names, and each line states what its kind comes to.
pub proof fn every_kind_has_its_line(tensors: Seq<EntryView>, kind: TensorKind)
    ensures
        ({
            let list = totals_of(tensors, 4);
            let n = tensors.len() as int;
            &&& forall|i: int|
                0 <= i < list.len() ==> (#[trigger] list[i]).count == count_of(tensors, list[i].kind, n) as usize
                    && list[i].bytes == bytes_of(tensors, list[i].kind, n) as u64 && list[i].params
                    == params_of(tensors, list[i].kind, n) as usize
            &&& forall|i: int, j: int|
                0 <= i < j < list.len() ==> place_of_kind((#[trigger] list[i]).kind) < place_of_kind(
                    (#[trigger] list[j]).kind,
                )
            &&& (exists|i: int| 0 <= i < list.len() && (#[trigger] list[i]).kind == kind) <==> count_of(
                tensors,
                kind,
                n,
            ) > 0
        }),
{
    lemma_lines(tensors, 4);
    let list = totals_of(tensors, 4);
    if count_of(tensors, kind, tensors.len() as int) > 0 {
        let i = lemma_line(tensors, kind, 4);
        assert(list[i].kind == kind);
    }
}

proof fn lemma_lines(tensors: Seq<EntryView>, k: int)
    requires
        0 <= k <= 4,
    ensures
        ({
            let list = totals_of(tensors, k);
            let n = tensors.len() as int;
            &&& forall|i: int|
                0 <= i < list.len() ==> (#[trigger] list[i]).count == count_of(tensors, list[i].kind, n) as usize
                    && list[i].bytes == bytes_of(tensors, list[i].kind, n) as u64 && list[i].params
                    == params_of(tensors, list[i].kind, n) as usize && place_of_kind(list[i].kind) < k
                    && count_of(tensors, list[i].kind, n) > 0
            &&& forall|i: int, j: int|
                0 <= i < j < list.len() ==> place_of_kind((#[trigger] list[i]).kind) < place_of_kind(
                    (#[trigger] list[j]).kind,
                )
        }),
    decreases k,
{
    if k > 0 {
        lemma_lines(tensors, k - 1);
    }
}

proof fn lemma_line(tensors: Seq<EntryView>, kind: TensorKind, k: int) -> (at: int)
    requires
        place_of_kind(kind) < k <= 4,
        count_of(tensors, kind, tensors.len() as int) > 0,
    ensures
        0 <= at < totals_of(tensors, k).len(),
        totals_of(tensors, k)[at].kind == kind,
    decreases k,
{
    if place_of_kind(kind) == k - 1 {
        totals_of(tensors, k - 1).len() as int
    } else {
        lemma_line(tensors, kind, k - 1)
    }
}

} // verus!
