//! Which tensor of a file ends up where in a model.

use vstd::prelude::*;
use vstd::utf8::{decode_utf8, valid_utf8};

use crate::config::{config_fault, ModelConfig};
use crate::container::the_first_of_a_name_counts;
use crate::format::{product, required_blobs, tensor_index, EntryView, HeaderView, TensorKind};
use crate::hier::PackedInt4Hier;
use crate::kernels::gemv::{packed_len, GROUP, HGROUP};
use crate::layout::lists_are_read_in_order;
use crate::model::{
    assembled, entries_of, entry_of, fused, join_fault, joined, joined_bytes, joined_halves,
    joined_words, missing_from, rows_of, unread, LinearView, LoadFault,
};
use crate::number::decimal_text;
use crate::quant::PackedInt4;
use crate::stored::{
    dense_tensors_survive, distinct_names, goes_on, hierarchical_matrices_survive, is_file_of,
    packed_matrices_survive,
};
use crate::weights::{
    bias_part, bias_parts, bias_widths, body_bytes, chunkable, dense, gate_up_names, layer_of,
    layers_fault, model_of, none_there, qkv_bias_names, qkv_names, step_bytes, widths_fit,
    LayerView, ModelFault, ModelView, ModelWeights,
};
use crate::writer::{after_fp16, after_int4, after_int4_hier, has_room, WriterView};

verus! {

/// The blocks before a fault are without one.
proof fn lemma_layers(h: HeaderView, file: Seq<u8>, c: ModelConfig, from: int, l: int)
    requires
        0 <= from <= l < c.num_hidden_layers,
        layers_fault(h, file, c, from) is None,
    ensures
        layer_of(h, file, c, l as nat) is Ok,
    decreases l - from,
{
    if from < l {
        lemma_layers(h, file, c, from + 1, l);
    }
}

/// A model that was read has every tensor in the field of its name: the gains
/// before attention and before the MLP, the projections joined in the order query,
/// key, value and gate, up, the others by themselves, and an output projection of
/// its own exactly where the embedding is not tied to it.
pub proof fn every_weight_is_in_the_field_of_its_name(
    h: HeaderView,
    file: Seq<u8>,
    c: ModelConfig,
    m: ModelWeights,
    l: nat,
)
    requires
        model_of(h, file, c) == Ok::<ModelView, ModelFault>(m@),
        l < c.num_hidden_layers,
    ensures
        m.layers@.len() == c.num_hidden_layers,
        dense(h, file, "model.layers."@ + decimal_text(l) + ".input_layernorm.weight"@) == Ok::<
            Seq<u16>,
            LoadFault,
        >(m.layers@[l as int].input_norm@),
        dense(h, file, "model.layers."@ + decimal_text(l) + ".post_attention_layernorm.weight"@)
            == Ok::<Seq<u16>, LoadFault>(m.layers@[l as int].post_attn_norm@),
        fused(
            h,
            file,
            seq![
                "model.layers."@ + decimal_text(l) + ".self_attn.q_proj.weight"@,
                "model.layers."@ + decimal_text(l) + ".self_attn.k_proj.weight"@,
                "model.layers."@ + decimal_text(l) + ".self_attn.v_proj.weight"@,
            ],
        ) == Ok::<LinearView, LoadFault>(m.layers@[l as int].qkv_proj@),
        fused(h, file, seq!["model.layers."@ + decimal_text(l) + ".self_attn.o_proj.weight"@])
            == Ok::<LinearView, LoadFault>(m.layers@[l as int].o_proj@),
        fused(
            h,
            file,
            seq![
                "model.layers."@ + decimal_text(l) + ".mlp.gate_proj.weight"@,
                "model.layers."@ + decimal_text(l) + ".mlp.up_proj.weight"@,
            ],
        ) == Ok::<LinearView, LoadFault>(m.layers@[l as int].gate_up_proj@),
        fused(h, file, seq!["model.layers."@ + decimal_text(l) + ".mlp.down_proj.weight"@])
            == Ok::<LinearView, LoadFault>(m.layers@[l as int].down_proj@),
        dense(h, file, "model.norm.weight"@) == Ok::<Seq<u16>, LoadFault>(m.final_norm@),
        fused(h, file, seq!["model.embed_tokens.weight"@]) == Ok::<LinearView, LoadFault>(
            m.embed.matrix@,
        ),
        c.tie_word_embeddings <==> m.lm_head is None,
        m.lm_head matches Some(head) ==> fused(h, file, seq!["lm_head.weight"@]) == Ok::<
            LinearView,
            LoadFault,
        >(head@),
{
    lemma_layers(h, file, c, 0, l as int);
    let v = m@.layers[l as int];
    assert(m@.layers.len() == m.layers@.len());
    assert(v == m.layers@[l as int]@);
    assert(qkv_names(l) =~= seq![
        "model.layers."@ + decimal_text(l) + ".self_attn.q_proj.weight"@,
        "model.layers."@ + decimal_text(l) + ".self_attn.k_proj.weight"@,
        "model.layers."@ + decimal_text(l) + ".self_attn.v_proj.weight"@,
    ]);
    assert(gate_up_names(l) =~= seq![
        "model.layers."@ + decimal_text(l) + ".mlp.gate_proj.weight"@,
        "model.layers."@ + decimal_text(l) + ".mlp.up_proj.weight"@,
    ]);
}

/// A vector that was written under the name of a gain is that gain of the model
/// that is read back.
pub proof fn written_gains_are_loaded(
    w: WriterView,
    name: Seq<char>,
    data: Seq<u16>,
    shape: Seq<usize>,
    later: WriterView,
    h: HeaderView,
    file: Seq<u8>,
    c: ModelConfig,
    m: ModelWeights,
    l: nat,
)
    requires
        data.len() == product(shape, shape.len() as int),
        has_room(w, 2 * data.len(), 1),
        goes_on(after_fp16(w, name, data, shape), later),
        distinct_names(later.entries),
        is_file_of(later, h, file),
        model_of(h, file, c) == Ok::<ModelView, ModelFault>(m@),
        l < c.num_hidden_layers,
    ensures
        name == "model.layers."@ + decimal_text(l) + ".input_layernorm.weight"@
            ==> m.layers@[l as int].input_norm@ == data,
        name == "model.layers."@ + decimal_text(l) + ".post_attention_layernorm.weight"@
            ==> m.layers@[l as int].post_attn_norm@ == data,
        name == "model.norm.weight"@ ==> m.final_norm@ == data,
{
    dense_tensors_survive(w, name, data, shape, later, h, file);
    every_weight_is_in_the_field_of_its_name(h, file, c, m, l);
}

/// A matrix that was written under the name of a projection is that projection of
/// the model that is read back.
pub proof fn written_matrices_are_loaded(
    w: WriterView,
    name: Seq<char>,
    packed: PackedInt4Hier,
    later: WriterView,
    h: HeaderView,
    file: Seq<u8>,
    c: ModelConfig,
    m: ModelWeights,
    l: nat,
)
    requires
        packed.wf(),
        has_room(w, 4 * packed.qw@.len() + packed.si@.len() + 4 * packed.sb@.len(), 3),
        goes_on(after_int4_hier(w, name, packed), later),
        distinct_names(later.entries),
        is_file_of(later, h, file),
        model_of(h, file, c) == Ok::<ModelView, ModelFault>(m@),
        l < c.num_hidden_layers,
    ensures
        ({
            let matrix = LinearView::Int4Hier {
                qw: packed.qw@,
                si: packed.si@,
                sb: packed.sb@,
                in_features: packed.in_features as int,
                out_features: packed.out_features as int,
            };
            &&& name == "model.layers."@ + decimal_text(l) + ".self_attn.o_proj.weight"@
                ==> m.layers@[l as int].o_proj@ == matrix
            &&& name == "model.layers."@ + decimal_text(l) + ".mlp.down_proj.weight"@
                ==> m.layers@[l as int].down_proj@ == matrix
            &&& name == "model.embed_tokens.weight"@ ==> m.embed.matrix@ == matrix
            &&& name == "lm_head.weight"@ && !c.tie_word_embeddings ==> m.lm_head is Some
                && m.lm_head->0@ == matrix
        }),
{
    hierarchical_matrices_survive(w, name, packed, later, h, file);
    every_weight_is_in_the_field_of_its_name(h, file, c, m, l);
}

/// The same of a matrix in groups of 128.
pub proof fn written_legacy_matrices_are_loaded(
    w: WriterView,
    name: Seq<char>,
    packed: PackedInt4,
    later: WriterView,
    h: HeaderView,
    file: Seq<u8>,
    c: ModelConfig,
    m: ModelWeights,
    l: nat,
)
    requires
        packed.wf(),
        has_room(w, 4 * packed.qw@.len() + 4 * packed.sz@.len(), 2),
        goes_on(after_int4(w, name, packed), later),
        distinct_names(later.entries),
        is_file_of(later, h, file),
        model_of(h, file, c) == Ok::<ModelView, ModelFault>(m@),
        l < c.num_hidden_layers,
    ensures
        ({
            let matrix = LinearView::Int4 {
                qw: packed.qw@,
                sz: packed.sz@,
                in_features: packed.in_features as int,
                out_features: packed.out_features as int,
            };
            &&& name == "model.layers."@ + decimal_text(l) + ".self_attn.o_proj.weight"@
                ==> m.layers@[l as int].o_proj@ == matrix
            &&& name == "model.layers."@ + decimal_text(l) + ".mlp.down_proj.weight"@
                ==> m.layers@[l as int].down_proj@ == matrix
            &&& name == "model.embed_tokens.weight"@ ==> m.embed.matrix@ == matrix
            &&& name == "lm_head.weight"@ && !c.tie_word_embeddings ==> m.lm_head is Some
                && m.lm_head->0@ == matrix
        }),
{
    packed_matrices_survive(w, name, packed, later, h, file);
    every_weight_is_in_the_field_of_its_name(h, file, c, m, l);
}

// ------------------------------------------------------------------- biases

/// What a bias of a width is: what the file holds under its name, or zeros where it
/// holds nothing.
pub open spec fn bias_or_zeros(
    h: HeaderView,
    file: Seq<u8>,
    name: Seq<char>,
    width: int,
    part: Seq<u16>,
) -> bool {
    &&& part.len() == width
    &&& dense(h, file, name) == Ok::<Seq<u16>, LoadFault>(part) || (tensor_index(h.tensors, name, 0) is None
        && forall|i: int| 0 <= i < width ==> #[trigger] part[i] == 0)
}

proof fn lemma_bias(
    h: HeaderView,
    file: Seq<u8>,
    names: Seq<Seq<char>>,
    widths: Seq<usize>,
    bias: Seq<u16>,
)
    requires
        names.len() == 3,
        widths.len() == 3,
        bias_parts(h, file, names, widths, 3) == Ok::<Seq<u16>, LoadFault>(bias),
    ensures
        bias.len() == widths[0] + widths[1] + widths[2],
        bias_or_zeros(h, file, names[0], widths[0] as int, bias.subrange(0, widths[0] as int)),
        bias_or_zeros(
            h,
            file,
            names[1],
            widths[1] as int,
            bias.subrange(widths[0] as int, widths[0] + widths[1]),
        ),
        bias_or_zeros(
            h,
            file,
            names[2],
            widths[2] as int,
            bias.subrange(widths[0] + widths[1], widths[0] + widths[1] + widths[2]),
        ),
{
    reveal_with_fuel(bias_parts, 4);
    let a = bias_part(h, file, names[0], widths[0])->Ok_0;
    let b = bias_part(h, file, names[1], widths[1])->Ok_0;
    let d = bias_part(h, file, names[2], widths[2])->Ok_0;
    assert(bias =~= a + b + d);
    assert(bias.subrange(0, widths[0] as int) =~= a);
    assert(bias.subrange(widths[0] as int, widths[0] + widths[1]) =~= b);
    assert(bias.subrange(widths[0] + widths[1], widths[0] + widths[1] + widths[2]) =~= d);
}

/// The joined bias of a block is that of the query, then that of the key, then
/// that of the value, each as wide as its heads and zero where the file has none;
/// there is one exactly where the file has one of the three.
pub proof fn biases_are_joined_in_place(
    h: HeaderView,
    file: Seq<u8>,
    c: ModelConfig,
    m: ModelWeights,
    l: nat,
)
    requires
        model_of(h, file, c) == Ok::<ModelView, ModelFault>(m@),
        widths_fit(c),
        l < c.num_hidden_layers,
    ensures
        ({
            let block = "model.layers."@ + decimal_text(l);
            let q = block + ".self_attn.q_proj.bias"@;
            let k = block + ".self_attn.k_proj.bias"@;
            let v = block + ".self_attn.v_proj.bias"@;
            let qw = c.num_attention_heads * c.head_width();
            let kw = c.kv_heads() * c.head_width();
            match m.layers@[l as int].qkv_bias {
                None => {
                    &&& tensor_index(h.tensors, q, 0) is None
                    &&& tensor_index(h.tensors, k, 0) is None
                    &&& tensor_index(h.tensors, v, 0) is None
                },
                Some(bias) => {
                    &&& bias@.len() == qw + kw + kw
                    &&& bias_or_zeros(h, file, q, qw, bias@.subrange(0, qw))
                    &&& bias_or_zeros(h, file, k, kw, bias@.subrange(qw, qw + kw))
                    &&& bias_or_zeros(h, file, v, kw, bias@.subrange(qw + kw, qw + kw + kw))
                    &&& tensor_index(h.tensors, q, 0) is Some || tensor_index(h.tensors, k, 0) is Some
                        || tensor_index(h.tensors, v, 0) is Some
                },
            }
        }),
{
    lemma_layers(h, file, c, 0, l as int);
    assert(m@.layers.len() == m.layers@.len());
    assert(m@.layers.len() == c.num_hidden_layers);
    assert(m@.layers[l as int] == m.layers@[l as int]@);
    let names = qkv_bias_names(l);
    let widths = bias_widths(c);
    let block = "model.layers."@ + decimal_text(l);
    assert(names =~= seq![
        block + ".self_attn.q_proj.bias"@,
        block + ".self_attn.k_proj.bias"@,
        block + ".self_attn.v_proj.bias"@,
    ]);
    let qw = c.num_attention_heads * c.head_width();
    let kw = c.kv_heads() * c.head_width();
    assert(qw >= 0 && kw >= 0) by (nonlinear_arith)
        requires
            qw == c.num_attention_heads * c.head_width(),
            kw == c.kv_heads() * c.head_width(),
    ;
    assert(names[0] == block + ".self_attn.q_proj.bias"@);
    assert(names[1] == block + ".self_attn.k_proj.bias"@);
    assert(names[2] == block + ".self_attn.v_proj.bias"@);
    match m.layers@[l as int].qkv_bias {
        None => {
            assert(none_there(h, names));
            assert(tensor_index(h.tensors, names[0], 0) is None);
            assert(tensor_index(h.tensors, names[1], 0) is None);
            assert(tensor_index(h.tensors, names[2], 0) is None);
        },
        Some(bias) => {
            assert(!none_there(h, names));
            lemma_bias(h, file, names, widths, bias@);
        },
    }
}

// ------------------------------------------------------------------ joining

/// One matrix on top of another: the rows of the first and then those of the
/// second, where both are of one form and one width.
pub open spec fn stacked(x: LinearView, y: LinearView) -> Option<LinearView> {
    match (x, y) {
        (
            LinearView::Int4 { qw, sz, in_features, out_features },
            LinearView::Int4 { qw: qw2, sz: sz2, in_features: w2, out_features: r2 },
        ) => if in_features == w2 {
            Some(
                LinearView::Int4 {
                    qw: qw + qw2,
                    sz: sz + sz2,
                    in_features,
                    out_features: out_features + r2,
                },
            )
        } else {
            None
        },
        (
            LinearView::Int4Hier { qw, si, sb, in_features, out_features },
            LinearView::Int4Hier { qw: qw2, si: si2, sb: sb2, in_features: w2, out_features: r2 },
        ) => if in_features == w2 {
            Some(
                LinearView::Int4Hier {
                    qw: qw + qw2,
                    si: si + si2,
                    sb: sb + sb2,
                    in_features,
                    out_features: out_features + r2,
                },
            )
        } else {
            None
        },
        (
            LinearView::Fp16 { w, in_features, out_features },
            LinearView::Fp16 { w: b2, in_features: w2, out_features: r2 },
        ) => if in_features == w2 {
            Some(
                LinearView::Fp16 { w: w + b2, in_features, out_features: out_features + r2 },
            )
        } else {
            None
        },
        _ => None,
    }
}

proof fn lemma_missing_push(h: HeaderView, names: Seq<Seq<char>>, b: Seq<char>, i: int)
    requires
        0 <= i <= names.len(),
        missing_from(h, names, i) is None,
        tensor_index(h.tensors, b, 0) is Some,
    ensures
        missing_from(h, names.push(b), i) is None,
    decreases names.len() - i,
{
    let all = names.push(b);
    if i < names.len() {
        assert(all[i] == names[i]);
        lemma_missing_push(h, names, b, i + 1);
    } else {
        assert(missing_from(h, all, i + 1) is None);
    }
}

proof fn lemma_join_push(es: Seq<EntryView>, e: EntryView, width: usize, kind: TensorKind, i: int)
    requires
        0 <= i <= es.len(),
        join_fault(es, width, kind, i) is None,
        e.shape.len() == 2,
        e.shape[1] == width,
        e.kind == kind,
    ensures
        join_fault(es.push(e), width, kind, i) is None,
    decreases es.len() - i,
{
    let all = es.push(e);
    if i < es.len() {
        assert(all[i] == es[i]);
        lemma_join_push(es, e, width, kind, i + 1);
    } else {
        assert(join_fault(all, width, kind, i + 1) is None);
    }
}

proof fn lemma_unread_push(file: Seq<u8>, es: Seq<EntryView>, e: EntryView, names: Seq<Seq<char>>, i: int)
    requires
        0 <= i <= es.len(),
        unread(file, es, names, i) is None,
        unread(file, seq![e], names, 0) is None,
    ensures
        unread(file, es.push(e), names, i) is None,
    decreases es.len() - i,
{
    let all = es.push(e);
    if i < es.len() {
        assert(all[i] == es[i]);
        lemma_unread_push(file, es, e, names, i + 1);
    } else {
        assert(seq![e][0] == e);
        assert(unread(file, all, names, i + 1) is None);
    }
}

proof fn lemma_prefix(file: Seq<u8>, es: Seq<EntryView>, e: EntryView, which: Seq<char>, n: int)
    requires
        0 <= n <= es.len(),
    ensures
        rows_of(es.push(e), n) == rows_of(es, n),
        joined_words(file, es.push(e), which, n) == joined_words(file, es, which, n),
        joined_halves(file, es.push(e), which, n) == joined_halves(file, es, which, n),
        joined_bytes(file, es.push(e), which, n) == joined_bytes(file, es, which, n),
    decreases n,
{
    if n > 0 {
        lemma_prefix(file, es, e, which, n - 1);
        assert(es.push(e)[n - 1] == es[n - 1]);
    }
}

/// What one more matrix adds.
proof fn lemma_one_more(file: Seq<u8>, es: Seq<EntryView>, e: EntryView, which: Seq<char>)
    ensures
        ({
            let n = es.len() as int;
            let all = es.push(e);
            &&& rows_of(all, n + 1) == rows_of(es, n) + rows_of(seq![e], 1)
            &&& joined_words(file, all, which, n + 1) == joined_words(file, es, which, n)
                + joined_words(file, seq![e], which, 1)
            &&& joined_halves(file, all, which, n + 1) == joined_halves(file, es, which, n)
                + joined_halves(file, seq![e], which, 1)
            &&& joined_bytes(file, all, which, n + 1) == joined_bytes(file, es, which, n)
                + joined_bytes(file, seq![e], which, 1)
        }),
{
    let n = es.len() as int;
    let all = es.push(e);
    let one = seq![e];
    lemma_prefix(file, es, e, which, n);
    assert(all[n] == e && one[0] == e);
    assert(rows_of(one, 0) == 0);
    assert(joined_words(file, one, which, 0) =~= Seq::empty());
    assert(joined_halves(file, one, which, 0) =~= Seq::empty());
    assert(joined_bytes(file, one, which, 0) =~= Seq::empty());
    assert(joined_words(file, one, which, 1) =~= joined_words(file, all, which, n + 1).skip(
        joined_words(file, es, which, n).len() as int,
    ));
    assert(joined_halves(file, one, which, 1) =~= joined_halves(file, all, which, n + 1).skip(
        joined_halves(file, es, which, n).len() as int,
    ));
    assert(joined_bytes(file, one, which, 1) =~= joined_bytes(file, all, which, n + 1).skip(
        joined_bytes(file, es, which, n).len() as int,
    ));
    assert(joined_words(file, all, which, n + 1) =~= joined_words(file, es, which, n)
        + joined_words(file, one, which, 1));
    assert(joined_halves(file, all, which, n + 1) =~= joined_halves(file, es, which, n)
        + joined_halves(file, one, which, 1));
    assert(joined_bytes(file, all, which, n + 1) =~= joined_bytes(file, es, which, n)
        + joined_bytes(file, one, which, 1));
}

/// Units of matrices of one width add up, where rows are whole numbers of them.
proof fn lemma_units_add(a: usize, b: usize, width: usize, per: usize)
    requires
        0 < per,
        width % per == 0,
        a + b <= usize::MAX,
    ensures
        packed_len((a + b) as usize, width, per) == packed_len(a, width, per) + packed_len(
            b,
            width,
            per,
        ),
{
    let u = width as int / per as int;
    assert(width == u * per) by (nonlinear_arith)
        requires
            0 < per,
            width as int % per as int == 0,
            u == width as int / per as int,
    ;
    assert(a * width / (per as int) == a * u && b * width / (per as int) == b * u && (a + b) * width
        / (per as int) == (a + b) * u) by (nonlinear_arith)
        requires
            0 < per,
            width == u * per,
    ;
    assert((a + b) * u == a * u + b * u) by (nonlinear_arith);
}

proof fn lemma_width_units(width: usize)
    ensures
        width % GROUP == 0 ==> width % 8 == 0,
        width % HGROUP == 0 ==> width % 8 == 0,
{
}

/// Joining tensors stacks their matrices in the order in which they are named:
/// where some make one matrix and one more makes another, all together make the
/// first on top of the second.
#[verifier::rlimit(60)]
pub proof fn joining_stacks_in_order(
    h: HeaderView,
    file: Seq<u8>,
    names: Seq<Seq<char>>,
    b: Seq<char>,
    x: LinearView,
    y: LinearView,
)
    requires
        names.len() > 0,
        fused(h, file, names) == Ok::<LinearView, LoadFault>(x),
        fused(h, file, seq![b]) == Ok::<LinearView, LoadFault>(y),
        stacked(x, y) is Some,
        x.rows() + y.rows() <= usize::MAX,
    ensures
        fused(h, file, names.push(b)) == Ok::<LinearView, LoadFault>(stacked(x, y)->0),
{
    let one = seq![b];
    assert(one[0] == b);
    assert(tensor_index(h.tensors, b, 0) is Some);
    lemma_missing_push(h, names, b, 0);
    let es = entries_of(h, names);
    let e = entry_of(h, b);
    let all = es.push(e);
    let n = es.len() as int;
    assert(entries_of(h, one) =~= seq![e]);
    assert(entries_of(h, names.push(b)) =~= all);
    assert(all[0] == es[0]);
    let single = seq![e];
    assert(single[0] == e);
    let width = es[0].shape[1];
    let kind = es[0].kind;
    reveal_with_fuel(join_fault, 2);
    assert(e.shape.len() == 2);
    let rx = rows_of(es, n) as usize;
    let ry = rows_of(single, 1) as usize;
    lemma_one_more(file, es, e, "qw"@);
    lemma_one_more(file, es, e, "sz"@);
    lemma_one_more(file, es, e, "si"@);
    lemma_one_more(file, es, e, "sb"@);
    lemma_one_more(file, es, e, "data"@);
    assert(e.shape[1] == width && e.kind == kind);
    lemma_join_push(es, e, width, kind, 0);
    lemma_unread_push(file, es, e, required_blobs(kind), 0);
    lemma_rows(es, n);
    lemma_rows(single, 1);
    assert(rx + ry <= usize::MAX);
    lemma_width_units(width);
    match kind {
        TensorKind::Int4G128 => {
            lemma_units_add(rx, ry, width, 8);
            lemma_units_add(rx, ry, width, GROUP);
        },
        TensorKind::Int4HierG32 => {
            lemma_units_add(rx, ry, width, 8);
            lemma_units_add(rx, ry, width, HGROUP);
        },
        TensorKind::Fp16 => {
            assert((rx + ry) * width == rx * width + ry * width) by (nonlinear_arith);
        },
        TensorKind::Fp32 => {},
    }
    assert(assembled(file, all, kind, (rx + ry) as usize, width) == Ok::<LinearView, LoadFault>(
        stacked(x, y)->0,
    ));
}

proof fn lemma_rows(es: Seq<EntryView>, n: int)
    ensures
        0 <= rows_of(es, n),
    decreases n,
{
    if n > 0 {
        lemma_rows(es, n - 1);
    }
}

/// A model that was read can be executed, and its embedding has a row as wide as
/// the residual stream for every token.
pub proof fn loaded_models_fit_their_configuration(
    h: HeaderView,
    file: Seq<u8>,
    c: ModelConfig,
    m: ModelWeights,
)
    requires
        model_of(h, file, c) == Ok::<ModelView, ModelFault>(m@),
    ensures
        config_fault(c) is None,
        m.embed.matrix@.rows() == c.vocab_size,
        m.embed.matrix@.width() == c.hidden_size,
        m.layers@.len() == c.num_hidden_layers,
{
    assert(m@.layers.len() == m.layers@.len());
}

/// The tokenizer of a model is the text that its file carries under
/// `tokenizer.json`, and there is none exactly where the file carries none.
pub proof fn the_tokenizer_is_the_text_carried(
    h: HeaderView,
    file: Seq<u8>,
    c: ModelConfig,
    m: ModelWeights,
    k: int,
)
    requires
        model_of(h, file, c) == Ok::<ModelView, ModelFault>(m@),
        0 <= k < h.extras.len(),
        h.extras[k].0 == "tokenizer.json"@,
        forall|i: int| 0 <= i < k ==> (#[trigger] h.extras[i]).0 != "tokenizer.json"@,
    ensures
        ({
            let b = h.extras[k].1;
            let raw = file.subrange(b.offset as int, b.offset + b.len);
            &&& b.offset + b.len <= file.len()
            &&& valid_utf8(raw)
            &&& m.tokenizer_json matches Some(t) && t@ == decode_utf8(raw)
        }),
{
    the_first_of_a_name_counts(h.extras, Seq::empty(), Seq::empty(), "tokenizer.json"@);
}

/// A file that carries no `tokenizer.json` gives a model without a tokenizer.
pub proof fn no_tokenizer_is_made_up(h: HeaderView, file: Seq<u8>, c: ModelConfig, m: ModelWeights)
    requires
        model_of(h, file, c) == Ok::<ModelView, ModelFault>(m@),
        forall|i: int| 0 <= i < h.extras.len() ==> (#[trigger] h.extras[i]).0 != "tokenizer.json"@,
    ensures
        m.tokenizer_json is None,
{
    the_first_of_a_name_counts(h.extras, Seq::empty(), Seq::empty(), "tokenizer.json"@);
}

/// A decode step streams the four matrices of every block and one output
/// projection, which is the embedding where the model has no other. One block more
/// streams its own matrices more.
pub proof fn a_step_streams_every_block_and_one_head(m: ModelView, more: ModelView, layer: LayerView)
    requires
        more.layers == m.layers.push(layer),
        more.embed == m.embed,
        more.lm_head == m.lm_head,
    ensures
        step_bytes(more) == step_bytes(m) + layer.qkv_proj.streamed() + layer.o_proj.streamed()
            + layer.gate_up_proj.streamed() + layer.down_proj.streamed(),
        m.layers.len() == 0 ==> step_bytes(m) == match m.lm_head {
            Some(head) => head.streamed(),
            None => m.embed.streamed(),
        },
{
    lemma_body_front(m.layers, layer, m.layers.len() as int);
}

proof fn lemma_body_front(layers: Seq<LayerView>, layer: LayerView, n: int)
    requires
        n <= layers.len(),
    ensures
        body_bytes(layers.push(layer), n) == body_bytes(layers, n),
    decreases n,
{
    if n > 0 {
        lemma_body_front(layers, layer, n - 1);
    }
}

/// Several tokens can be run in one pass exactly where no matrix of the model is in
/// groups of 128.
pub proof fn passes_need_a_kernel_for_every_matrix(m: ModelView)
    ensures
        chunkable(m) <==> !(m.embed is Int4) && (m.lm_head is None || !(m.lm_head->0 is Int4)) && forall|i: int|
            0 <= i < m.layers.len() ==> {
                let l = #[trigger] m.layers[i];
                !(l.qkv_proj is Int4 || l.o_proj is Int4 || l.gate_up_proj is Int4 || l.down_proj is Int4)
            },
{
    if chunkable(m) {
        assert forall|i: int| 0 <= i < m.layers.len() implies {
            let l = #[trigger] m.layers[i];
            !(l.qkv_proj is Int4 || l.o_proj is Int4 || l.gate_up_proj is Int4 || l.down_proj is Int4)
        } by {
            assert(m.layers[i].chunkable());
        }
    }
}

/// Matrices are joined only where they are all there, are matrices, have the width
/// of what they make, and are stored in the same form.
pub proof fn joined_matrices_agree(
    h: HeaderView,
    file: Seq<u8>,
    names: Seq<Seq<char>>,
    m: LinearView,
    k: int,
)
    requires
        fused(h, file, names) == Ok::<LinearView, LoadFault>(m),
        0 <= k < names.len(),
    ensures
        tensor_index(h.tensors, names[k], 0) is Some,
        ({
            let e = h.tensors[tensor_index(h.tensors, names[k], 0)->0];
            &&& e.shape.len() == 2
            &&& e.shape[1] == m.width()
            &&& e.kind == match m {
                LinearView::Int4 { .. } => TensorKind::Int4G128,
                LinearView::Int4Hier { .. } => TensorKind::Int4HierG32,
                LinearView::Fp16 { .. } => TensorKind::Fp16,
            }
        }),
{
    let entries = entries_of(h, names);
    lemma_all_there(h, names, 0, k);
    lemma_all_join(entries, entries[0].shape[1], entries[0].kind, 0, k);
    assert(entries[k] == entry_of(h, names[k]));
}

proof fn lemma_all_there(h: HeaderView, names: Seq<Seq<char>>, i: int, k: int)
    requires
        0 <= i <= k < names.len(),
        missing_from(h, names, i) is None,
    ensures
        tensor_index(h.tensors, names[k], 0) is Some,
    decreases k - i,
{
    if i < k {
        lemma_all_there(h, names, i + 1, k);
    }
}

proof fn lemma_all_join(entries: Seq<EntryView>, width: usize, kind: TensorKind, i: int, k: int)
    requires
        0 <= i <= k < entries.len(),
        join_fault(entries, width, kind, i) is None,
    ensures
        entries[k].shape.len() == 2,
        entries[k].shape[1] == width,
        entries[k].kind == kind,
    decreases k - i,
{
    if i < k {
        lemma_all_join(entries, width, kind, i + 1, k);
    }
}

/// A vector is read from the `data` of the tensor of its name, two bytes to an
/// element with the lower first, and has as many elements as the tensor's
/// dimensions multiply to.
pub proof fn vectors_are_read_from_their_data(
    h: HeaderView,
    file: Seq<u8>,
    name: Seq<char>,
    t: int,
    k: int,
    v: Seq<u16>,
    i: int,
)
    requires
        dense(h, file, name) == Ok::<Seq<u16>, LoadFault>(v),
        0 <= t < h.tensors.len(),
        h.tensors[t].name == name,
        forall|j: int| 0 <= j < t ==> (#[trigger] h.tensors[j]).name != name,
        0 <= k < h.tensors[t].blobs.len(),
        h.tensors[t].blobs[k].0 == "data"@,
        forall|j: int| 0 <= j < k ==> (#[trigger] h.tensors[t].blobs[j]).0 != "data"@,
        0 <= i < v.len(),
    ensures
        h.tensors[t].kind == TensorKind::Fp16,
        v.len() == product(h.tensors[t].shape, h.tensors[t].shape.len() as int),
        v.len() == h.tensors[t].blobs[k].1.len / 2,
        ({
            let at = h.tensors[t].blobs[k].1.offset + 2 * i;
            v[i] == file[at] + 0x100 * file[at + 1]
        }),
{
    let e = h.tensors[t];
    the_first_of_a_name_counts(e.blobs, h.tensors, Seq::empty(), name);
    the_first_of_a_name_counts(e.blobs, h.tensors, Seq::empty(), "data"@);
    assert(entry_of(h, name) == e);
    let b = e.blobs[k].1;
    lists_are_read_in_order(file.subrange(b.offset as int, b.offset + b.len), i);
}

/// Whether a bias is left out, or is there with its width.
pub open spec fn bias_may_be(h: HeaderView, file: Seq<u8>, name: Seq<char>, width: int) -> bool {
    tensor_index(h.tensors, name, 0) is None || (dense(h, file, name) matches Ok(v) && v.len() == width)
}

/// Whether a file holds everything of a block: both gains, the seven projections,
/// and those of the biases that it has in their widths.
pub open spec fn block_is_whole(h: HeaderView, file: Seq<u8>, c: ModelConfig, l: nat) -> bool {
    let block = "model.layers."@ + decimal_text(l);
    &&& dense(h, file, block + ".input_layernorm.weight"@) is Ok
    &&& dense(h, file, block + ".post_attention_layernorm.weight"@) is Ok
    &&& fused(
        h,
        file,
        seq![
            block + ".self_attn.q_proj.weight"@,
            block + ".self_attn.k_proj.weight"@,
            block + ".self_attn.v_proj.weight"@,
        ],
    ) is Ok
    &&& fused(h, file, seq![block + ".self_attn.o_proj.weight"@]) is Ok
    &&& fused(h, file, seq![block + ".mlp.gate_proj.weight"@, block + ".mlp.up_proj.weight"@]) is Ok
    &&& fused(h, file, seq![block + ".mlp.down_proj.weight"@]) is Ok
    &&& bias_may_be(h, file, block + ".self_attn.q_proj.bias"@, c.num_attention_heads * c.head_width())
    &&& bias_may_be(h, file, block + ".self_attn.k_proj.bias"@, c.kv_heads() * c.head_width())
    &&& bias_may_be(h, file, block + ".self_attn.v_proj.bias"@, c.kv_heads() * c.head_width())
}

proof fn lemma_whole_block(h: HeaderView, file: Seq<u8>, c: ModelConfig, l: nat)
    requires
        widths_fit(c),
        block_is_whole(h, file, c, l),
    ensures
        layer_of(h, file, c, l) is Ok,
{
    let block = "model.layers."@ + decimal_text(l);
    assert(qkv_names(l) =~= seq![
        block + ".self_attn.q_proj.weight"@,
        block + ".self_attn.k_proj.weight"@,
        block + ".self_attn.v_proj.weight"@,
    ]);
    assert(gate_up_names(l) =~= seq![
        block + ".mlp.gate_proj.weight"@,
        block + ".mlp.up_proj.weight"@,
    ]);
    let names = qkv_bias_names(l);
    assert(names =~= seq![
        block + ".self_attn.q_proj.bias"@,
        block + ".self_attn.k_proj.bias"@,
        block + ".self_attn.v_proj.bias"@,
    ]);
    let qw = c.num_attention_heads * c.head_width();
    let kw = c.kv_heads() * c.head_width();
    assert(qw >= 0 && kw >= 0) by (nonlinear_arith)
        requires
            qw == c.num_attention_heads * c.head_width(),
            kw == c.kv_heads() * c.head_width(),
    ;
    let widths = bias_widths(c);
    assert(names[0] == block + ".self_attn.q_proj.bias"@);
    assert(names[1] == block + ".self_attn.k_proj.bias"@);
    assert(names[2] == block + ".self_attn.v_proj.bias"@);
    assert(bias_part(h, file, names[0], widths[0]) is Ok);
    assert(bias_part(h, file, names[1], widths[1]) is Ok);
    assert(bias_part(h, file, names[2], widths[2]) is Ok);
    reveal_with_fuel(bias_parts, 4);
}

proof fn lemma_whole_blocks(h: HeaderView, file: Seq<u8>, c: ModelConfig, from: int)
    requires
        0 <= from <= c.num_hidden_layers,
        widths_fit(c),
        forall|l: nat| l < c.num_hidden_layers ==> #[trigger] block_is_whole(h, file, c, l),
    ensures
        layers_fault(h, file, c, from) is None,
    decreases c.num_hidden_layers - from,
{
    if from < c.num_hidden_layers {
        assert(block_is_whole(h, file, c, from as nat));
        lemma_whole_block(h, file, c, from as nat);
        lemma_whole_blocks(h, file, c, from + 1);
    }
}

/// A file that holds everything of an executable model gives the model: every
/// block, the final gain, an embedding of the right size, an output projection
/// where the model has its own, and no tokenizer or a readable one.
pub proof fn whole_models_are_loaded(h: HeaderView, file: Seq<u8>, c: ModelConfig, embed: LinearView)
    requires
        config_fault(c) is None,
        widths_fit(c),
        forall|l: nat| l < c.num_hidden_layers ==> #[trigger] block_is_whole(h, file, c, l),
        dense(h, file, "model.norm.weight"@) is Ok,
        fused(h, file, seq!["model.embed_tokens.weight"@]) == Ok::<LinearView, LoadFault>(embed),
        embed.width() == c.hidden_size,
        embed.rows() == c.vocab_size,
        c.tie_word_embeddings || fused(h, file, seq!["lm_head.weight"@]) is Ok,
        forall|i: int|
            0 <= i < h.extras.len() && (#[trigger] h.extras[i]).0 == "tokenizer.json"@ ==> h.extras[i].1.offset
                + h.extras[i].1.len <= file.len() && valid_utf8(
                file.subrange(h.extras[i].1.offset as int, h.extras[i].1.offset + h.extras[i].1.len),
            ),
    ensures
        model_of(h, file, c) is Ok,
{
    lemma_whole_blocks(h, file, c, 0);
    the_first_of_a_name_counts(h.extras, Seq::empty(), Seq::empty(), "tokenizer.json"@);
}

} // verus!
