//! What a conversion writes, in which order and in which precision.

use vstd::prelude::*;

use crate::checkpoint::{Checkpoint, CheckpointView};
use crate::config::ModelConfig;
use crate::kernels::gemv::{GROUP, HGROUP};
use crate::weights::{block_name, name_in_block};

verus! {

/// Precision for the projections of the blocks.
///
/// `Fp16` keeps a lossless reference path alive at all times. Without one there
/// is no way to tell a wrong engine from a lossy quantizer.
#[derive(Debug, Clone, Copy, PartialEq, Eq, Structural)]
pub enum BodyPrecision {
    /// int4 group-32 with hierarchical scales. The production format.
    Int4Hier,
    /// int4 group-128 with an fp16 scale and zero per group.
    Int4,
    /// Dense fp16.
    Fp16,
}

/// Precision for the output projection.
#[derive(Debug, Clone, Copy, PartialEq, Eq, Structural)]
pub enum HeadPrecision {
    /// Keep the output projection in fp16. Safe default.
    Fp16,
    /// Quantize it to int4 with hierarchical scales.
    Int4Hier,
    /// Quantize it to int4 group-128.
    Int4,
}

/// How a tensor is stored.
#[derive(Debug, Clone, Copy, PartialEq, Eq, Structural)]
pub enum Encoding {
    Fp16,
    Int4,
    Int4Hier,
}

/// How a projection of a width is stored. One that the format cannot represent
/// is kept dense rather than padded, which would change the maths.
pub fn body_encoding(body: BodyPrecision, in_features: usize) -> (e: Encoding)
    ensures
        e == body_choice(body, in_features as int),
{
    match body {
        BodyPrecision::Fp16 => Encoding::Fp16,
        BodyPrecision::Int4Hier => {
            if in_features % HGROUP == 0 {
                Encoding::Int4Hier
            } else {
                Encoding::Fp16
            }
        },
        BodyPrecision::Int4 => {
            if in_features % GROUP == 0 {
                Encoding::Int4
            } else {
                Encoding::Fp16
            }
        },
    }
}

/// How a projection of a width is stored.
pub open spec fn body_choice(body: BodyPrecision, width: int) -> Encoding {
    match body {
        BodyPrecision::Fp16 => Encoding::Fp16,
        BodyPrecision::Int4Hier => if width % HGROUP as int == 0 {
            Encoding::Int4Hier
        } else {
            Encoding::Fp16
        },
        BodyPrecision::Int4 => if width % GROUP as int == 0 {
            Encoding::Int4
        } else {
            Encoding::Fp16
        },
    }
}

/// How an output projection of a width is stored.
pub open spec fn head_choice(head: HeadPrecision, width: int) -> Encoding {
    match head {
        HeadPrecision::Fp16 => Encoding::Fp16,
        HeadPrecision::Int4Hier => if width % HGROUP as int == 0 {
            Encoding::Int4Hier
        } else {
            Encoding::Fp16
        },
        HeadPrecision::Int4 => if width % GROUP as int == 0 {
            Encoding::Int4
        } else {
            Encoding::Fp16
        },
    }
}

/// How an output projection of a width is stored.
pub fn head_encoding(head: HeadPrecision, in_features: usize) -> (e: Encoding)
    ensures
        e == head_choice(head, in_features as int),
{
    match head {
        HeadPrecision::Fp16 => Encoding::Fp16,
        HeadPrecision::Int4Hier => {
            if in_features % HGROUP == 0 {
                Encoding::Int4Hier
            } else {
                Encoding::Fp16
            }
        },
        HeadPrecision::Int4 => {
            if in_features % GROUP == 0 {
                Encoding::Int4
            } else {
                Encoding::Fp16
            }
        },
    }
}

/// Whatever is asked for, a matrix is only packed where its width is a whole
/// number of groups.
pub proof fn packed_widths_are_whole_groups(body: BodyPrecision, head: HeadPrecision, width: int)
    ensures
        body_choice(body, width) is Int4 || head_choice(head, width) is Int4 ==> width
            % GROUP as int == 0,
        body_choice(body, width) is Int4Hier || head_choice(head, width) is Int4Hier ==> width
            % HGROUP as int == 0,
{
}

/// What a file says of how its blocks were stored: the scheme, the group size and
/// the method.
pub fn body_meta(body: BodyPrecision) -> (meta: (&'static str, &'static str, &'static str))
    ensures
        meta.0@ == match body {
            BodyPrecision::Int4Hier => "int4-hier-g32"@,
            BodyPrecision::Int4 => "int4-g128-asymmetric"@,
            BodyPrecision::Fp16 => "fp16"@,
        },
        meta.1@ == match body {
            BodyPrecision::Int4Hier => "32"@,
            _ => "128"@,
        },
        meta.2@ == match body {
            BodyPrecision::Int4Hier => "kqx2-weighted-ls"@,
            _ => "rtn"@,
        },
{
    match body {
        BodyPrecision::Int4Hier => ("int4-hier-g32", "32", "kqx2-weighted-ls"),
        BodyPrecision::Int4 => ("int4-g128-asymmetric", "128", "rtn"),
        BodyPrecision::Fp16 => ("fp16", "128", "rtn"),
    }
}

/// What a file says of how its output projection was stored.
pub fn head_meta(head: HeadPrecision) -> (meta: &'static str)
    ensures
        meta@ == match head {
            HeadPrecision::Fp16 => "fp16"@,
            HeadPrecision::Int4 => "int4-g128"@,
            HeadPrecision::Int4Hier => "int4-hier-g32"@,
        },
{
    match head {
        HeadPrecision::Fp16 => "fp16",
        HeadPrecision::Int4 => "int4-g128",
        HeadPrecision::Int4Hier => "int4-hier-g32",
    }
}

/// Whether a checkpoint normalises the queries and keys of each head, which the
/// attention here does not implement. Converting it would produce a model that
/// runs and says fluent, wrong things, so it is to be refused.
pub fn has_qk_norm(c: &Checkpoint) -> (yes: bool)
    ensures
        yes == (c@.find("model.layers.0.self_attn.q_norm.weight"@) is Some || c@.find(
            "model.layers.0.self_attn.k_norm.weight"@,
        ) is Some),
{
    c.get("model.layers.0.self_attn.q_norm.weight").is_ok() || c.get(
        "model.layers.0.self_attn.k_norm.weight",
    ).is_ok()
}

/// What a tensor is to a conversion.
#[derive(Debug, Clone, Copy, PartialEq, Eq, Structural)]
pub enum Role {
    /// A projection of a block, in the precision of the blocks.
    Projection,
    /// A vector, kept as it is.
    Dense,
    /// The embedding, in the precision of the output projection.
    Embedding,
    /// An output projection of its own.
    Head,
}

/// A tensor to be written.
#[derive(Debug)]
pub struct Step {
    pub name: String,
    pub role: Role,
    /// The block it belongs to, where it belongs to one.
    pub block: Option<usize>,
}

/// A tensor to be written.
#[verifier::ext_equal]
pub struct StepView {
    pub name: Seq<char>,
    pub role: Role,
    /// The block it belongs to, where it belongs to one.
    pub block: Option<nat>,
}

impl View for Step {
    type V = StepView;

    open spec fn view(&self) -> StepView {
        StepView {
            name: self.name@,
            role: self.role,
            block: match self.block {
                Some(l) => Some(l as nat),
                None => None,
            },
        }
    }
}

/// What some steps are.
pub open spec fn step_views(steps: Seq<Step>) -> Seq<StepView> {
    steps.map_values(|s: Step| s@)
}

/// The projections of a block.
pub open spec fn projection_suffixes() -> Seq<Seq<char>> {
    seq![
        ".self_attn.q_proj.weight"@,
        ".self_attn.k_proj.weight"@,
        ".self_attn.v_proj.weight"@,
        ".self_attn.o_proj.weight"@,
        ".mlp.gate_proj.weight"@,
        ".mlp.up_proj.weight"@,
        ".mlp.down_proj.weight"@,
    ]
}

/// The gains of a block.
pub open spec fn gain_suffixes() -> Seq<Seq<char>> {
    seq![".input_layernorm.weight"@, ".post_attention_layernorm.weight"@]
}

/// The biases a block may have.
pub open spec fn bias_suffixes() -> Seq<Seq<char>> {
    seq![".self_attn.q_proj.bias"@, ".self_attn.k_proj.bias"@, ".self_attn.v_proj.bias"@]
}

/// Steps for the first `n` of some tensors of a block.
pub open spec fn block_part(l: nat, suffixes: Seq<Seq<char>>, role: Role, n: int) -> Seq<StepView> {
    Seq::new(n as nat, |i: int| StepView { name: block_name(l, suffixes[i]), role, block: Some(l) })
}

/// Steps for those of the first `n` of some tensors of a block that are there.
pub open spec fn present_part(
    c: CheckpointView,
    l: nat,
    suffixes: Seq<Seq<char>>,
    n: int,
) -> Seq<StepView>
    decreases n,
{
    if n <= 0 {
        Seq::empty()
    } else {
        let before = present_part(c, l, suffixes, n - 1);
        let name = block_name(l, suffixes[n - 1]);
        if c.find(name) is Some {
            before.push(StepView { name, role: Role::Dense, block: Some(l) })
        } else {
            before
        }
    }
}

/// The steps of a block: its projections, its gains, and those biases it has.
pub open spec fn block_steps(c: CheckpointView, l: nat) -> Seq<StepView> {
    block_part(l, projection_suffixes(), Role::Projection, 7) + block_part(
        l,
        gain_suffixes(),
        Role::Dense,
        2,
    ) + present_part(c, l, bias_suffixes(), 3)
}

/// The steps of the first `n` blocks.
pub open spec fn blocks_steps(c: CheckpointView, n: nat) -> Seq<StepView>
    decreases n,
{
    if n == 0 {
        Seq::empty()
    } else {
        blocks_steps(c, (n - 1) as nat) + block_steps(c, (n - 1) as nat)
    }
}

/// Everything a conversion writes, in order: the blocks, the final gain, the
/// embedding, and the output projection where it is one of its own.
pub open spec fn plan_of(c: CheckpointView, layers: nat, tied: bool) -> Seq<StepView> {
    blocks_steps(c, layers) + seq![
        StepView { name: "model.norm.weight"@, role: Role::Dense, block: None },
        StepView { name: "model.embed_tokens.weight"@, role: Role::Embedding, block: None },
    ] + if !tied && c.find("lm_head.weight"@) is Some {
        seq![StepView { name: "lm_head.weight"@, role: Role::Head, block: None }]
    } else {
        Seq::empty()
    }
}

/// Appends a step for a tensor of a block.
fn push_block_step(steps: &mut Vec<Step>, l: usize, suffix: &str, role: Role)
    ensures
        step_views(final(steps)@) == step_views(old(steps)@).push(
            StepView { name: block_name(l as nat, suffix@), role, block: Some(l as nat) },
        ),
{
    let ghost before = steps@;
    steps.push(Step { name: name_in_block(l, suffix), role, block: Some(l) });
    assert(step_views(steps@) =~= step_views(before).push(
        StepView { name: block_name(l as nat, suffix@), role, block: Some(l as nat) },
    ));
}

/// Appends the steps of a block.
fn push_block(steps: &mut Vec<Step>, c: &Checkpoint, l: usize)
    ensures
        step_views(final(steps)@) == step_views(old(steps)@) + block_steps(c@, l as nat),
{
    let ghost before = step_views(steps@);
    let ghost n = l as nat;
    push_block_step(steps, l, ".self_attn.q_proj.weight", Role::Projection);
    push_block_step(steps, l, ".self_attn.k_proj.weight", Role::Projection);
    push_block_step(steps, l, ".self_attn.v_proj.weight", Role::Projection);
    push_block_step(steps, l, ".self_attn.o_proj.weight", Role::Projection);
    push_block_step(steps, l, ".mlp.gate_proj.weight", Role::Projection);
    push_block_step(steps, l, ".mlp.up_proj.weight", Role::Projection);
    push_block_step(steps, l, ".mlp.down_proj.weight", Role::Projection);
    let ghost projections = block_part(n, projection_suffixes(), Role::Projection, 7);
    assert(step_views(steps@) =~= before + projections);
    push_block_step(steps, l, ".input_layernorm.weight", Role::Dense);
    push_block_step(steps, l, ".post_attention_layernorm.weight", Role::Dense);
    let ghost gains = block_part(n, gain_suffixes(), Role::Dense, 2);
    assert(step_views(steps@) =~= before + projections + gains);
    let ghost fixed = before + projections + gains;
    assert(step_views(steps@) =~= fixed + present_part(c@, n, bias_suffixes(), 0));
    if c.get(name_in_block(l, ".self_attn.q_proj.bias").as_str()).is_ok() {
        push_block_step(steps, l, ".self_attn.q_proj.bias", Role::Dense);
    }
    assert(step_views(steps@) =~= fixed + present_part(c@, n, bias_suffixes(), 1));
    if c.get(name_in_block(l, ".self_attn.k_proj.bias").as_str()).is_ok() {
        push_block_step(steps, l, ".self_attn.k_proj.bias", Role::Dense);
    }
    assert(step_views(steps@) =~= fixed + present_part(c@, n, bias_suffixes(), 2));
    if c.get(name_in_block(l, ".self_attn.v_proj.bias").as_str()).is_ok() {
        push_block_step(steps, l, ".self_attn.v_proj.bias", Role::Dense);
    }
    assert(step_views(steps@) =~= fixed + present_part(c@, n, bias_suffixes(), 3));
    assert(step_views(steps@) =~= before + block_steps(c@, n));
}

/// Lists what a conversion writes.
pub fn plan(c: &Checkpoint, config: &ModelConfig) -> (steps: Vec<Step>)
    ensures
        step_views(steps@) == plan_of(
            c@,
            config.num_hidden_layers as nat,
            config.tie_word_embeddings,
        ),
{
    let mut steps: Vec<Step> = Vec::new();
    let mut l: usize = 0;
    assert(step_views(steps@) =~= blocks_steps(c@, 0));
    while l < config.num_hidden_layers
        invariant
            l <= config.num_hidden_layers,
            step_views(steps@) == blocks_steps(c@, l as nat),
        decreases config.num_hidden_layers - l,
    {
        push_block(&mut steps, c, l);
        l += 1;
    }
    let ghost blocks = step_views(steps@);
    steps.push(Step { name: "model.norm.weight".to_owned(), role: Role::Dense, block: None });
    steps.push(Step { name: "model.embed_tokens.weight".to_owned(), role: Role::Embedding, block: None });
    let ghost two = seq![
        StepView { name: "model.norm.weight"@, role: Role::Dense, block: None },
        StepView { name: "model.embed_tokens.weight"@, role: Role::Embedding, block: None },
    ];
    assert(step_views(steps@) =~= blocks + two);
    if !config.tie_word_embeddings && c.get("lm_head.weight").is_ok() {
        steps.push(Step { name: "lm_head.weight".to_owned(), role: Role::Head, block: None });
        assert(step_views(steps@) =~= blocks + two + seq![
            StepView { name: "lm_head.weight"@, role: Role::Head, block: None },
        ]);
    } else {
        assert(step_views(steps@) =~= blocks + two + Seq::<StepView>::empty());
    }
    steps
}

/// How a tensor of a width is stored.
pub fn encoding_of(role: Role, body: BodyPrecision, head: HeadPrecision, width: usize) -> (e:
    Encoding)
    ensures
        e == match role {
            Role::Projection => body_choice(body, width as int),
            Role::Dense => Encoding::Fp16,
            Role::Embedding => head_choice(head, width as int),
            Role::Head => head_choice(head, width as int),
        },
{
    match role {
        Role::Projection => body_encoding(body, width),
        Role::Dense => Encoding::Fp16,
        Role::Embedding => head_encoding(head, width),
        Role::Head => head_encoding(head, width),
    }
}

/// Whether the progress of a conversion is reported after a block: every sixth,
/// and the last.
pub fn reports_progress(layer: usize, layers: usize) -> (yes: bool)
    requires
        layer < layers,
    ensures
        yes == (layer % 6 == 0 || layer + 1 == layers),
{
    layer % 6 == 0 || layer + 1 == layers
}

/// The block that is done once the step at `i` is: the one it belongs to, where
/// the next step does not.
pub open spec fn block_done(steps: Seq<StepView>, i: int) -> Option<nat> {
    if i + 1 < steps.len() && steps[i + 1].block == steps[i].block {
        None
    } else {
        steps[i].block
    }
}

/// The block that is done once the step at `i` is.
pub fn finished_block(steps: &Vec<Step>, i: usize) -> (block: Option<usize>)
    requires
        i < steps@.len(),
    ensures
        match block {
            Some(l) => block_done(step_views(steps@), i as int) == Some(l as nat),
            None => block_done(step_views(steps@), i as int) is None,
        },
{
    let ghost all = step_views(steps@);
    assert(all[i as int] == steps@[i as int]@);
    if let Some(l) = steps[i].block {
        if i < steps.len() - 1 {
            assert(all[i + 1] == steps@[i + 1]@);
            if let Some(next) = steps[i + 1].block {
                if next == l {
                    return None;
                }
            }
        }
        return Some(l);
    }
    None
}

/// Whether a tensor is written under a name.
pub open spec fn writes(plan: Seq<StepView>, name: Seq<char>) -> bool {
    exists|k: int| 0 <= k < plan.len() && (#[trigger] plan[k]).name == name
}

/// A conversion writes every tensor that a model of the architecture cannot be
/// read without, and of the others those that the checkpoint has.
pub proof fn plans_are_complete(c: CheckpointView, layers: nat, tied: bool, l: nat, s: int)
    ensures
        l < layers && 0 <= s < 7 ==> writes(
            plan_of(c, layers, tied),
            block_name(l, projection_suffixes()[s]),
        ),
        l < layers && 0 <= s < 2 ==> writes(
            plan_of(c, layers, tied),
            block_name(l, gain_suffixes()[s]),
        ),
        l < layers && 0 <= s < 3 && c.find(block_name(l, bias_suffixes()[s])) is Some ==> writes(
            plan_of(c, layers, tied),
            block_name(l, bias_suffixes()[s]),
        ),
        writes(plan_of(c, layers, tied), "model.norm.weight"@),
        writes(plan_of(c, layers, tied), "model.embed_tokens.weight"@),
        !tied && c.find("lm_head.weight"@) is Some ==> writes(
            plan_of(c, layers, tied),
            "lm_head.weight"@,
        ),
{
    let plan = plan_of(c, layers, tied);
    let n = blocks_steps(c, layers).len() as int;
    if l < layers {
        let from = lemma_block_place(c, layers, l);
        let own = block_steps(c, l);
        if 0 <= s < 7 {
            assert(own[s].name == block_name(l, projection_suffixes()[s]));
            assert(plan[from + s] == own[s]);
        }
        if 0 <= s < 2 {
            assert(own[7 + s].name == block_name(l, gain_suffixes()[s]));
            assert(plan[from + 7 + s] == own[7 + s]);
        }
        if 0 <= s < 3 && c.find(block_name(l, bias_suffixes()[s])) is Some {
            let k = lemma_present(c, l, bias_suffixes(), 3, s);
            assert(own[9 + k] == present_part(c, l, bias_suffixes(), 3)[k]);
            assert(plan[from + 9 + k] == own[9 + k]);
        }
    }
    assert(plan[n].name == "model.norm.weight"@);
    assert(plan[n + 1].name == "model.embed_tokens.weight"@);
    if !tied && c.find("lm_head.weight"@) is Some {
        assert(plan[n + 2].name == "lm_head.weight"@);
    }
}

/// Where the step of a tensor that is there stands.
proof fn lemma_present(
    c: CheckpointView,
    l: nat,
    suffixes: Seq<Seq<char>>,
    n: int,
    s: int,
) -> (k: int)
    requires
        0 <= s < n,
        c.find(block_name(l, suffixes[s])) is Some,
    ensures
        0 <= k < present_part(c, l, suffixes, n).len(),
        present_part(c, l, suffixes, n)[k].name == block_name(l, suffixes[s]),
    decreases n,
{
    if s == n - 1 {
        present_part(c, l, suffixes, n - 1).len() as int
    } else {
        lemma_present(c, l, suffixes, n - 1, s)
    }
}

/// Where the steps of a block stand.
proof fn lemma_block_place(c: CheckpointView, layers: nat, l: nat) -> (from: int)
    requires
        l < layers,
    ensures
        0 <= from,
        from + block_steps(c, l).len() <= blocks_steps(c, layers).len(),
        forall|k: int|
            0 <= k < block_steps(c, l).len() ==> blocks_steps(c, layers)[from + k]
                == #[trigger] block_steps(c, l)[k],
    decreases layers,
{
    if l == layers - 1 {
        blocks_steps(c, l).len() as int
    } else {
        lemma_block_place(c, (layers - 1) as nat, l)
    }
}

/// The steps of the first blocks, with those of each block together.
proof fn lemma_blocks_in_order(c: CheckpointView, layers: nat, i: int)
    requires
        0 <= i < blocks_steps(c, layers).len(),
    ensures
        blocks_steps(c, layers)[i].block matches Some(l) && l < layers && blocks_steps(c, l).len()
            <= i < blocks_steps(c, l + 1).len(),
    decreases layers,
{
    let before = blocks_steps(c, (layers - 1) as nat);
    if i < before.len() {
        lemma_blocks_in_order(c, (layers - 1) as nat, i);
    } else {
        let l = (layers - 1) as nat;
        let own = block_steps(c, l);
        assert(blocks_steps(c, layers)[i] == own[i - before.len()]);
        lemma_present_block(c, l, bias_suffixes(), 3);
    }
}

/// What is there of a block's tensors belongs to it.
proof fn lemma_present_block(c: CheckpointView, l: nat, suffixes: Seq<Seq<char>>, n: int)
    ensures
        forall|k: int|
            0 <= k < present_part(c, l, suffixes, n).len() ==> (#[trigger] present_part(
                c,
                l,
                suffixes,
                n,
            )[k]).block == Some(l),
    decreases n,
{
    if n > 0 {
        lemma_present_block(c, l, suffixes, n - 1);
    }
}

proof fn lemma_blocks_grow(c: CheckpointView, a: nat, b: nat)
    requires
        a <= b,
    ensures
        blocks_steps(c, a).len() <= blocks_steps(c, b).len(),
    decreases b,
{
    if a < b {
        lemma_blocks_grow(c, a, (b - 1) as nat);
    }
}

/// Each block is done at one step of a conversion, its last, and no other block
/// is: a step either ends the block `l < layers` that it completes, or none.
pub proof fn each_block_is_done_once(c: CheckpointView, layers: nat, tied: bool, i: int, l: nat)
    requires
        0 <= i < plan_of(c, layers, tied).len(),
    ensures
        block_done(plan_of(c, layers, tied), i) == Some(l) <==> l < layers && i + 1 == blocks_steps(
            c,
            l + 1,
        ).len(),
{
    let plan = plan_of(c, layers, tied);
    let blocks = blocks_steps(c, layers);
    if l < layers {
        lemma_blocks_grow(c, l + 1, layers);
    }
    if i < blocks.len() {
        assert(plan[i] == blocks[i]);
        lemma_blocks_in_order(c, layers, i);
        let own = blocks[i].block->0;
        if own < l {
            lemma_blocks_grow(c, own + 1, l);
        } else if l < own {
            lemma_blocks_grow(c, l + 1, own);
        }
        if i + 1 < blocks.len() {
            assert(plan[i + 1] == blocks[i + 1]);
            lemma_blocks_in_order(c, layers, i + 1);
            let next = blocks[i + 1].block->0;
            if next < own {
                lemma_blocks_grow(c, next + 1, own);
            } else if own < next {
                lemma_blocks_grow(c, own + 1, next);
            }
        } else {
            assert(plan[i + 1].block is None);
            assert(own + 1 <= layers);
            lemma_blocks_grow(c, own + 1, layers);
        }
    } else {
        assert(plan[i].block is None);
    }
}

/// What is asked for the blocks, as a form of storage.
pub open spec fn asked_of_blocks(body: BodyPrecision) -> Encoding {
    match body {
        BodyPrecision::Int4Hier => Encoding::Int4Hier,
        BodyPrecision::Int4 => Encoding::Int4,
        BodyPrecision::Fp16 => Encoding::Fp16,
    }
}

/// What is asked for the output projection, as a form of storage.
pub open spec fn asked_of_head(head: HeadPrecision) -> Encoding {
    match head {
        HeadPrecision::Int4Hier => Encoding::Int4Hier,
        HeadPrecision::Int4 => Encoding::Int4,
        HeadPrecision::Fp16 => Encoding::Fp16,
    }
}

/// A matrix is stored in the form asked for wherever its width is a whole number
/// of that form's groups, which are of 32 or of 128, and is kept dense where it is
/// not: never in a third form.
pub proof fn matrices_are_stored_as_asked(body: BodyPrecision, head: HeadPrecision, width: int)
    requires
        0 <= width,
    ensures
        body_choice(body, width) == asked_of_blocks(body) || body_choice(body, width)
            == Encoding::Fp16,
        head_choice(head, width) == asked_of_head(head) || head_choice(head, width)
            == Encoding::Fp16,
        body_choice(BodyPrecision::Int4Hier, width) == Encoding::Int4Hier <==> width % 32 == 0,
        head_choice(HeadPrecision::Int4Hier, width) == Encoding::Int4Hier <==> width % 32 == 0,
        body_choice(BodyPrecision::Int4, width) == Encoding::Int4 <==> width % 128 == 0,
        head_choice(HeadPrecision::Int4, width) == Encoding::Int4 <==> width % 128 == 0,
{
}

/// Blocks and output projection follow one rule, and what is packed for groups of
/// 128 could be packed for groups of 32 too.
pub proof fn blocks_and_head_follow_one_rule(width: int)
    requires
        0 <= width,
    ensures
        body_choice(BodyPrecision::Int4Hier, width) == head_choice(HeadPrecision::Int4Hier, width),
        body_choice(BodyPrecision::Int4, width) == head_choice(HeadPrecision::Int4, width),
        body_choice(BodyPrecision::Fp16, width) == head_choice(HeadPrecision::Fp16, width),
        body_choice(BodyPrecision::Int4, width) is Int4 ==> body_choice(
            BodyPrecision::Int4Hier,
            width,
        ) is Int4Hier,
{
}

/// Every block is written whole: its seven projections in the precision of the
/// blocks, its two gains as they are, and as they are those of its three biases
/// that the checkpoint has.
pub proof fn a_block_is_written_whole(c: CheckpointView, layers: nat, tied: bool, l: nat)
    requires
        l < layers,
    ensures
        ({
            let plan = plan_of(c, layers, tied);
            let packed = |s: Seq<char>|
                plan.contains(
                    StepView { name: block_name(l, s), role: Role::Projection, block: Some(l) },
                );
            let dense = |s: Seq<char>|
                plan.contains(StepView { name: block_name(l, s), role: Role::Dense, block: Some(l) });
            &&& packed(".self_attn.q_proj.weight"@)
            &&& packed(".self_attn.k_proj.weight"@)
            &&& packed(".self_attn.v_proj.weight"@)
            &&& packed(".self_attn.o_proj.weight"@)
            &&& packed(".mlp.gate_proj.weight"@)
            &&& packed(".mlp.up_proj.weight"@)
            &&& packed(".mlp.down_proj.weight"@)
            &&& dense(".input_layernorm.weight"@)
            &&& dense(".post_attention_layernorm.weight"@)
            &&& c.find(block_name(l, ".self_attn.q_proj.bias"@)) is Some ==> dense(
                ".self_attn.q_proj.bias"@,
            )
            &&& c.find(block_name(l, ".self_attn.k_proj.bias"@)) is Some ==> dense(
                ".self_attn.k_proj.bias"@,
            )
            &&& c.find(block_name(l, ".self_attn.v_proj.bias"@)) is Some ==> dense(
                ".self_attn.v_proj.bias"@,
            )
        }),
{
    let plan = plan_of(c, layers, tied);
    let from = lemma_block_place(c, layers, l);
    let own = block_steps(c, l);
    assert forall|k: int| 0 <= k < own.len() implies plan.contains(#[trigger] own[k]) by {
        assert(plan[from + k] == own[k]);
    }
    let p = projection_suffixes();
    assert(own[0].name == block_name(l, p[0]));
    assert(own[1].name == block_name(l, p[1]));
    assert(own[2].name == block_name(l, p[2]));
    assert(own[3].name == block_name(l, p[3]));
    assert(own[4].name == block_name(l, p[4]));
    assert(own[5].name == block_name(l, p[5]));
    assert(own[6].name == block_name(l, p[6]));
    let g = gain_suffixes();
    assert(own[7].name == block_name(l, g[0]));
    assert(own[8].name == block_name(l, g[1]));
    let b = bias_suffixes();
    let there = present_part(c, l, b, 3);
    lemma_present_shape(c, l, b, 3);
    assert forall|s: int| 0 <= s < 3 && c.find(block_name(l, #[trigger] b[s])) is Some implies plan.contains(
        StepView { name: block_name(l, b[s]), role: Role::Dense, block: Some(l) },
    ) by {
        let k = lemma_present(c, l, b, 3, s);
        assert(own[9 + k] == there[k]);
    }
    assert(b[0] == ".self_attn.q_proj.bias"@);
    assert(b[1] == ".self_attn.k_proj.bias"@);
    assert(b[2] == ".self_attn.v_proj.bias"@);
}

/// What is there of a block's tensors is kept as it is, and is one of them.
proof fn lemma_present_shape(c: CheckpointView, l: nat, suffixes: Seq<Seq<char>>, n: int)
    ensures
        forall|k: int|
            0 <= k < present_part(c, l, suffixes, n).len() ==> {
                let s = #[trigger] present_part(c, l, suffixes, n)[k];
                &&& s.role == Role::Dense && s.block == Some(l) && c.find(s.name) is Some
                &&& exists|j: int| 0 <= j < n && s.name == block_name(l, #[trigger] suffixes[j])
            },
    decreases n,
{
    if n > 0 {
        lemma_present_shape(c, l, suffixes, n - 1);
        let now = present_part(c, l, suffixes, n);
        let before = present_part(c, l, suffixes, n - 1);
        assert forall|k: int| 0 <= k < now.len() implies {
            let s = #[trigger] now[k];
            &&& s.role == Role::Dense && s.block == Some(l) && c.find(s.name) is Some
            &&& exists|j: int| 0 <= j < n && s.name == block_name(l, #[trigger] suffixes[j])
        } by {
            if k < before.len() {
                assert(now[k] == before[k]);
            } else {
                assert(now[k].name == block_name(l, suffixes[n - 1]));
            }
        }
    }
}

/// Nothing but the tensors of the architecture is written: a step of a block is
/// one of its projections, gains or biases, and of the others there are the final
/// gain, the embedding, and an output projection only where the model has its own.
pub proof fn nothing_else_is_written(c: CheckpointView, layers: nat, tied: bool, k: int)
    requires
        0 <= k < plan_of(c, layers, tied).len(),
    ensures
        ({
            let s = plan_of(c, layers, tied)[k];
            match s.block {
                Some(l) => l < layers && match s.role {
                    Role::Projection => {
                        ||| s.name == block_name(l, ".self_attn.q_proj.weight"@)
                        ||| s.name == block_name(l, ".self_attn.k_proj.weight"@)
                        ||| s.name == block_name(l, ".self_attn.v_proj.weight"@)
                        ||| s.name == block_name(l, ".self_attn.o_proj.weight"@)
                        ||| s.name == block_name(l, ".mlp.gate_proj.weight"@)
                        ||| s.name == block_name(l, ".mlp.up_proj.weight"@)
                        ||| s.name == block_name(l, ".mlp.down_proj.weight"@)
                    },
                    Role::Dense => {
                        ||| s.name == block_name(l, ".input_layernorm.weight"@)
                        ||| s.name == block_name(l, ".post_attention_layernorm.weight"@)
                        ||| c.find(s.name) is Some && s.name == block_name(l, ".self_attn.q_proj.bias"@)
                        ||| c.find(s.name) is Some && s.name == block_name(l, ".self_attn.k_proj.bias"@)
                        ||| c.find(s.name) is Some && s.name == block_name(l, ".self_attn.v_proj.bias"@)
                    },
                    _ => false,
                },
                None => match s.role {
                    Role::Dense => s.name == "model.norm.weight"@,
                    Role::Embedding => s.name == "model.embed_tokens.weight"@,
                    Role::Head => s.name == "lm_head.weight"@ && !tied && c.find(s.name) is Some,
                    Role::Projection => false,
                },
            }
        }),
{
    let plan = plan_of(c, layers, tied);
    let blocks = blocks_steps(c, layers);
    if k < blocks.len() {
        assert(plan[k] == blocks[k]);
        lemma_step_of_a_block(c, layers, k);
    }
}

proof fn lemma_step_of_a_block(c: CheckpointView, layers: nat, k: int)
    requires
        0 <= k < blocks_steps(c, layers).len(),
    ensures
        ({
            let s = blocks_steps(c, layers)[k];
            &&& s.block matches Some(l)
            &&& l < layers
            &&& match s.role {
                Role::Projection => {
                    ||| s.name == block_name(l, ".self_attn.q_proj.weight"@)
                    ||| s.name == block_name(l, ".self_attn.k_proj.weight"@)
                    ||| s.name == block_name(l, ".self_attn.v_proj.weight"@)
                    ||| s.name == block_name(l, ".self_attn.o_proj.weight"@)
                    ||| s.name == block_name(l, ".mlp.gate_proj.weight"@)
                    ||| s.name == block_name(l, ".mlp.up_proj.weight"@)
                    ||| s.name == block_name(l, ".mlp.down_proj.weight"@)
                },
                Role::Dense => {
                    ||| s.name == block_name(l, ".input_layernorm.weight"@)
                    ||| s.name == block_name(l, ".post_attention_layernorm.weight"@)
                    ||| c.find(s.name) is Some && s.name == block_name(l, ".self_attn.q_proj.bias"@)
                    ||| c.find(s.name) is Some && s.name == block_name(l, ".self_attn.k_proj.bias"@)
                    ||| c.find(s.name) is Some && s.name == block_name(l, ".self_attn.v_proj.bias"@)
                },
                _ => false,
            }
        }),
    decreases layers,
{
    let l = (layers - 1) as nat;
    let before = blocks_steps(c, l);
    if k < before.len() {
        lemma_step_of_a_block(c, l, k);
    } else {
        let own = block_steps(c, l);
        let i = k - before.len();
        assert(blocks_steps(c, layers)[k] == own[i]);
        if i < 7 {
            assert(own[i].name == block_name(l, projection_suffixes()[i]));
            assert(i == 0 || i == 1 || i == 2 || i == 3 || i == 4 || i == 5 || i == 6);
        } else if i < 9 {
            assert(own[i].name == block_name(l, gain_suffixes()[i - 7]));
            assert(i == 7 || i == 8);
        } else {
            let b = bias_suffixes();
            lemma_present_shape(c, l, b, 3);
            let s = present_part(c, l, b, 3)[i - 9];
            assert(own[i] == s);
            let j = choose|j: int| 0 <= j < 3 && s.name == block_name(l, #[trigger] b[j]);
            assert(j == 0 || j == 1 || j == 2);
        }
    }
}

/// One where a checkpoint has a tensor, and nothing where it has not.
pub open spec fn one_if_there(c: CheckpointView, name: Seq<char>) -> int {
    if c.find(name) is Some {
        1
    } else {
        0
    }
}

/// The biases that the first `layers` blocks have in a checkpoint.
pub open spec fn biases_there(c: CheckpointView, layers: nat) -> int
    decreases layers,
{
    if layers == 0 {
        0
    } else {
        let l = (layers - 1) as nat;
        biases_there(c, l) + one_if_there(c, block_name(l, ".self_attn.q_proj.bias"@)) + one_if_there(
            c,
            block_name(l, ".self_attn.k_proj.bias"@),
        ) + one_if_there(c, block_name(l, ".self_attn.v_proj.bias"@))
    }
}

/// Nothing is written twice over: nine tensors for each block, the biases that are
/// there, the final gain, the embedding, and an output projection where the model
/// has its own.
pub proof fn as_much_is_written_as_there_is(c: CheckpointView, layers: nat, tied: bool)
    ensures
        plan_of(c, layers, tied).len() == 9 * layers + biases_there(c, layers) + 2 + if tied {
            0
        } else {
            one_if_there(c, "lm_head.weight"@)
        },
{
    lemma_blocks_len(c, layers);
}

proof fn lemma_blocks_len(c: CheckpointView, layers: nat)
    ensures
        blocks_steps(c, layers).len() == 9 * layers + biases_there(c, layers),
    decreases layers,
{
    if layers > 0 {
        let l = (layers - 1) as nat;
        lemma_blocks_len(c, l);
        let b = bias_suffixes();
        assert(b[0] == ".self_attn.q_proj.bias"@);
        assert(b[1] == ".self_attn.k_proj.bias"@);
        assert(b[2] == ".self_attn.v_proj.bias"@);
        reveal_with_fuel(present_part, 4);
        assert(present_part(c, l, b, 3).len() == one_if_there(c, block_name(l, b[0])) + one_if_there(
            c,
            block_name(l, b[1]),
        ) + one_if_there(c, block_name(l, b[2])));
    }
}

/// Blocks are written one after the other, and what belongs to none comes last.
pub proof fn blocks_are_written_in_order(c: CheckpointView, layers: nat, tied: bool, i: int, j: int)
    requires
        0 <= i < j < plan_of(c, layers, tied).len(),
    ensures
        match (plan_of(c, layers, tied)[i].block, plan_of(c, layers, tied)[j].block) {
            (Some(a), Some(b)) => a <= b,
            (None, Some(_)) => false,
            _ => true,
        },
{
    let plan = plan_of(c, layers, tied);
    let blocks = blocks_steps(c, layers);
    if j < blocks.len() {
        assert(plan[i] == blocks[i]);
        assert(plan[j] == blocks[j]);
        lemma_blocks_in_order(c, layers, i);
        lemma_blocks_in_order(c, layers, j);
        let a = blocks[i].block->0;
        let b = blocks[j].block->0;
        if b < a {
            lemma_blocks_grow(c, b + 1, a);
        }
    } else {
        assert(plan[j].block is None);
    }
}

} // verus!
