//! Attributing the time of a decode step to classes of kernels.
//!
//! Marks are recorded into the stream, one at each boundary between kernels, and
//! each interval between two marks belongs to one class.

use vstd::prelude::*;

verus! {

/// A class of kernel in the decode step.
#[derive(Debug, Clone, Copy, PartialEq, Eq, Structural)]
pub enum Stage {
    /// Input embedding gather.
    Embed,
    /// Any of the normalisations.
    RmsNorm,
    /// The joined query/key/value projection.
    Qkv,
    /// Rotary embedding and the cache append.
    Rope,
    /// Attention against the cache.
    Attention,
    /// Attention output projection.
    OProj,
    /// The joined gate/up projection.
    GateUp,
    /// The gated product.
    Swiglu,
    /// MLP down projection.
    DownProj,
    /// Output projection over the vocabulary.
    LmHead,
    /// Choice of the next token.
    Sample,
    /// The position advance, and boundary marks with no work between them.
    Advance,
}

/// The stages of one block, in order.
pub open spec fn block_stages() -> Seq<Stage> {
    seq![
        Stage::RmsNorm,
        Stage::Qkv,
        Stage::Rope,
        Stage::Attention,
        Stage::OProj,
        Stage::RmsNorm,
        Stage::GateUp,
        Stage::Swiglu,
        Stage::DownProj,
        Stage::Advance,
    ]
}

/// The stages of `n` blocks, in order.
pub open spec fn blocks_stages(n: nat) -> Seq<Stage>
    decreases n,
{
    if n == 0 {
        Seq::empty()
    } else {
        blocks_stages((n - 1) as nat) + block_stages()
    }
}

/// The stages of a decode step, in order.
pub open spec fn step_stages(layers: nat) -> Seq<Stage> {
    seq![Stage::Embed] + blocks_stages(layers) + seq![
        Stage::RmsNorm,
        Stage::LmHead,
        Stage::Sample,
        Stage::Advance,
    ]
}

/// There is one interval for each of ten stages of a block, and five more; so
/// there is one mark more than that.
pub proof fn stages_are_counted(layers: nat)
    ensures
        blocks_stages(layers).len() == 10 * layers,
        step_stages(layers).len() == 10 * layers + 5,
    decreases layers,
{
    if layers > 0 {
        stages_are_counted((layers - 1) as nat);
    }
}

/// The class of each interval of a decode step, in order.
pub fn stage_labels(layers: usize) -> (labels: Vec<Stage>)
    ensures
        labels@ == step_stages(layers as nat),
        labels@.len() == 10 * layers + 5,
{
    let mut labels: Vec<Stage> = Vec::new();
    labels.push(Stage::Embed);
    let mut l: usize = 0;
    assert(labels@ =~= seq![Stage::Embed] + blocks_stages(0));
    while l < layers
        invariant
            l <= layers,
            labels@ == seq![Stage::Embed] + blocks_stages(l as nat),
        decreases layers - l,
    {
        labels.push(Stage::RmsNorm);
        labels.push(Stage::Qkv);
        labels.push(Stage::Rope);
        labels.push(Stage::Attention);
        labels.push(Stage::OProj);
        labels.push(Stage::RmsNorm);
        labels.push(Stage::GateUp);
        labels.push(Stage::Swiglu);
        labels.push(Stage::DownProj);
        labels.push(Stage::Advance);
        l += 1;
        assert(labels@ =~= seq![Stage::Embed] + blocks_stages(l as nat));
    }
    labels.push(Stage::RmsNorm);
    labels.push(Stage::LmHead);
    labels.push(Stage::Sample);
    labels.push(Stage::Advance);
    proof {
        stages_are_counted(layers as nat);
        assert(labels@ =~= step_stages(layers as nat));
    }
    labels
}

/// Launches one decode step issues: the gather, nine for each block, the output
/// projection with its normalisation, and the choice of a token with the advance.
pub fn launches(layers: usize) -> (n: usize)
    requires
        9 * layers + 7 <= usize::MAX,
    ensures
        n == 1 + 9 * layers + 2 + 4,
{
    1 + 9 * layers + 2 + 4
}

/// Whether profiling has to start over before the next step: the cache is full.
pub fn must_reset(pos: usize, max_seq: usize) -> (yes: bool)
    ensures
        yes == (pos >= max_seq),
{
    pos >= max_seq
}

} // verus!
