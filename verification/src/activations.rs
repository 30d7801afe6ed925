//! The sizes of the buffers a pass works in.

use vstd::prelude::*;

use crate::config::ModelConfig;
use crate::kernels::{qkv_stride, qkv_width};

verus! {

/// How many elements each activation buffer holds.
#[derive(Debug, Clone, Copy, PartialEq, Eq, Structural)]
pub struct ActivationSizes {
    /// The residual stream, fp32.
    pub x: usize,
    /// Normalised activations, fp16.
    pub h: usize,
    /// Queries, keys and values, fp32.
    pub qkv: usize,
    /// Attention output, fp16.
    pub attn: usize,
    /// Gate and up projections, fp32.
    pub gate_up: usize,
    /// Gated product, fp16.
    pub act: usize,
    /// Scores of the vocabulary, fp32.
    pub logits: usize,
    /// Token ids, and as many choices, 32 bits each.
    pub tokens: usize,
}

/// Whether the sizes are those of a pass over `width` tokens.
pub open spec fn are_sizes(s: ActivationSizes, c: ModelConfig, width: usize) -> bool {
    &&& s.x == width * c.hidden_size
    &&& s.h == width * c.hidden_size
    &&& s.qkv == width * qkv_width(
        c.num_attention_heads as int,
        c.kv_heads() as int,
        c.head_width() as int,
    )
    &&& s.attn == width * (c.num_attention_heads * c.head_width())
    &&& s.gate_up == width * (2 * c.intermediate_size)
    &&& s.act == width * c.intermediate_size
    &&& s.logits == width * c.vocab_size
    &&& s.tokens == width
}

/// Whether some size of a pass over `width` tokens cannot be stated.
pub open spec fn too_large(c: ModelConfig, width: usize) -> bool {
    ||| width * c.hidden_size > usize::MAX
    ||| qkv_width(
        c.num_attention_heads as int,
        c.kv_heads() as int,
        c.head_width() as int,
    ) > usize::MAX
    ||| width * qkv_width(
        c.num_attention_heads as int,
        c.kv_heads() as int,
        c.head_width() as int,
    ) > usize::MAX
    ||| c.num_attention_heads * c.head_width() > usize::MAX
    ||| width * (c.num_attention_heads * c.head_width()) > usize::MAX
    ||| 2 * c.intermediate_size > usize::MAX
    ||| width * (2 * c.intermediate_size) > usize::MAX
    ||| width * c.intermediate_size > usize::MAX
    ||| width * c.vocab_size > usize::MAX
}

impl ActivationSizes {
    /// The sizes of a pass over `width` tokens, where they can be stated.
    pub fn new(c: &ModelConfig, width: usize) -> (sizes: Option<ActivationSizes>)
        requires
            c.num_attention_heads != 0,
        ensures
            match sizes {
                Some(s) => are_sizes(s, *c, width) && !too_large(*c, width),
                None => too_large(*c, width),
            },
    {
        let d: usize = c.head_dim();
        let stride: usize = match qkv_stride(c.num_attention_heads, c.n_kv_heads(), d) {
            Some(n) => n,
            None => {
                return None;
            },
        };
        let queries: usize = match c.num_attention_heads.checked_mul(d) {
            Some(n) => n,
            None => {
                return None;
            },
        };
        let both: usize = match c.intermediate_size.checked_mul(2) {
            Some(n) => n,
            None => {
                return None;
            },
        };
        match (
            width.checked_mul(c.hidden_size),
            width.checked_mul(stride),
            width.checked_mul(queries),
            width.checked_mul(both),
            width.checked_mul(c.intermediate_size),
            width.checked_mul(c.vocab_size),
        ) {
            (Some(x), Some(qkv), Some(attn), Some(gate_up), Some(act), Some(logits)) => Some(
                ActivationSizes { x, h: x, qkv, attn, gate_up, act, logits, tokens: width },
            ),
            _ => None,
        }
    }

    /// Bytes the buffers of a pass over several tokens take: four for each number
    /// but the narrowed activations, which take two.
    pub fn bytes(&self) -> (n: usize)
        requires
            self.total() <= usize::MAX,
        ensures
            n == self.total(),
    {
        4 * self.x + 2 * self.h + 4 * self.qkv + 2 * self.attn + 4 * self.gate_up + 2 * self.act + 4
            * self.logits + 4 * self.tokens + 4 * self.tokens
    }

    /// Bytes the buffers of a pass over several tokens take.
    pub open spec fn total(self) -> int {
        4 * self.x + 2 * self.h + 4 * self.qkv + 2 * self.attn + 4 * self.gate_up + 2 * self.act + 4
            * self.logits + 8 * self.tokens
    }
}

/// A pass over several tokens takes exactly that many times the buffers of a pass
/// over one.
pub proof fn sizes_scale_with_width(
    c: ModelConfig,
    one: ActivationSizes,
    many: ActivationSizes,
    width: usize,
)
    requires
        are_sizes(one, c, 1),
        are_sizes(many, c, width),
    ensures
        many.x == width * one.x,
        many.h == width * one.h,
        many.qkv == width * one.qkv,
        many.attn == width * one.attn,
        many.gate_up == width * one.gate_up,
        many.act == width * one.act,
        many.logits == width * one.logits,
{
}

} // verus!
