//! The shapes a benchmark sweeps.

use vstd::prelude::*;

use crate::config::ModelConfig;

verus! {

/// A shape a decode step issues, and how many times.
#[derive(Debug, Clone, Copy)]
pub struct Shape {
    pub name: &'static str,
    pub in_f: usize,
    pub out_f: usize,
    /// Invocations per token.
    pub per_token: usize,
}

/// Whether a shape is this one.
pub open spec fn is_shape(s: Shape, name: Seq<char>, in_f: int, out_f: int, per_token: int) -> bool {
    s.name@ == name && s.in_f == in_f && s.out_f == out_f && s.per_token == per_token
}

/// The shapes a decode step of a model of these sizes issues.
pub fn shapes(layers: usize, hidden: usize, kv_dim: usize, inter: usize, vocab: usize) -> (list:
    Vec<Shape>)
    requires
        2 * layers <= usize::MAX,
    ensures
        list@.len() == 5,
        is_shape(list@[0], "q/o proj"@, hidden as int, hidden as int, 2 * layers),
        is_shape(list@[1], "k/v proj"@, hidden as int, kv_dim as int, 2 * layers),
        is_shape(list@[2], "gate/up"@, hidden as int, inter as int, 2 * layers),
        is_shape(list@[3], "down"@, inter as int, hidden as int, layers as int),
        is_shape(list@[4], "lm_head"@, hidden as int, vocab as int, 1),
{
    vec![
        Shape { name: "q/o proj", in_f: hidden, out_f: hidden, per_token: 2 * layers },
        Shape { name: "k/v proj", in_f: hidden, out_f: kv_dim, per_token: 2 * layers },
        Shape { name: "gate/up", in_f: hidden, out_f: inter, per_token: 2 * layers },
        Shape { name: "down", in_f: inter, out_f: hidden, per_token: layers },
        Shape { name: "lm_head", in_f: hidden, out_f: vocab, per_token: 1 },
    ]
}

/// What the weights of the listed shapes come to, by invocations.
pub open spec fn swept(s: Seq<Shape>, n: int) -> int
    decreases n,
{
    if n <= 0 {
        0
    } else {
        swept(s, n - 1) + s[n - 1].per_token * (s[n - 1].in_f * s[n - 1].out_f)
    }
}

/// The listed shapes are all a decode step reads: weighted by how often each of
/// them runs, they come to the weights of the blocks and the output projection.
pub proof fn shapes_cover_a_step(c: ModelConfig, list: Seq<Shape>)
    requires
        c.num_attention_heads * c.head_width() == c.hidden_size,
        list.len() == 5,
        ({
            let hidden = c.hidden_size as int;
            let layers = c.num_hidden_layers as int;
            let inter = c.intermediate_size as int;
            let kv_dim = c.kv_heads() * c.head_width();
            &&& is_shape(list[0], "q/o proj"@, hidden, hidden, 2 * layers)
            &&& is_shape(list[1], "k/v proj"@, hidden, kv_dim, 2 * layers)
            &&& is_shape(list[2], "gate/up"@, hidden, inter, 2 * layers)
            &&& is_shape(list[3], "down"@, inter, hidden, layers)
            &&& is_shape(list[4], "lm_head"@, hidden, c.vocab_size as int, 1)
        }),
    ensures
        swept(list, 5) == c.body_weights() + c.head_weights(),
{
    reveal_with_fuel(swept, 6);
    let h = c.hidden_size as int;
    let l = c.num_hidden_layers as int;
    let i = c.intermediate_size as int;
    let v = c.vocab_size as int;
    let n = c.num_attention_heads as int;
    let k = c.kv_heads() as int;
    let d = c.head_width() as int;
    let kd = k * d;
    assert(h * n * d == h * h) by (nonlinear_arith)
        requires
            n * d == h,
    ;
    assert(h * k * d == h * kd) by (nonlinear_arith)
        requires
            kd == k * d,
    ;
    assert(2 * l * (h * h) + 2 * l * (h * kd) + 2 * l * (h * i) + l * (i * h) + 1 * (h * v) == l
        * (2 * (h * h) + 2 * (h * kd) + 3 * (h * i)) + v * h) by (nonlinear_arith);
}

} // verus!
