//! Model configuration, and the counts derived from it.
//!
//! The counts are not decoration. Batch-1 decode is bandwidth bound, so how many
//! weights a token reads decides whether an optimisation is worth having before
//! it is written.

use vstd::prelude::*;

use crate::error::{ConfigIssue, Error};
use crate::text::str_eq;

verus! {

/// A Qwen2-family model configuration: everything of `config.json` that is a
/// whole number, a flag or a name.
pub struct ModelConfig {
    /// Model family identifier, e.g. `"qwen2"`.
    pub model_type: String,
    /// Residual stream width.
    pub hidden_size: usize,
    /// Number of transformer blocks.
    pub num_hidden_layers: usize,
    /// Number of query heads.
    pub num_attention_heads: usize,
    /// Number of key/value heads. Fewer than query heads means that they are
    /// shared.
    pub num_key_value_heads: Option<usize>,
    /// SwiGLU inner width.
    pub intermediate_size: usize,
    /// Token vocabulary size.
    pub vocab_size: usize,
    /// Maximum trained context length.
    pub max_position_embeddings: usize,
    /// Whether `lm_head` reuses the embedding matrix.
    pub tie_word_embeddings: bool,
    /// Activation function name.
    pub hidden_act: String,
    /// Explicit head width, where it is not `hidden / heads`.
    pub head_dim: Option<usize>,
}

/// The context length of a configuration that states none.
pub fn default_max_pos() -> (n: usize)
    ensures
        n == 32768,
{
    32768
}

/// The activation of a configuration that states none.
pub fn default_hidden_act() -> (name: String)
    ensures
        name@ == "silu"@,
{
    String::from_str("silu")
}

/// What keeps a configuration from being executed. The first that applies is
/// reported.
pub open spec fn config_fault(c: ModelConfig) -> Option<ConfigFault> {
    if c.hidden_size == 0 || c.num_attention_heads == 0 {
        Some(ConfigFault::Zero)
    } else if c.head_dim is None && c.hidden_size % c.num_attention_heads != 0 {
        Some(ConfigFault::UnevenHeads)
    } else if c.kv_heads() == 0 || c.num_attention_heads % c.kv_heads() != 0 {
        Some(ConfigFault::KvHeads)
    } else if c.hidden_act@ != "silu"@ && c.hidden_act@ != "swish"@ {
        Some(ConfigFault::Activation)
    } else if c.model_type@.len() != 0 && c.model_type@ != "qwen2"@ && c.model_type@ != "qwen3"@ {
        Some(ConfigFault::Family)
    } else {
        None
    }
}

/// The ways in which a configuration can fail to be executable.
pub enum ConfigFault {
    Zero,
    UnevenHeads,
    KvHeads,
    Activation,
    Family,
}

/// Whether an error reports a fault of a configuration, with the values that
/// make it one.
pub open spec fn reports(e: Error, fault: ConfigFault, c: ModelConfig) -> bool {
    match (e, fault) {
        (Error::Config(ConfigIssue::ZeroSize), ConfigFault::Zero) => true,
        (Error::Config(ConfigIssue::UnevenHeads { hidden, heads }), ConfigFault::UnevenHeads) =>
            hidden == c.hidden_size && heads == c.num_attention_heads,
        (Error::Config(ConfigIssue::KvHeads { heads, kv }), ConfigFault::KvHeads) => heads
            == c.num_attention_heads && kv == c.kv_heads(),
        (Error::Config(ConfigIssue::Activation(name)), ConfigFault::Activation) => name@
            == c.hidden_act@,
        (Error::Config(ConfigIssue::Family(name)), ConfigFault::Family) => name@ == c.model_type@,
        _ => false,
    }
}

impl ModelConfig {
    /// Number of key/value heads.
    pub open spec fn kv_heads(self) -> usize {
        match self.num_key_value_heads {
            Some(n) => n,
            None => self.num_attention_heads,
        }
    }

    /// Width of a head.
    pub open spec fn head_width(self) -> usize {
        match self.head_dim {
            Some(d) => d,
            None => (self.hidden_size / self.num_attention_heads) as usize,
        }
    }

    /// Attention weights of one block: the query and output projections, and the
    /// key and value projections.
    pub open spec fn attn_weights(self) -> nat {
        2 * (self.hidden_size as nat * self.num_attention_heads as nat * self.head_width() as nat)
            + 2 * (self.hidden_size as nat * self.kv_heads() as nat * self.head_width() as nat)
    }

    /// MLP weights of one block.
    pub open spec fn mlp_weights(self) -> nat {
        3 * (self.hidden_size as nat * self.intermediate_size as nat)
    }

    /// Weights of one block.
    pub open spec fn block_weights(self) -> nat {
        self.attn_weights() + self.mlp_weights()
    }

    /// Weights of all blocks.
    pub open spec fn body_weights(self) -> nat {
        self.num_hidden_layers as nat * self.block_weights()
    }

    /// Elements of the embedding matrix, and of the output projection.
    pub open spec fn head_weights(self) -> nat {
        self.vocab_size as nat * self.hidden_size as nat
    }

    /// Every stored weight.
    pub open spec fn all_weights(self) -> nat {
        self.body_weights() + if self.tie_word_embeddings {
            self.head_weights()
        } else {
            2 * self.head_weights()
        }
    }

    /// Bytes the cache takes for `seq_len` tokens.
    pub open spec fn cache_bytes(self, seq_len: nat, bytes_per_element: nat) -> nat {
        2 * (self.num_hidden_layers as nat * self.kv_heads() as nat * self.head_width() as nat
            * seq_len * bytes_per_element)
    }

    /// Rejects configurations that cannot be executed correctly.
    ///
    /// Failing loudly at load time is deliberate: a silently mis-shaped model
    /// produces plausible-looking garbage that is expensive to debug later.
    pub fn validate(&self) -> (ok: Result<(), Error>)
        ensures
            match ok {
                Ok(_) => config_fault(*self) is None,
                Err(e) => config_fault(*self) matches Some(fault) && reports(e, fault, *self),
            },
    {
        if self.hidden_size == 0 || self.num_attention_heads == 0 {
            return Err(Error::Config(ConfigIssue::ZeroSize));
        }
        if self.head_dim.is_none() && self.hidden_size % self.num_attention_heads != 0 {
            return Err(
                Error::Config(
                    ConfigIssue::UnevenHeads {
                        hidden: self.hidden_size,
                        heads: self.num_attention_heads,
                    },
                ),
            );
        }
        let kv: usize = self.n_kv_heads();
        if kv == 0 || self.num_attention_heads % kv != 0 {
            return Err(
                Error::Config(ConfigIssue::KvHeads { heads: self.num_attention_heads, kv }),
            );
        }
        if !str_eq(self.hidden_act.as_str(), "silu") && !str_eq(self.hidden_act.as_str(), "swish") {
            return Err(
                Error::Config(ConfigIssue::Activation(String::from_str(self.hidden_act.as_str()))),
            );
        }
        proof {
            reveal_strlit("");
        }
        if !str_eq(self.model_type.as_str(), "") && !str_eq(self.model_type.as_str(), "qwen2")
            && !str_eq(self.model_type.as_str(), "qwen3") {
            assert(self.model_type@.len() != 0) by {
                if self.model_type@.len() == 0 {
                    assert(self.model_type@ =~= ""@);
                }
            }
            return Err(
                Error::Config(ConfigIssue::Family(String::from_str(self.model_type.as_str()))),
            );
        }
        Ok(())
    }

    /// Number of key/value heads: as many as there are query heads where nothing
    /// is said of them.
    pub fn n_kv_heads(&self) -> (n: usize)
        ensures
            n == self.kv_heads(),
    {
        match self.num_key_value_heads {
            Some(n) => n,
            None => self.num_attention_heads,
        }
    }

    /// Per-head width.
    pub fn head_dim(&self) -> (d: usize)
        requires
            self.num_attention_heads != 0,
        ensures
            d == self.head_width(),
    {
        match self.head_dim {
            Some(d) => d,
            None => self.hidden_size / self.num_attention_heads,
        }
    }

    /// Query heads sharing each key/value head. `1` means no sharing.
    pub fn gqa_ratio(&self) -> (n: usize)
        requires
            self.kv_heads() != 0,
        ensures
            n == self.num_attention_heads / self.kv_heads(),
    {
        self.num_attention_heads / self.n_kv_heads()
    }

    /// Attention weight count in one block, without biases.
    pub fn attn_params_per_layer(&self) -> (n: usize)
        requires
            self.num_attention_heads != 0,
            self.attn_weights() <= usize::MAX,
        ensures
            n == self.attn_weights(),
    {
        let h: usize = self.hidden_size;
        let d: usize = self.head_dim();
        if h == 0 || d == 0 {
            proof {
                let n = self.num_attention_heads as nat;
                let k = self.kv_heads() as nat;
                assert(h as nat * n * d as nat == 0) by (nonlinear_arith)
                    requires
                        h == 0 || d == 0,
                ;
                assert(h as nat * k * d as nat == 0) by (nonlinear_arith)
                    requires
                        h == 0 || d == 0,
                ;
            }
            return 0;
        }
        let heads: usize = self.num_attention_heads;
        let kv: usize = self.n_kv_heads();
        proof {
            assert(h * heads <= h * heads * d) by (nonlinear_arith)
                requires
                    1 <= d,
            ;
            assert(h * kv <= h * kv * d) by (nonlinear_arith)
                requires
                    1 <= d,
            ;
        }
        let q: usize = h * heads * d;
        let k: usize = h * kv * d;
        q + k + k + q
    }

    /// MLP weight count in one block: gate, up and down projections.
    pub fn mlp_params_per_layer(&self) -> (n: usize)
        requires
            self.mlp_weights() <= usize::MAX,
        ensures
            n == self.mlp_weights(),
    {
        3 * (self.hidden_size * self.intermediate_size)
    }

    /// Total weight count in one block.
    pub fn params_per_layer(&self) -> (n: usize)
        requires
            self.num_attention_heads != 0,
            self.block_weights() <= usize::MAX,
        ensures
            n == self.block_weights(),
    {
        self.attn_params_per_layer() + self.mlp_params_per_layer()
    }

    /// Weights of all blocks, without embeddings and `lm_head`.
    pub fn non_embedding_params(&self) -> (n: usize)
        requires
            self.num_attention_heads != 0,
            self.body_weights() <= usize::MAX,
        ensures
            n == self.body_weights(),
    {
        if self.num_hidden_layers == 0 {
            proof {
                let b = self.block_weights();
                assert(0 * b == 0) by (nonlinear_arith);
            }
            return 0;
        }
        proof {
            let l = self.num_hidden_layers as nat;
            let b = self.block_weights();
            assert(b <= l * b) by (nonlinear_arith)
                requires
                    1 <= l,
            ;
        }
        self.num_hidden_layers * self.params_per_layer()
    }

    /// Weights actually streamed from memory on every decode step.
    ///
    /// Not just the blocks: the input embedding is a gather of a single row, but
    /// the output projection reads the entire matrix for every token.
    pub fn decode_resident_params(&self) -> (n: usize)
        requires
            self.num_attention_heads != 0,
            self.body_weights() + self.head_weights() <= usize::MAX,
        ensures
            n == self.body_weights() + self.head_weights(),
    {
        self.non_embedding_params() + self.lm_head_params()
    }

    /// Parameters in the output projection.
    pub fn lm_head_params(&self) -> (n: usize)
        requires
            self.head_weights() <= usize::MAX,
        ensures
            n == self.head_weights(),
    {
        self.vocab_size * self.hidden_size
    }

    /// Embedding matrix element count.
    pub fn embedding_params(&self) -> (n: usize)
        requires
            self.head_weights() <= usize::MAX,
        ensures
            n == self.head_weights(),
    {
        self.vocab_size * self.hidden_size
    }

    /// Every stored parameter, counting `lm_head` only when it is untied.
    pub fn total_params(&self) -> (n: usize)
        requires
            self.num_attention_heads != 0,
            self.all_weights() <= usize::MAX,
        ensures
            n == self.all_weights(),
    {
        let body: usize = self.non_embedding_params();
        let head: usize = self.embedding_params();
        if self.tie_word_embeddings {
            body + head
        } else {
            body + head + head
        }
    }

    /// Cache bytes for `seq_len` tokens at `bytes_per_element` per entry: two
    /// tensors for every block, key/value head, place in a head and token.
    pub fn kv_cache_bytes(&self, seq_len: usize, bytes_per_element: usize) -> (n: usize)
        requires
            self.num_attention_heads != 0,
            self.cache_bytes(seq_len as nat, bytes_per_element as nat) <= usize::MAX,
        ensures
            n == self.cache_bytes(seq_len as nat, bytes_per_element as nat),
    {
        let l: usize = self.num_hidden_layers;
        let k: usize = self.n_kv_heads();
        let d: usize = self.head_dim();
        let s: usize = seq_len;
        let e: usize = bytes_per_element;
        if k == 0 || d == 0 || s == 0 || e == 0 {
            assert(l as nat * k as nat * d as nat * s as nat * e as nat == 0) by (nonlinear_arith)
                requires
                    k == 0 || d == 0 || s == 0 || e == 0,
            ;
            return 0;
        }
        proof {
            let lk = l * k;
            let lkd = lk * d;
            let lkds = lkd * s;
            assert(lk >= 0 && lkd >= 0 && lkds >= 0) by (nonlinear_arith)
                requires
                    lk == l * k,
                    lkd == lk * d,
                    lkds == lkd * s,
            ;
            assert(lkds <= lkds * e) by (nonlinear_arith)
                requires
                    0 <= lkds,
                    1 <= e,
            ;
            assert(lkd <= lkds) by (nonlinear_arith)
                requires
                    0 <= lkd,
                    1 <= s,
                    lkds == lkd * s,
            ;
            assert(lk <= lkd) by (nonlinear_arith)
                requires
                    0 <= lk,
                    1 <= d,
                    lkd == lk * d,
            ;
        }
        2 * (l * k * d * s * e)
    }

    /// Whether the bytes of a cache can be counted.
    pub fn kv_cache_fits(&self, seq_len: usize, bytes_per_element: usize) -> (yes: bool)
        requires
            self.num_attention_heads != 0,
        ensures
            yes == (self.cache_bytes(seq_len as nat, bytes_per_element as nat) <= usize::MAX),
    {
        let d: usize = self.head_dim();
        let k: usize = self.n_kv_heads();
        let ghost lkd = self.num_hidden_layers as nat * k as nat * d as nat;
        let ghost all = lkd * seq_len as nat * bytes_per_element as nat;
        if seq_len == 0 || bytes_per_element == 0 {
            assert(all == 0) by (nonlinear_arith)
                requires
                    all == lkd * seq_len as nat * bytes_per_element as nat,
                    seq_len == 0 || bytes_per_element == 0,
            ;
            return true;
        }
        assert(lkd <= all) by (nonlinear_arith)
            requires
                all == lkd * seq_len as nat * bytes_per_element as nat,
                seq_len >= 1,
                bytes_per_element >= 1,
        ;
        match product3(self.num_hidden_layers, k, d) {
            Some(n) => match product3(n, seq_len, bytes_per_element) {
                Some(n) => n.checked_mul(2).is_some(),
                None => false,
            },
            None => false,
        }
    }

    /// Whether the counts of this configuration fit the machine: those of a
    /// block, those a decode step reads, and those that are stored.
    pub fn counts_fit(&self) -> (yes: bool)
        requires
            self.num_attention_heads != 0,
        ensures
            yes == (self.block_weights() <= usize::MAX && self.body_weights() + 2
                * self.head_weights() <= usize::MAX),
    {
        let h: usize = self.hidden_size;
        let d: usize = self.head_dim();
        let q = product3(h, self.num_attention_heads, d);
        let k = product3(h, self.n_kv_heads(), d);
        let m = product3(3, h, self.intermediate_size);
        let ghost hi = h as nat * self.intermediate_size as nat;
        assert(3 * h as nat * self.intermediate_size as nat == 3 * hi) by (nonlinear_arith)
            requires
                hi == h as nat * self.intermediate_size as nat,
        ;
        let block: usize = match (q, k, m) {
            (Some(q), Some(k), Some(m)) => {
                match sum4(q, q, k, k) {
                    Some(attn) => {
                        match attn.checked_add(m) {
                            Some(block) => block,
                            None => {
                                return false;
                            },
                        }
                    },
                    None => {
                        return false;
                    },
                }
            },
            _ => {
                return false;
            },
        };
        let body = self.num_hidden_layers.checked_mul(block);
        let head = self.vocab_size.checked_mul(h);
        proof {
            let l = self.num_hidden_layers as nat;
            assert(l * block as nat >= 0) by (nonlinear_arith);
        }
        match (body, head) {
            (Some(body), Some(head)) => sum4(body, head, head, 0).is_some(),
            _ => false,
        }
    }
}

/// The product of three numbers, where it fits.
fn product3(a: usize, b: usize, c: usize) -> (n: Option<usize>)
    ensures
        match n {
            Some(n) => n == a as nat * b as nat * c as nat,
            None => a as nat * b as nat * c as nat > usize::MAX,
        },
{
    if c == 0 {
        assert(a as nat * b as nat * c as nat == 0) by (nonlinear_arith)
            requires
                c == 0,
        ;
        return Some(0);
    }
    match a.checked_mul(b) {
        Some(ab) => ab.checked_mul(c),
        None => {
            assert(a as nat * b as nat * c as nat >= a as nat * b as nat) by (nonlinear_arith)
                requires
                    1 <= c,
            ;
            None
        },
    }
}

/// The sum of four numbers, where it fits.
fn sum4(a: usize, b: usize, c: usize, d: usize) -> (n: Option<usize>)
    ensures
        match n {
            Some(n) => n == a + b + c + d,
            None => a + b + c + d > usize::MAX,
        },
{
    match a.checked_add(b) {
        Some(ab) => match ab.checked_add(c) {
            Some(abc) => abc.checked_add(d),
            None => None,
        },
        None => None,
    }
}

/// What a decode step reads and what is stored are the same weights where the
/// embeddings are tied; otherwise the embedding matrix is stored as well.
pub proof fn stored_and_read_weights(c: ModelConfig)
    ensures
        c.tie_word_embeddings ==> c.all_weights() == c.body_weights() + c.head_weights(),
        !c.tie_word_embeddings ==> c.all_weights() == c.body_weights() + c.head_weights()
            + c.head_weights(),
{
}

/// In a configuration that can be executed, every key/value head serves the same
/// number of query heads, and all of them are served.
pub proof fn heads_are_shared_evenly(c: ModelConfig)
    requires
        config_fault(c) is None,
    ensures
        c.kv_heads() * (c.num_attention_heads / c.kv_heads()) == c.num_attention_heads,
        1 <= c.num_attention_heads / c.kv_heads(),
{
    let n = c.num_attention_heads;
    let k = c.kv_heads();
    assert(k * (n / k) == n && 1 <= n / k) by (nonlinear_arith)
        requires
            0 < k,
            0 < n,
            n % k == 0,
    ;
}

/// Sharing key/value heads shrinks the cache by exactly the number of query heads
/// that share one.
pub proof fn sharing_shrinks_the_cache(
    shared: ModelConfig,
    separate: ModelConfig,
    seq_len: nat,
    bytes: nat,
)
    requires
        config_fault(shared) is None,
        separate.num_key_value_heads is None,
        separate.num_attention_heads == shared.num_attention_heads,
        separate.num_hidden_layers == shared.num_hidden_layers,
        separate.head_width() == shared.head_width(),
    ensures
        separate.cache_bytes(seq_len, bytes) == (shared.num_attention_heads / shared.kv_heads())
            * shared.cache_bytes(seq_len, bytes),
{
    heads_are_shared_evenly(shared);
    let l = shared.num_hidden_layers as int;
    let n = shared.num_attention_heads as int;
    let k = shared.kv_heads() as int;
    let r = (shared.num_attention_heads / shared.kv_heads()) as int;
    let d = shared.head_width() as int;
    let s = seq_len as int;
    let e = bytes as int;
    assert(2 * (l * n * d * s * e) == r * (2 * (l * k * d * s * e))) by (nonlinear_arith)
        requires
            k * r == n,
    ;
}

} // verus!
