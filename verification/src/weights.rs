//! A whole model, read from a `.wstone` file and checked against its
//! architecture.

use vstd::prelude::*;
use vstd::utf8::{decode_utf8, valid_utf8};

use crate::bytes::halves_of;
use crate::config::{config_fault, reports, ConfigFault, ModelConfig};
use crate::error::{Error, FileIssue, ShapeFault};
use crate::format::{blob_index, product, tensor_index, Blob, Header, HeaderView, TensorKind};
use crate::model::{accounts, blob_content, blob_halves, entry_of, fuse_linears, fused, gives, load_linear, tensor, texts, DeviceLinear, LinearView, LoadFault};
use crate::number::{decimal_text, push_decimal};
use crate::text::str_eq;
use crate::utf8::decode_strict;

verus! {

// ------------------------------------------------------------------ vectors

/// The elements of a dense tensor.
pub open spec fn dense(h: HeaderView, file: Seq<u8>, name: Seq<char>) -> Result<
    Seq<u16>,
    LoadFault,
> {
    if tensor_index(h.tensors, name, 0) is None {
        Err(LoadFault::Missing(name))
    } else {
        let e = entry_of(h, name);
        if e.kind != TensorKind::Fp16 {
            Err(LoadFault::NotFp16(name))
        } else {
            match blob_content(file, e, "data"@) {
                Err(f) => Err(f),
                Ok(b) => if halves_of(b).len() != product(e.shape, e.shape.len() as int) {
                    Err(LoadFault::Elements(name))
                } else {
                    Ok(halves_of(b))
                },
            }
        }
    }
}

/// A product with a factor of zero is zero.
proof fn lemma_zero_factor(shape: Seq<usize>, at: int, n: int)
    requires
        0 <= at < n,
        shape[at] == 0,
    ensures
        product(shape, n) == 0,
    decreases n,
{
    if at < n - 1 {
        lemma_zero_factor(shape, at, n - 1);
    }
    let p = product(shape, n - 1);
    let x = shape[n - 1] as nat;
    assert(p * x == 0) by (nonlinear_arith)
        requires
            p == 0 || x == 0,
    ;
}

/// A product without a factor of zero does not shrink.
proof fn lemma_product_grows(shape: Seq<usize>, n: int, m: int)
    requires
        0 <= n <= m <= shape.len(),
        forall|i: int| n <= i < m ==> shape[i] > 0,
    ensures
        product(shape, n) <= product(shape, m),
    decreases m - n,
{
    if n < m {
        lemma_product_grows(shape, n, m - 1);
        let p = product(shape, m - 1);
        let x = shape[m - 1] as nat;
        assert(p <= p * x) by (nonlinear_arith)
            requires
                1 <= x,
        ;
    }
}

/// Whether a shape has this many elements.
fn has_elements(shape: &Vec<usize>, n: usize) -> (yes: bool)
    ensures
        yes == (product(shape@, shape@.len() as int) == n),
{
    let mut i: usize = 0;
    while i < shape.len()
        invariant
            i <= shape@.len(),
            forall|k: int| 0 <= k < i ==> shape@[k] > 0,
        decreases shape@.len() - i,
    {
        if shape[i] == 0 {
            proof {
                lemma_zero_factor(shape@, i as int, shape@.len() as int);
            }
            return n == 0;
        }
        i += 1;
    }
    let mut count: usize = 1;
    let mut j: usize = 0;
    while j < shape.len()
        invariant
            j <= shape@.len(),
            forall|k: int| 0 <= k < shape@.len() ==> shape@[k] > 0,
            count == product(shape@, j as int),
        decreases shape@.len() - j,
    {
        match count.checked_mul(shape[j]) {
            Some(c) => {
                count = c;
            },
            None => {
                proof {
                    lemma_product_grows(shape@, j + 1, shape@.len() as int);
                }
                return false;
            },
        }
        j += 1;
    }
    count == n
}

/// Reads a dense tensor.
pub fn load_fp16(h: &Header, file: &[u8], name: &str) -> (r: Result<Vec<u16>, Error>)
    ensures
        gives(r, dense(h@, file@, name@), |v: Vec<u16>, s: Seq<u16>| v@ == s),
{
    let t = match tensor(h, name) {
        Ok(t) => t,
        Err(e) => {
            return Err(e);
        },
    };
    if t.kind != TensorKind::Fp16 {
        return Err(Error::Format(FileIssue::NotFp16(name.to_owned())));
    }
    let data = match blob_halves(file, t, "data") {
        Ok(v) => v,
        Err(e) => {
            return Err(e);
        },
    };
    if !has_elements(&t.shape, data.len()) {
        return Err(
            Error::Shape(ShapeFault::Elements { name: name.to_owned(), got: data.len() }),
        );
    }
    Ok(data)
}

/// Reads a dense tensor, where there is one of this name.
pub fn load_fp16_opt(h: &Header, file: &[u8], name: &str) -> (r: Result<Option<Vec<u16>>, Error>)
    ensures
        match r {
            Ok(None) => tensor_index(h@.tensors, name@, 0) is None,
            Ok(Some(v)) => dense(h@, file@, name@) == Ok::<Seq<u16>, LoadFault>(v@),
            Err(e) => {
                &&& tensor_index(h@.tensors, name@, 0) is Some
                &&& dense(h@, file@, name@) matches Err(f) && accounts(e, f)
            },
        },
{
    if h.tensor(name).is_err() {
        return Ok(None);
    }
    match load_fp16(h, file, name) {
        Ok(v) => Ok(Some(v)),
        Err(e) => Err(e),
    }
}

/// What one bias adds to a joined one: its elements, or zeros where the
/// architecture has none.
pub open spec fn bias_part(h: HeaderView, file: Seq<u8>, name: Seq<char>, width: usize) -> Result<
    Seq<u16>,
    LoadFault,
> {
    if tensor_index(h.tensors, name, 0) is None {
        Ok(Seq::new(width as nat, |i: int| 0u16))
    } else {
        match dense(h, file, name) {
            Err(f) => Err(f),
            Ok(s) => if s.len() != width {
                Err(LoadFault::BiasWidth(name))
            } else {
                Ok(s)
            },
        }
    }
}

/// The first fault of the first `n` biases, or their elements one after another.
pub open spec fn bias_parts(
    h: HeaderView,
    file: Seq<u8>,
    names: Seq<Seq<char>>,
    widths: Seq<usize>,
    n: int,
) -> Result<Seq<u16>, LoadFault>
    decreases n,
{
    if n <= 0 {
        Ok(Seq::empty())
    } else {
        match bias_parts(h, file, names, widths, n - 1) {
            Err(f) => Err(f),
            Ok(s) => match bias_part(h, file, names[n - 1], widths[n - 1]) {
                Err(f) => Err(f),
                Ok(p) => Ok(s + p),
            },
        }
    }
}

/// Whether none of some names is that of a tensor.
pub open spec fn none_there(h: HeaderView, names: Seq<Seq<char>>) -> bool {
    forall|i: int| 0 <= i < names.len() ==> tensor_index(h.tensors, #[trigger] names[i], 0) is None
}

/// The joined bias of some projections, where any of them has one.
pub open spec fn fused_bias(
    h: HeaderView,
    file: Seq<u8>,
    names: Seq<Seq<char>>,
    widths: Seq<usize>,
) -> Result<Option<Seq<u16>>, LoadFault> {
    if none_there(h, names) {
        Ok(None)
    } else {
        match bias_parts(h, file, names, widths, names.len() as int) {
            Err(f) => Err(f),
            Ok(s) => Ok(Some(s)),
        }
    }
}

/// The elements of an optional vector.
pub open spec fn optional(v: Option<Vec<u16>>) -> Option<Seq<u16>> {
    match v {
        Some(v) => Some(v@),
        None => None,
    }
}

proof fn lemma_bias_fault(
    h: HeaderView,
    file: Seq<u8>,
    names: Seq<Seq<char>>,
    widths: Seq<usize>,
    n: int,
    m: int,
)
    requires
        0 <= n <= m,
        bias_parts(h, file, names, widths, n) is Err,
    ensures
        bias_parts(h, file, names, widths, m) == bias_parts(h, file, names, widths, n),
    decreases m - n,
{
    if n < m {
        lemma_bias_fault(h, file, names, widths, n, m - 1);
    }
}

/// Joins biases to match a joined projection, with zeros for any that the
/// architecture omits.
///
/// A set that is present only in part would otherwise shift the joined vector,
/// so the missing ones are written out at their places.
pub fn fuse_biases(h: &Header, file: &[u8], names: &[String], widths: &[usize]) -> (r: Result<
    Option<Vec<u16>>,
    Error,
>)
    requires
        names@.len() == widths@.len(),
    ensures
        gives(
            r,
            fused_bias(h@, file@, texts(names@), widths@),
            |v: Option<Vec<u16>>, s: Option<Seq<u16>>| optional(v) == s,
        ),
{
    let ghost want = texts(names@);
    let mut any: bool = false;
    let mut i: usize = 0;
    while i < names.len()
        invariant
            i <= names@.len(),
            want == texts(names@),
            !any ==> forall|k: int|
                0 <= k < i ==> tensor_index(h@.tensors, #[trigger] want[k], 0) is None,
            any ==> !none_there(h@, want),
        decreases names@.len() - i,
    {
        assert(want[i as int] == names@[i as int]@);
        if h.tensor(names[i].as_str()).is_ok() {
            any = true;
        }
        i += 1;
    }
    if !any {
        return Ok(None);
    }
    let mut out: Vec<u16> = Vec::new();
    let mut k: usize = 0;
    while k < names.len()
        invariant
            k <= names@.len(),
            names@.len() == widths@.len(),
            want == texts(names@),
            !none_there(h@, want),
            bias_parts(h@, file@, want, widths@, k as int) == Ok::<Seq<u16>, LoadFault>(out@),
        decreases names@.len() - k,
    {
        assert(want[k as int] == names@[k as int]@);
        let width: usize = widths[k];
        let ghost before = out@;
        match load_fp16_opt(h, file, names[k].as_str()) {
            Err(e) => {
                proof {
                    lemma_bias_fault(h@, file@, want, widths@, k + 1, want.len() as int);
                }
                return Err(e);
            },
            Ok(Some(v)) => {
                if v.len() != width {
                    proof {
                        lemma_bias_fault(h@, file@, want, widths@, k + 1, want.len() as int);
                    }
                    return Err(
                        Error::Shape(
                            ShapeFault::BiasWidth {
                                name: names[k].clone(),
                                got: v.len(),
                                expected: width,
                            },
                        ),
                    );
                }
                crate::model::extend(&mut out, &v);
            },
            Ok(None) => {
                let mut z: usize = 0;
                while z < width
                    invariant
                        z <= width,
                        out@ == before + Seq::new(z as nat, |j: int| 0u16),
                    decreases width - z,
                {
                    out.push(0);
                    z += 1;
                    assert(out@ =~= before + Seq::new(z as nat, |j: int| 0u16));
                }
            },
        }
        k += 1;
    }
    Ok(Some(out))
}

// -------------------------------------------------------------------- names

/// The name of a tensor of a block.
pub open spec fn block_name(l: nat, suffix: Seq<char>) -> Seq<char> {
    "model.layers."@ + decimal_text(l) + suffix
}

/// The name of a tensor of a block.
pub fn name_in_block(l: usize, suffix: &str) -> (name: String)
    ensures
        name@ == block_name(l as nat, suffix@),
{
    let mut name = String::from_str("model.layers.");
    push_decimal(&mut name, l as u64);
    name.append(suffix);
    name
}

/// The names of some tensors of a block.
pub open spec fn block_names(l: nat, suffixes: Seq<Seq<char>>) -> Seq<Seq<char>> {
    suffixes.map_values(|s: Seq<char>| block_name(l, s))
}

/// The names of two or three tensors of a block.
fn names_in_block(l: usize, a: &str, b: &str, c: Option<&str>) -> (names: Vec<String>)
    ensures
        texts(names@) == block_names(
            l as nat,
            match c {
                Some(c) => seq![a@, b@, c@],
                None => seq![a@, b@],
            },
        ),
        names@.len() == if c is Some {
            3int
        } else {
            2
        },
{
    let mut names: Vec<String> = Vec::new();
    names.push(name_in_block(l, a));
    names.push(name_in_block(l, b));
    if let Some(c) = c {
        names.push(name_in_block(l, c));
    }
    assert(texts(names@) =~= block_names(
        l as nat,
        match c {
            Some(c) => seq![a@, b@, c@],
            None => seq![a@, b@],
        },
    ));
    names
}

// ------------------------------------------------------------------- blocks

/// One block's weights.
pub struct LayerWeights {
    /// Pre-attention gain.
    pub input_norm: Vec<u16>,
    /// Pre-MLP gain.
    pub post_attn_norm: Vec<u16>,
    /// Query, key and value projections as one matrix.
    pub qkv_proj: DeviceLinear,
    /// The three biases joined, where the architecture has them.
    pub qkv_bias: Option<Vec<u16>>,
    /// Output projection. Writes into the residual stream.
    pub o_proj: DeviceLinear,
    /// Gate and up projections as one matrix.
    pub gate_up_proj: DeviceLinear,
    /// Down projection. Writes into the residual stream.
    pub down_proj: DeviceLinear,
}

/// One block's weights.
#[verifier::ext_equal]
pub struct LayerView {
    pub input_norm: Seq<u16>,
    pub post_attn_norm: Seq<u16>,
    pub qkv_proj: LinearView,
    pub qkv_bias: Option<Seq<u16>>,
    pub o_proj: LinearView,
    pub gate_up_proj: LinearView,
    pub down_proj: LinearView,
}

impl View for LayerWeights {
    type V = LayerView;

    open spec fn view(&self) -> LayerView {
        LayerView {
            input_norm: self.input_norm@,
            post_attn_norm: self.post_attn_norm@,
            qkv_proj: self.qkv_proj@,
            qkv_bias: optional(self.qkv_bias),
            o_proj: self.o_proj@,
            gate_up_proj: self.gate_up_proj@,
            down_proj: self.down_proj@,
        }
    }
}

impl LayerView {
    /// Weight bytes a block streams per token.
    pub open spec fn streamed(self) -> nat {
        self.qkv_proj.streamed() + self.o_proj.streamed() + self.gate_up_proj.streamed()
            + self.down_proj.streamed()
    }

    /// Whether several tokens can be run through a block in one pass.
    pub open spec fn chunkable(self) -> bool {
        !(self.qkv_proj is Int4) && !(self.o_proj is Int4) && !(self.gate_up_proj is Int4)
            && !(self.down_proj is Int4)
    }
}

impl LayerWeights {
    /// Weight bytes this block streams per token.
    pub fn bytes(&self) -> (n: usize)
        requires
            self@.streamed() <= usize::MAX,
        ensures
            n == self@.streamed(),
    {
        self.qkv_proj.bytes() + self.o_proj.bytes() + self.gate_up_proj.bytes()
            + self.down_proj.bytes()
    }

    /// Whether several tokens can be run through this block in one pass.
    pub fn supports_chunk(&self) -> (yes: bool)
        ensures
            yes == self@.chunkable(),
    {
        self.qkv_proj.supports_chunk() && self.o_proj.supports_chunk()
            && self.gate_up_proj.supports_chunk() && self.down_proj.supports_chunk()
    }
}

/// The widths of the query, key and value parts of a bias.
pub open spec fn bias_widths(c: ModelConfig) -> Seq<usize> {
    let q = (c.num_attention_heads * c.head_width()) as usize;
    let k = (c.kv_heads() * c.head_width()) as usize;
    seq![q, k, k]
}

/// Whether the widths of a bias can be stated.
pub open spec fn widths_fit(c: ModelConfig) -> bool {
    c.num_attention_heads * c.head_width() <= usize::MAX && c.kv_heads() * c.head_width()
        <= usize::MAX
}

/// Whether the widths of a bias can be stated.
pub fn check_widths(c: &ModelConfig) -> (yes: bool)
    requires
        c.num_attention_heads != 0,
    ensures
        yes == widths_fit(*c),
{
    let d: usize = c.head_dim();
    c.num_attention_heads.checked_mul(d).is_some() && c.n_kv_heads().checked_mul(d).is_some()
}

/// The query, key and value projections of a block.
pub open spec fn qkv_names(l: nat) -> Seq<Seq<char>> {
    block_names(
        l,
        seq![
            ".self_attn.q_proj.weight"@,
            ".self_attn.k_proj.weight"@,
            ".self_attn.v_proj.weight"@,
        ],
    )
}

/// The query, key and value biases of a block.
pub open spec fn qkv_bias_names(l: nat) -> Seq<Seq<char>> {
    block_names(
        l,
        seq![".self_attn.q_proj.bias"@, ".self_attn.k_proj.bias"@, ".self_attn.v_proj.bias"@],
    )
}

/// The two projections that enter a block's MLP.
pub open spec fn gate_up_names(l: nat) -> Seq<Seq<char>> {
    block_names(l, seq![".mlp.gate_proj.weight"@, ".mlp.up_proj.weight"@])
}

/// The weights of a block, or the first fault among them.
pub open spec fn layer_of(h: HeaderView, file: Seq<u8>, c: ModelConfig, l: nat) -> Result<
    LayerView,
    LoadFault,
> {
    match (
        dense(h, file, block_name(l, ".input_layernorm.weight"@)),
        dense(h, file, block_name(l, ".post_attention_layernorm.weight"@)),
        fused(h, file, qkv_names(l)),
        fused_bias(h, file, qkv_bias_names(l), bias_widths(c)),
        fused(h, file, seq![block_name(l, ".self_attn.o_proj.weight"@)]),
        fused(h, file, gate_up_names(l)),
        fused(h, file, seq![block_name(l, ".mlp.down_proj.weight"@)]),
    ) {
        (Err(f), _, _, _, _, _, _) => Err(f),
        (_, Err(f), _, _, _, _, _) => Err(f),
        (_, _, Err(f), _, _, _, _) => Err(f),
        (_, _, _, Err(f), _, _, _) => Err(f),
        (_, _, _, _, Err(f), _, _) => Err(f),
        (_, _, _, _, _, Err(f), _) => Err(f),
        (_, _, _, _, _, _, Err(f)) => Err(f),
        (Ok(a), Ok(b), Ok(q), Ok(bias), Ok(o), Ok(g), Ok(d)) => Ok(
            LayerView {
                input_norm: a,
                post_attn_norm: b,
                qkv_proj: q,
                qkv_bias: bias,
                o_proj: o,
                gate_up_proj: g,
                down_proj: d,
            },
        ),
    }
}

/// Reads the weights of a block.
fn load_layer(h: &Header, file: &[u8], c: &ModelConfig, l: usize) -> (r: Result<
    LayerWeights,
    Error,
>)
    requires
        c.num_attention_heads != 0,
        widths_fit(*c),
    ensures
        gives(r, layer_of(h@, file@, *c, l as nat), |w: LayerWeights, v: LayerView| w@ == v),
{
    let d: usize = c.head_dim();
    let q: usize = c.num_attention_heads * d;
    let k: usize = c.n_kv_heads() * d;
    let widths: [usize; 3] = [q, k, k];
    assert(widths@ =~= bias_widths(*c));
    let input_norm = match load_fp16(h, file, name_in_block(l, ".input_layernorm.weight").as_str()) {
        Ok(v) => v,
        Err(e) => {
            return Err(e);
        },
    };
    let post_attn_norm = match load_fp16(
        h,
        file,
        name_in_block(l, ".post_attention_layernorm.weight").as_str(),
    ) {
        Ok(v) => v,
        Err(e) => {
            return Err(e);
        },
    };
    let qkv = names_in_block(
        l,
        ".self_attn.q_proj.weight",
        ".self_attn.k_proj.weight",
        Some(".self_attn.v_proj.weight"),
    );
    let qkv_proj = match fuse_linears(h, file, qkv.as_slice()) {
        Ok(v) => v,
        Err(e) => {
            return Err(e);
        },
    };
    let biases = names_in_block(
        l,
        ".self_attn.q_proj.bias",
        ".self_attn.k_proj.bias",
        Some(".self_attn.v_proj.bias"),
    );
    let qkv_bias = match fuse_biases(h, file, biases.as_slice(), widths.as_slice()) {
        Ok(v) => v,
        Err(e) => {
            return Err(e);
        },
    };
    let o_proj = match load_linear(
        h,
        file,
        name_in_block(l, ".self_attn.o_proj.weight").as_str(),
    ) {
        Ok(v) => v,
        Err(e) => {
            return Err(e);
        },
    };
    let gate_up = names_in_block(l, ".mlp.gate_proj.weight", ".mlp.up_proj.weight", None);
    let gate_up_proj = match fuse_linears(h, file, gate_up.as_slice()) {
        Ok(v) => v,
        Err(e) => {
            return Err(e);
        },
    };
    let down_proj = match load_linear(h, file, name_in_block(l, ".mlp.down_proj.weight").as_str()) {
        Ok(v) => v,
        Err(e) => {
            return Err(e);
        },
    };
    Ok(
        LayerWeights {
            input_norm,
            post_attn_norm,
            qkv_proj,
            qkv_bias,
            o_proj,
            gate_up_proj,
            down_proj,
        },
    )
}

/// The first fault of the blocks from `l` on.
pub open spec fn layers_fault(h: HeaderView, file: Seq<u8>, c: ModelConfig, l: int) -> Option<
    LoadFault,
>
    decreases c.num_hidden_layers - l,
    when 0 <= l
{
    if l >= c.num_hidden_layers {
        None
    } else {
        match layer_of(h, file, c, l as nat) {
            Err(f) => Some(f),
            Ok(_) => layers_fault(h, file, c, l + 1),
        }
    }
}

/// The blocks of a model without a fault.
pub open spec fn layers_of(h: HeaderView, file: Seq<u8>, c: ModelConfig) -> Seq<LayerView> {
    Seq::new(
        c.num_hidden_layers as nat,
        |l: int| layer_of(h, file, c, l as nat)->Ok_0,
    )
}

// -------------------------------------------------------------------- model

/// The embedding matrix, serving both the input gather and the output
/// projection.
pub struct Embedding {
    pub matrix: DeviceLinear,
}

impl Embedding {
    /// Vocabulary size.
    pub fn vocab(&self) -> (n: usize)
        ensures
            n == self.matrix@.rows(),
    {
        self.matrix.out_features()
    }

    /// Residual width.
    pub fn hidden(&self) -> (n: usize)
        ensures
            n == self.matrix@.width(),
    {
        self.matrix.in_features()
    }

    /// Bytes read when this matrix is used as the output projection.
    pub fn bytes(&self) -> (n: usize)
        requires
            self.matrix@.streamed() <= usize::MAX,
        ensures
            n == self.matrix@.streamed(),
    {
        self.matrix.bytes()
    }
}

/// A whole model.
pub struct ModelWeights {
    /// Architecture.
    pub config: ModelConfig,
    /// Blocks in order.
    pub layers: Vec<LayerWeights>,
    /// Final gain.
    pub final_norm: Vec<u16>,
    /// The embedding matrix. Also the output projection where weights are tied.
    pub embed: Embedding,
    /// A separate output projection, present only where embeddings are untied.
    pub lm_head: Option<DeviceLinear>,
    /// How the file came to be.
    pub quant_meta: Vec<(String, String)>,
    /// The source `tokenizer.json`, where the file carries one.
    pub tokenizer_json: Option<String>,
}

/// A whole model.
#[verifier::ext_equal]
pub struct ModelView {
    pub layers: Seq<LayerView>,
    pub final_norm: Seq<u16>,
    pub embed: LinearView,
    pub lm_head: Option<LinearView>,
    pub tokenizer_json: Option<Seq<char>>,
}

impl View for ModelWeights {
    type V = ModelView;

    open spec fn view(&self) -> ModelView {
        ModelView {
            layers: self.layers@.map_values(|l: LayerWeights| l@),
            final_norm: self.final_norm@,
            embed: self.embed.matrix@,
            lm_head: match self.lm_head {
                Some(m) => Some(m@),
                None => None,
            },
            tokenizer_json: match self.tokenizer_json {
                Some(t) => Some(t@),
                None => None,
            },
        }
    }
}

/// Why a model could not be read.
pub enum ModelFault {
    /// The architecture cannot be executed.
    Config(ConfigFault),
    /// A matrix could not be had.
    Load(LoadFault),
    /// The embedding is not as wide as the residual stream.
    EmbeddingWidth,
    /// The embedding does not have a row for each token.
    EmbeddingRows,
    /// The embedded tokenizer is not within the file.
    TokenizerRange,
    /// The embedded tokenizer is not UTF-8.
    TokenizerText,
}

/// Whether an error is the account of a fault.
pub open spec fn model_account(e: Error, f: ModelFault, c: ModelConfig) -> bool {
    match f {
        ModelFault::Config(g) => reports(e, g, c),
        ModelFault::Load(g) => accounts(e, g),
        ModelFault::EmbeddingWidth => e matches Error::Shape(
            ShapeFault::EmbeddingWidth { expected, .. },
        ) && expected == c.hidden_size,
        ModelFault::EmbeddingRows => e matches Error::Shape(
            ShapeFault::EmbeddingRows { expected, .. },
        ) && expected == c.vocab_size,
        ModelFault::TokenizerRange => e matches Error::Format(FileIssue::TokenizerRange),
        ModelFault::TokenizerText => e matches Error::Format(FileIssue::TokenizerText),
    }
}

/// The output projection of a model, where it is one of its own.
pub open spec fn head_of(h: HeaderView, file: Seq<u8>, c: ModelConfig) -> Result<
    Option<LinearView>,
    LoadFault,
> {
    if c.tie_word_embeddings {
        Ok(None)
    } else {
        match fused(h, file, seq!["lm_head.weight"@]) {
            Ok(m) => Ok(Some(m)),
            Err(f) => Err(f),
        }
    }
}

/// The tokenizer a file carries, if it does.
pub open spec fn tokenizer_of(h: HeaderView, file: Seq<u8>) -> Result<
    Option<Seq<char>>,
    ModelFault,
> {
    match blob_index(h.extras, "tokenizer.json"@, 0) {
        None => Ok(None),
        Some(i) => {
            let b = h.extras[i].1;
            if b.offset + b.len > file.len() {
                Err(ModelFault::TokenizerRange)
            } else {
                let raw = file.subrange(b.offset as int, b.offset + b.len);
                if valid_utf8(raw) {
                    Ok(Some(decode_utf8(raw)))
                } else {
                    Err(ModelFault::TokenizerText)
                }
            }
        },
    }
}

/// The model a file holds, or the first fault of it: the architecture first, then
/// the blocks in order, the final gain, the embedding and the output projection,
/// then whether the embedding is that of the architecture, then the tokenizer.
pub open spec fn model_of(h: HeaderView, file: Seq<u8>, c: ModelConfig) -> Result<
    ModelView,
    ModelFault,
> {
    if let Some(g) = config_fault(c) {
        Err(ModelFault::Config(g))
    } else if let Some(f) = layers_fault(h, file, c, 0) {
        Err(ModelFault::Load(f))
    } else {
        match (
            dense(h, file, "model.norm.weight"@),
            fused(h, file, seq!["model.embed_tokens.weight"@]),
            head_of(h, file, c),
            tokenizer_of(h, file),
        ) {
            (Err(f), _, _, _) => Err(ModelFault::Load(f)),
            (_, Err(f), _, _) => Err(ModelFault::Load(f)),
            (_, _, Err(f), _) => Err(ModelFault::Load(f)),
            (Ok(norm), Ok(embed), Ok(head), tokenizer) => if embed.width() != c.hidden_size {
                Err(ModelFault::EmbeddingWidth)
            } else if embed.rows() != c.vocab_size {
                Err(ModelFault::EmbeddingRows)
            } else {
                match tokenizer {
                    Err(f) => Err(f),
                    Ok(t) => Ok(
                        ModelView {
                            layers: layers_of(h, file, c),
                            final_norm: norm,
                            embed,
                            lm_head: head,
                            tokenizer_json: t,
                        },
                    ),
                }
            },
        }
    }
}

/// Looks an extra payload up.
fn find_extra(extras: &Vec<(String, Blob)>, name: &str) -> (at: Option<usize>)
    ensures
        match (at, blob_index(crate::format::blob_views(extras@), name@, 0)) {
            (Some(i), Some(want)) => i == want && i < extras@.len(),
            (None, None) => true,
            _ => false,
        },
{
    let ghost all = crate::format::blob_views(extras@);
    let mut i: usize = 0;
    while i < extras.len()
        invariant
            i <= extras@.len(),
            all == crate::format::blob_views(extras@),
            blob_index(all, name@, 0) == blob_index(all, name@, i as int),
        decreases extras@.len() - i,
    {
        assert(all[i as int].0 == extras@[i as int].0@);
        if str_eq(extras[i].0.as_str(), name) {
            return Some(i);
        }
        i += 1;
    }
    None
}

/// Reads the tokenizer a file carries.
fn load_tokenizer(h: &Header, file: &[u8]) -> (r: Result<Option<String>, Error>)
    ensures
        match (r, tokenizer_of(h@, file@)) {
            (Ok(None), Ok(None)) => true,
            (Ok(Some(t)), Ok(Some(s))) => t@ == s,
            (Err(Error::Format(FileIssue::TokenizerRange)), Err(ModelFault::TokenizerRange)) =>
                true,
            (Err(Error::Format(FileIssue::TokenizerText)), Err(ModelFault::TokenizerText)) => true,
            _ => false,
        },
{
    match find_extra(&h.extras, "tokenizer.json") {
        None => Ok(None),
        Some(i) => {
            assert(h@.extras[i as int].1 == h.extras@[i as int].1);
            let b = h.extras[i].1;
            let total: usize = file.len();
            if b.offset > total as u64 || b.len > total as u64 - b.offset {
                return Err(Error::Format(FileIssue::TokenizerRange));
            }
            let lo: usize = b.offset as usize;
            let hi: usize = (b.offset + b.len) as usize;
            let raw = &file[lo..hi];
            assert(raw@ =~= file@.subrange(b.offset as int, b.offset + b.len));
            match decode_strict(raw) {
                Some(t) => Ok(Some(t)),
                None => Err(Error::Format(FileIssue::TokenizerText)),
            }
        },
    }
}

impl ModelWeights {
    /// Reads a model from a file whose header was read and whose architecture was
    /// parsed.
    ///
    /// Every tensor the architecture calls for must be present; a missing one is
    /// an error here rather than a silently wrong forward pass later.
    pub fn load(h: Header, file: &[u8], config: ModelConfig) -> (r: Result<ModelWeights, Error>)
        requires
            config_fault(config) is None ==> widths_fit(config),
        ensures
            match (r, model_of(h@, file@, config)) {
                (Ok(m), Ok(v)) => m@ == v && m.config == config && m.quant_meta@ == h.quant@,
                (Err(e), Err(f)) => model_account(e, f, config),
                _ => false,
            },
    {
        match config.validate() {
            Ok(_) => {},
            Err(e) => {
                return Err(e);
            },
        }
        let mut layers: Vec<LayerWeights> = Vec::new();
        let mut l: usize = 0;
        while l < config.num_hidden_layers
            invariant
                l <= config.num_hidden_layers,
                config_fault(config) is None,
                widths_fit(config),
                layers_fault(h@, file@, config, 0) == layers_fault(h@, file@, config, l as int),
                layers@.len() == l,
                forall|k: int|
                    0 <= k < l ==> layer_of(h@, file@, config, k as nat) == Ok::<
                        LayerView,
                        LoadFault,
                    >((#[trigger] layers@[k])@),
            decreases config.num_hidden_layers - l,
        {
            match load_layer(&h, file, &config, l) {
                Ok(w) => {
                    layers.push(w);
                },
                Err(e) => {
                    return Err(e);
                },
            }
            l += 1;
        }
        assert(layers@.map_values(|w: LayerWeights| w@) =~= layers_of(h@, file@, config));
        let final_norm = match load_fp16(&h, file, "model.norm.weight") {
            Ok(v) => v,
            Err(e) => {
                return Err(e);
            },
        };
        let embed = match load_linear(&h, file, "model.embed_tokens.weight") {
            Ok(matrix) => Embedding { matrix },
            Err(e) => {
                return Err(e);
            },
        };
        let lm_head = if config.tie_word_embeddings {
            None
        } else {
            match load_linear(&h, file, "lm_head.weight") {
                Ok(m) => Some(m),
                Err(e) => {
                    return Err(e);
                },
            }
        };
        if embed.hidden() != config.hidden_size {
            return Err(
                Error::Shape(
                    ShapeFault::EmbeddingWidth {
                        got: embed.hidden(),
                        expected: config.hidden_size,
                    },
                ),
            );
        }
        if embed.vocab() != config.vocab_size {
            return Err(
                Error::Shape(
                    ShapeFault::EmbeddingRows { got: embed.vocab(), expected: config.vocab_size },
                ),
            );
        }
        let tokenizer_json = match load_tokenizer(&h, file) {
            Ok(t) => t,
            Err(e) => {
                return Err(e);
            },
        };
        Ok(
            ModelWeights {
                config,
                layers,
                final_norm,
                embed,
                lm_head,
                quant_meta: h.quant,
                tokenizer_json,
            },
        )
    }

    /// Bytes streamed per decode step, with the output projection: the embedding
    /// matrix counts where it is that projection too.
    pub fn decode_bytes(&self) -> (n: usize)
        requires
            step_bytes(self@) <= usize::MAX,
        ensures
            n == step_bytes(self@),
    {
        let ghost all = self@.layers;
        let mut n: usize = 0;
        let mut i: usize = 0;
        while i < self.layers.len()
            invariant
                i <= self.layers@.len(),
                all == self@.layers,
                n == body_bytes(all, i as int),
                body_bytes(all, all.len() as int) <= usize::MAX,
            decreases self.layers@.len() - i,
        {
            assert(all[i as int] == self.layers@[i as int]@);
            proof {
                lemma_body_bytes(all, i + 1, all.len() as int);
            }
            n += self.layers[i].bytes();
            i += 1;
        }
        match &self.lm_head {
            Some(m) => n + m.bytes(),
            None => n + self.embed.bytes(),
        }
    }

    /// Whether every weight of the model has a kernel for several tokens at once.
    pub fn supports_chunk(&self) -> (yes: bool)
        ensures
            yes == chunkable(self@),
    {
        let ghost all = self@.layers;
        if !self.embed.matrix.supports_chunk() {
            return false;
        }
        if let Some(m) = &self.lm_head {
            if !m.supports_chunk() {
                return false;
            }
        }
        let mut i: usize = 0;
        while i < self.layers.len()
            invariant
                i <= self.layers@.len(),
                all == self@.layers,
                forall|k: int| 0 <= k < i ==> (#[trigger] all[k]).chunkable(),
            decreases self.layers@.len() - i,
        {
            assert(all[i as int] == self.layers@[i as int]@);
            if !self.layers[i].supports_chunk() {
                return false;
            }
            i += 1;
        }
        true
    }
}

/// Whether every weight of a model has a kernel for several tokens at once.
pub open spec fn chunkable(m: ModelView) -> bool {
    &&& !(m.embed is Int4)
    &&& m.lm_head matches Some(head) ==> !(head is Int4)
    &&& forall|i: int| 0 <= i < m.layers.len() ==> (#[trigger] m.layers[i]).chunkable()
}

/// Bytes the first `n` blocks stream per token.
pub open spec fn body_bytes(layers: Seq<LayerView>, n: int) -> nat
    decreases n,
{
    if n <= 0 {
        0
    } else {
        body_bytes(layers, n - 1) + layers[n - 1].streamed()
    }
}

/// Bytes a model streams per token.
pub open spec fn step_bytes(m: ModelView) -> nat {
    body_bytes(m.layers, m.layers.len() as int) + match m.lm_head {
        Some(head) => head.streamed(),
        None => m.embed.streamed(),
    }
}

proof fn lemma_body_bytes(layers: Seq<LayerView>, a: int, b: int)
    requires
        a <= b,
    ensures
        body_bytes(layers, a) <= body_bytes(layers, b),
    decreases b - a,
{
    if a < b {
        lemma_body_bytes(layers, a, b - 1);
    }
}

} // verus!
