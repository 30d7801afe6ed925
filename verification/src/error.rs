//! What can go wrong in loading or preparing a model.

use vstd::prelude::*;

use crate::kernels;
use crate::quant;

verus! {

/// What is wrong with a description of a model or of its tokenizer.
#[derive(Debug)]
pub enum ConfigIssue {
    /// The text is not JSON; the parser's own words.
    NotJson(String),
    /// `tokenizer.json` has no `model` section.
    NoModel,
    /// `tokenizer.json` has no vocabulary map.
    NoVocab,
    /// The vocabulary entry with this key is not an integer.
    VocabEntry(String),
    /// `tokenizer.json` has no list of merges.
    NoMerges,
    /// The merge with this rank is neither `"a b"` nor `["a", "b"]`.
    BadMerge(usize),
    /// The residual width or the number of query heads is zero.
    ZeroSize,
    /// The residual width is not a multiple of the number of query heads, and no
    /// head width is given.
    UnevenHeads { hidden: usize, heads: usize },
    /// The number of query heads is not a multiple of the number of key/value
    /// heads.
    KvHeads { heads: usize, kv: usize },
    /// This activation is not implemented.
    Activation(String),
    /// This model family is not supported.
    Family(String),
    /// There is neither a `model.safetensors` nor a
    /// `model.safetensors.index.json`.
    NoWeights,
    /// The shard index has no `weight_map` object.
    NoWeightMap,
    /// The shard index does not name a file for this tensor.
    WeightEntry(String),
    /// The shard index lists this file, which is not present.
    ShardMissing(String),
    /// The shard index maps this tensor to this file, which does not contain it.
    NotInShard(String, String),
}

/// What is wrong with a checkpoint or container file.
#[derive(Debug)]
pub enum FileIssue {
    /// The file is too short to be safetensors.
    TooShort,
    /// The header's length does not fit a file.
    HeaderOverflow,
    /// The header runs past the end of the file.
    HeaderPastEnd,
    /// The header is not UTF-8.
    HeaderText,
    /// The header is not JSON; the parser's own words.
    HeaderJson(String),
    /// The header is not a JSON object.
    HeaderShape,
    /// The entry of this tensor does not state a type, a shape and a range.
    BadEntry(String),
    /// This element type is not understood.
    Dtype(String),
    /// The range of this tensor ends before it begins.
    Inverted(String),
    /// This tensor ends past the end of the data.
    PastEnd(String),
    /// The size of this tensor's shape overflows.
    ShapeOverflow(String),
    /// The range of this tensor does not have the size its shape calls for.
    SizeMismatch(String),
    /// These two tensors overlap.
    Overlap(String, String),
    /// This tensor's elements cannot be read as numbers of the wanted type.
    Unreadable(String),
    /// The container is at fault.
    Container(quant::Error),
    /// This tensor is stored otherwise than those it is to be joined to.
    MixedKinds(String),
    /// This tensor is stored in a form that cannot be executed.
    NotExecutable(String),
    /// This tensor should be stored as fp16 and is not.
    NotFp16(String),
    /// The embedded tokenizer is not within the file.
    TokenizerRange,
    /// The embedded tokenizer is not UTF-8.
    TokenizerText,
}

/// Why a pass of the engine was refused.
#[derive(Debug, Clone, Copy, PartialEq, Eq, Structural)]
pub enum RunIssue {
    /// The context is full; it holds this many tokens.
    ContextFull(usize),
    /// There is no prompt to generate from.
    EmptyPrompt,
    /// A pass over no tokens was asked for.
    EmptyChunk,
    /// More tokens were asked for than a pass is wide.
    TooWide { tokens: usize, width: usize },
    /// The tokens do not fit behind this position of the cache.
    PastEnd { tokens: usize, position: usize, capacity: usize },
    /// No pass over several tokens has run.
    NoChunk,
    /// A rewind to a place ahead of this position was asked for.
    RewindAhead { to: usize, position: usize },
    /// A window to be scored has fewer than two tokens.
    WindowTooSmall,
    /// A window to be scored exceeds the cache.
    WindowTooLarge { window: usize, capacity: usize },
}

/// What has a shape or a size that cannot be used.
#[derive(Debug)]
pub enum ShapeFault {
    /// This tensor is not a matrix; it has this many dimensions.
    NotMatrix(String, usize),
    /// This tensor is not as wide as those it is to be joined to.
    UnequalWidth { name: String, got: usize, expected: usize },
    /// Joined matrices have more rows than can be counted.
    TooManyRows,
    /// What is stored of this tensor does not have as many elements as its shape.
    Elements { name: String, got: usize },
    /// This bias is not as wide as its projection.
    BiasWidth { name: String, got: usize, expected: usize },
    /// The embedding is not as wide as the residual stream.
    EmbeddingWidth { got: usize, expected: usize },
    /// The embedding does not have a row for each token.
    EmbeddingRows { got: usize, expected: usize },
    /// A pass does not fit the engine's state.
    Run(RunIssue),
}

/// What a model cannot be asked to do.
#[derive(Debug, Clone, Copy, PartialEq, Eq, Structural)]
pub enum Lack {
    /// The weight format has no kernel for several tokens at once.
    ChunkKernel,
}

/// Something went wrong loading, preparing or running a model.
#[derive(Debug)]
pub enum Error {
    /// A description was unreadable, or of a model that cannot be run.
    Config(ConfigIssue),
    /// A file was malformed, truncated, or inconsistent in itself.
    Format(FileIssue),
    /// Something had a shape or a size that could not be used.
    Shape(ShapeFault),
    /// A tensor the model requires was absent from the checkpoint.
    MissingTensor(String),
    /// The model is fine, but the operation is not available for it.
    Unsupported(Lack),
    /// A failure from the device layer.
    Kernel(kernels::Error),
}

} // verus!
