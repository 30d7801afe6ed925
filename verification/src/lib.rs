//! Whetstone: the logic of a low-bit inference engine for language models.
//!
//! The crate holds everything the engine decides and computes on the host:
//! tokenisation, the container formats, the packing of quantised weights, the
//! shape rules of the kernels, and the decoding loops.

pub mod activations;
pub mod bpe;
pub mod bytemap;
pub mod bytes;
pub mod calls;
pub mod checkpoint;
pub mod checksum;
pub mod cli;
pub mod config;
pub mod container;
pub mod counts;
pub mod cpu;
pub mod engine;
pub mod error;
pub mod exactness;
pub mod faults;
pub mod fields;
pub mod format;
pub mod generate;
pub mod hier;
pub mod json;
pub mod kernels;
pub mod layout;
pub mod model;
pub mod names;
pub mod number;
pub mod pretokenize;
pub mod profile;
pub mod quant;
pub mod roundtrip;
pub mod runs;
pub mod safetensors;
pub mod sampling;
pub mod specials;
pub mod source;
pub mod speculate;
pub mod stored;
pub mod text;
pub mod tokenizer;
pub mod tokens;
pub mod utf8;
pub mod weights;
pub mod writer;

pub use checkpoint::Checkpoint;
pub use config::ModelConfig;
pub use engine::Engine;
pub use error::Error;
pub use model::DeviceLinear;
pub use safetensors::{Dtype, SafeTensors, TensorView};
pub use speculate::{SpecConfig, SpecStats};
pub use tokenizer::{StreamDecoder, Tokenizer};
pub use weights::{Embedding, LayerWeights, ModelWeights};
