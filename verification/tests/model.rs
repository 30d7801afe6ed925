//! Loading a model out of a container.

use whetstone::error::{Error, FileIssue, ShapeFault};
use whetstone::format::{Blob, Header, TensorKind};
use whetstone::hier::PackedInt4Hier;
use whetstone::json::Json;
use whetstone::model::{blob_bytes, fuse_linears, load_linear, shape2, tensor};
use whetstone::quant::PackedInt4;
use whetstone::weights::{fuse_biases, load_fp16, load_fp16_opt, name_in_block};
use whetstone::writer::Writer;
use whetstone::{DeviceLinear, ModelConfig, ModelWeights};

fn config(tied: bool) -> ModelConfig {
    ModelConfig {
        model_type: "qwen2".to_string(),
        hidden_size: 32,
        num_hidden_layers: 1,
        num_attention_heads: 4,
        num_key_value_heads: Some(2),
        intermediate_size: 64,
        vocab_size: 6,
        max_position_embeddings: 64,
        tie_word_embeddings: tied,
        hidden_act: "silu".to_string(),
        head_dim: None,
    }
}

fn hier(in_features: usize, out_features: usize, seed: usize) -> PackedInt4Hier {
    let n = in_features * out_features;
    let levels: Vec<u8> = (0..n).map(|i| ((i * 5 + seed) % 16) as u8).collect();
    let groups = n / 32;
    let d = vec![0x3c00; out_features];
    PackedInt4Hier::from_levels(&levels, &vec![1; groups], &vec![2; groups], &d, &d, in_features, out_features)
        .unwrap()
}

fn finish(mut w: Writer) -> (Header, Vec<u8>) {
    let mut file = vec![0u8; w.start() as usize];
    file.extend(w.take_pending());
    (w.finish(), file)
}

fn write_block(w: &mut Writer) {
    let b = |s: &str| name_in_block(0, s);
    w.write_fp16(&b(".input_layernorm.weight"), &[1u16; 32], &vec![32]).unwrap();
    w.write_fp16(&b(".post_attention_layernorm.weight"), &[2u16; 32], &vec![32]).unwrap();
    w.write_int4_hier(&b(".self_attn.q_proj.weight"), &hier(32, 32, 0));
    w.write_int4_hier(&b(".self_attn.k_proj.weight"), &hier(32, 16, 1));
    w.write_int4_hier(&b(".self_attn.v_proj.weight"), &hier(32, 16, 2));
    w.write_fp16(&b(".self_attn.k_proj.bias"), &[7u16; 16], &vec![16]).unwrap();
    w.write_int4_hier(&b(".self_attn.o_proj.weight"), &hier(32, 32, 3));
    w.write_int4_hier(&b(".mlp.gate_proj.weight"), &hier(32, 64, 4));
    w.write_int4_hier(&b(".mlp.up_proj.weight"), &hier(32, 64, 5));
    w.write_int4_hier(&b(".mlp.down_proj.weight"), &hier(64, 32, 6));
}

fn model(tokenizer: Option<&[u8]>, rows: usize) -> (Header, Vec<u8>) {
    let mut w = Writer::new(Json::Null, 8192);
    w.set_quant_meta("scheme", "int4-hier-g32");
    write_block(&mut w);
    w.write_fp16("model.norm.weight", &[3u16; 32], &vec![32]).unwrap();
    w.write_fp16("model.embed_tokens.weight", &vec![4u16; 32 * rows], &vec![rows, 32]).unwrap();
    if let Some(t) = tokenizer {
        w.write_extra("tokenizer.json", t);
    }
    finish(w)
}

#[test]
fn a_whole_model_loads() {
    let (h, file) = model(Some(b"{}"), 6);
    let m = ModelWeights::load(h, &file, config(true)).unwrap();
    assert_eq!(m.layers.len(), 1);
    assert_eq!(m.final_norm, vec![3u16; 32]);
    assert_eq!(m.tokenizer_json, Some("{}".to_string()));
    assert_eq!(m.quant_meta, vec![("scheme".to_string(), "int4-hier-g32".to_string())]);
    assert_eq!((m.embed.vocab(), m.embed.hidden(), m.embed.bytes()), (6, 32, 384));
    assert!(m.lm_head.is_none());
    assert!(m.supports_chunk());

    let l = &m.layers[0];
    assert_eq!((l.qkv_proj.out_features(), l.qkv_proj.in_features()), (64, 32));
    assert_eq!(l.gate_up_proj.out_features(), 128);
    // The biases that the file omits are zero, at their places.
    let mut bias = vec![0u16; 32];
    bias.extend(vec![7u16; 16]);
    bias.extend(vec![0u16; 16]);
    assert_eq!(l.qkv_bias, Some(bias));
    assert!(l.supports_chunk());

    let rows = |r: usize, w: usize| r * w / 2 + r * w / 32 + 4 * r;
    let body = rows(64, 32) + rows(32, 32) + rows(128, 32) + rows(32, 64);
    assert_eq!(l.bytes(), body);
    assert_eq!(m.decode_bytes(), body + 384);
}

#[test]
fn joined_matrices_are_one_below_the_other() {
    let (h, file) = model(None, 6);
    let names: Vec<String> =
        [".self_attn.q_proj.weight", ".self_attn.k_proj.weight"].iter().map(|s| name_in_block(0, s)).collect();
    let (q, k) = (hier(32, 32, 0), hier(32, 16, 1));
    match fuse_linears(&h, &file, &names).unwrap() {
        DeviceLinear::Int4Hier { qw, si, sb, in_features, out_features } => {
            assert_eq!(qw, [q.qw, k.qw].concat());
            assert_eq!(si, [q.si, k.si].concat());
            assert_eq!(sb, [q.sb, k.sb].concat());
            assert_eq!((in_features, out_features), (32, 48));
        }
        _ => panic!("stored in another form"),
    }
    match load_linear(&h, &file, "model.embed_tokens.weight").unwrap() {
        DeviceLinear::Fp16 { w, in_features, out_features } => {
            assert_eq!(w, vec![4u16; 192]);
            assert_eq!((in_features, out_features), (32, 6));
        }
        _ => panic!("stored in another form"),
    }
}

#[test]
fn group_128_runs_one_token_at_a_time() {
    let levels: Vec<u8> = vec![3; 256];
    let p = PackedInt4::from_levels(&levels, &[1, 2], &[3, 4], 128, 2).unwrap();
    let mut w = Writer::new(Json::Null, 8192);
    w.write_int4("a", &p);
    let (h, file) = finish(w);
    let m = load_linear(&h, &file, "a").unwrap();
    assert!(!m.supports_chunk());
    assert_eq!(m.bytes(), 128 + 8);
    match m {
        DeviceLinear::Int4 { qw, sz, .. } => assert_eq!((qw, sz), (p.qw, p.sz)),
        _ => panic!("stored in another form"),
    }
}

fn fault(h: Header, file: &[u8], c: ModelConfig) -> Error {
    match ModelWeights::load(h, file, c) {
        Err(e) => e,
        Ok(_) => panic!("the model should have been refused"),
    }
}

#[test]
fn each_fault_of_a_model_is_named() {
    let (h, file) = model(None, 6);
    assert!(matches!(fault(h, &file, config(false)), Error::MissingTensor(n) if n == "lm_head.weight"));

    let (h, file) = model(None, 7);
    assert!(matches!(
        fault(h, &file, config(true)),
        Error::Shape(ShapeFault::EmbeddingRows { got: 7, expected: 6 })
    ));

    let (mut h, file) = model(None, 6);
    let i = h.tensors.iter().position(|t| t.name == "model.embed_tokens.weight").unwrap();
    h.tensors[i].shape = vec![12, 16];
    assert!(matches!(
        fault(h, &file, config(true)),
        Error::Shape(ShapeFault::EmbeddingWidth { got: 16, expected: 32 })
    ));

    let (h, file) = model(Some(&[0xff]), 6);
    assert!(matches!(fault(h, &file, config(true)), Error::Format(FileIssue::TokenizerText)));

    let (mut h, file) = model(None, 6);
    h.extras.push(("tokenizer.json".to_string(), Blob { offset: u64::MAX, len: 1, hash: 0 }));
    assert!(matches!(fault(h, &file, config(true)), Error::Format(FileIssue::TokenizerRange)));

    let (h, file) = model(None, 6);
    let mut c = config(true);
    c.num_attention_heads = 0;
    assert!(matches!(fault(h, &file, c), Error::Config(_)));
}

#[test]
fn each_fault_of_a_matrix_is_named() {
    let (mut h, file) = model(None, 6);
    let at = |h: &Header, n: &str| h.tensors.iter().position(|t| t.name == n).unwrap();
    let q = name_in_block(0, ".self_attn.q_proj.weight");
    let down = name_in_block(0, ".mlp.down_proj.weight");
    let embed = "model.embed_tokens.weight".to_string();

    assert!(matches!(tensor(&h, "nope"), Err(Error::MissingTensor(n)) if n == "nope"));
    assert!(matches!(
        fuse_linears(&h, &file, &[q.clone(), down.clone()]),
        Err(Error::Shape(ShapeFault::UnequalWidth { name, got: 64, expected: 32 })) if name == down
    ));
    assert!(matches!(
        fuse_linears(&h, &file, &[q.clone(), embed.clone()]),
        Err(Error::Format(FileIssue::MixedKinds(n))) if n == embed
    ));
    assert!(matches!(
        load_linear(&h, &file, "model.norm.weight"),
        Err(Error::Shape(ShapeFault::NotMatrix(n, 1))) if n == "model.norm.weight"
    ));
    assert!(matches!(load_fp16(&h, &file, &q), Err(Error::Format(FileIssue::NotFp16(n))) if n == q));
    assert_eq!(load_fp16_opt(&h, &file, "nope").unwrap(), None);
    assert_eq!(load_fp16_opt(&h, &file, "model.norm.weight").unwrap(), Some(vec![3u16; 32]));

    let k = name_in_block(0, ".self_attn.k_proj.bias");
    assert!(matches!(
        fuse_biases(&h, &file, &[k.clone()], &[15]),
        Err(Error::Shape(ShapeFault::BiasWidth { name, got: 16, expected: 15 })) if name == k
    ));
    assert_eq!(fuse_biases(&h, &file, &["none".to_string()], &[4]).unwrap(), None);

    let i = at(&h, &embed);
    assert_eq!(shape2(&h.tensors[i]).unwrap(), (6, 32));
    assert_eq!(blob_bytes(&file, &h.tensors[i], "data").unwrap().len(), 384);
    assert!(matches!(blob_bytes(&file, &h.tensors[i], "qw"), Err(Error::Format(FileIssue::Container(_)))));
    h.tensors[i].shape = vec![5, 32];
    assert!(matches!(
        load_fp16(&h, &file, &embed),
        Err(Error::Shape(ShapeFault::Elements { name, got: 192 })) if name == embed
    ));
    h.tensors[i].kind = TensorKind::Fp32;
    assert!(matches!(
        load_linear(&h, &file, &embed),
        Err(Error::Format(FileIssue::NotExecutable(n))) if n == embed
    ));
    let i = at(&h, &q);
    h.tensors[i].shape = vec![31, 32];
    assert!(matches!(load_linear(&h, &file, &q), Err(Error::Kernel(_))));
}
