//! Model configurations and what they imply.

use serde_json::Value;

use whetstone::activations::ActivationSizes;
use whetstone::config::{default_hidden_act, default_max_pos};
use whetstone::error::{ConfigIssue, Error};
use whetstone::weights::check_widths;
use whetstone::ModelConfig;

const QWEN_05B: &str = r#"{
    "model_type": "qwen2",
    "hidden_act": "silu",
    "hidden_size": 896,
    "intermediate_size": 4864,
    "max_position_embeddings": 32768,
    "num_attention_heads": 14,
    "num_hidden_layers": 24,
    "num_key_value_heads": 2,
    "rms_norm_eps": 1e-06,
    "rope_theta": 1000000.0,
    "tie_word_embeddings": true,
    "vocab_size": 151936
}"#;

fn from_json(text: &str) -> Result<ModelConfig, Error> {
    let v: Value =
        serde_json::from_str(text).map_err(|e| Error::Config(ConfigIssue::NotJson(e.to_string())))?;
    let size = |key: &str| v[key].as_u64().unwrap() as usize;
    let c = ModelConfig {
        model_type: v["model_type"].as_str().unwrap().to_string(),
        hidden_size: size("hidden_size"),
        num_hidden_layers: size("num_hidden_layers"),
        num_attention_heads: size("num_attention_heads"),
        num_key_value_heads: v.get("num_key_value_heads").and_then(Value::as_u64).map(|n| n as usize),
        intermediate_size: size("intermediate_size"),
        vocab_size: size("vocab_size"),
        max_position_embeddings: v
            .get("max_position_embeddings")
            .and_then(Value::as_u64)
            .map(|n| n as usize)
            .unwrap_or(default_max_pos()),
        tie_word_embeddings: v.get("tie_word_embeddings").and_then(Value::as_bool).unwrap_or(false),
        hidden_act: v.get("hidden_act").and_then(Value::as_str).map(str::to_string).unwrap_or(default_hidden_act()),
        head_dim: v.get("head_dim").and_then(Value::as_u64).map(|n| n as usize),
    };
    c.validate()?;
    Ok(c)
}

fn qwen() -> ModelConfig {
    from_json(QWEN_05B).unwrap()
}

#[test]
fn parses_reference_model() {
    let c = qwen();
    assert_eq!(c.hidden_size, 896);
    assert_eq!(c.num_hidden_layers, 24);
    assert_eq!(c.head_dim(), 64);
    assert_eq!(c.n_kv_heads(), 2);
    assert_eq!(c.gqa_ratio(), 7);
    assert!(c.tie_word_embeddings);
}

#[test]
fn parameter_counts_match_the_checkpoint() {
    let c = qwen();
    assert!(c.counts_fit());
    // attn: q 896*896 + k 896*128 + v 896*128 + o 896*896
    assert_eq!(c.attn_params_per_layer(), 802_816 + 114_688 + 114_688 + 802_816);
    // mlp: 3 * 896 * 4864
    assert_eq!(c.mlp_params_per_layer(), 13_074_432);
    assert_eq!(c.params_per_layer(), 14_909_440);
    assert_eq!(c.non_embedding_params(), 357_826_560);
    assert_eq!(c.embedding_params(), 136_134_656);
    // Tied embeddings: lm_head is not stored separately.
    assert_eq!(c.total_params(), 493_961_216);
}

#[test]
fn mlp_dominates_the_weight_budget() {
    // 88% of per-layer weights are MLP, so that is where quantization pays.
    let c = qwen();
    let f = c.mlp_params_per_layer() as f64 / c.params_per_layer() as f64;
    assert!((0.87..0.89).contains(&f), "mlp fraction was {f}");
}

#[test]
fn roofline_counts_the_output_projection() {
    let c = qwen();

    // The output projection is a full GEMV against all of the embedding, every
    // token, and it is over a quarter of decode traffic.
    assert_eq!(c.lm_head_params(), 136_134_656);
    assert_eq!(c.decode_resident_params(), 357_826_560 + 136_134_656);
    let fraction = c.lm_head_params() as f64 / c.decode_resident_params() as f64;
    assert!((fraction - 0.2756).abs() < 1e-3, "head fraction was {fraction}");

    // Omitting it overstates the ceiling by exactly that ratio.
    let full = 336e9 / (c.decode_resident_params() as f64 * 2.0);
    let body_only = 336e9 / (c.non_embedding_params() as f64 * 2.0);
    assert!(
        (body_only / full - 1.38).abs() < 0.01,
        "omitting lm_head inflates the ceiling by {:.3}x",
        body_only / full
    );
}

#[test]
fn an_untied_embedding_is_stored_and_not_read() {
    let c = qwen();
    let mut u = qwen();
    u.tie_word_embeddings = false;
    assert_eq!(u.total_params(), 493_961_216 + 136_134_656);
    assert_eq!(u.decode_resident_params(), c.decode_resident_params());
}

#[test]
fn gqa_shrinks_the_kv_cache_sevenfold() {
    let c = qwen();
    // 2 KV heads instead of 14: the cache is 7x smaller than MHA would be.
    let gqa = c.kv_cache_bytes(4096, 2);
    let mha = 2 * c.num_hidden_layers * c.num_attention_heads * c.head_dim() * 4096 * 2;
    assert_eq!(mha / gqa, 7);
    assert_eq!(gqa, 2 * 24 * 2 * 64 * 4096 * 2);
}

#[test]
fn sizes_that_cannot_be_counted_are_noticed() {
    let mut c = qwen();
    assert!(c.kv_cache_fits(4096, 2));
    assert!(!c.kv_cache_fits(usize::MAX, 2));
    assert!(c.kv_cache_fits(usize::MAX, 0));
    // One token takes 2 * 24 * 2 * 64 bytes at one byte each.
    assert!(c.kv_cache_fits(usize::MAX / 6144, 1));
    assert!(!c.kv_cache_fits(usize::MAX / 6144 + 1, 1));
    assert!(check_widths(&c));
    c.head_dim = Some(usize::MAX / 2);
    assert!(!check_widths(&c));
}

#[test]
fn malformed_configs_are_rejected() {
    let bad_heads = QWEN_05B.replace("\"num_key_value_heads\": 2", "\"num_key_value_heads\": 5");
    assert!(from_json(&bad_heads).is_err(), "14 is not a multiple of 5");

    let bad_act = QWEN_05B.replace("\"silu\"", "\"gelu\"");
    assert!(from_json(&bad_act).is_err(), "gelu is not implemented");

    assert!(from_json("{ not json }").is_err());
}

fn fault(change: fn(&mut ModelConfig)) -> ConfigIssue {
    let mut c = qwen();
    change(&mut c);
    match c.validate() {
        Err(Error::Config(issue)) => issue,
        other => panic!("unexpected outcome: {other:?}"),
    }
}

#[test]
fn each_fault_of_a_configuration_is_named() {
    assert!(matches!(fault(|c| c.hidden_size = 0), ConfigIssue::ZeroSize));
    assert!(matches!(fault(|c| c.num_attention_heads = 0), ConfigIssue::ZeroSize));
    assert!(matches!(fault(|c| c.hidden_size = 897), ConfigIssue::UnevenHeads { hidden: 897, heads: 14 }));
    assert!(matches!(
        fault(|c| c.num_key_value_heads = Some(5)),
        ConfigIssue::KvHeads { heads: 14, kv: 5 }
    ));
    assert!(matches!(fault(|c| c.hidden_act = "gelu".to_string()), ConfigIssue::Activation(a) if a == "gelu"));
    assert!(matches!(fault(|c| c.model_type = "llama".to_string()), ConfigIssue::Family(f) if f == "llama"));
}

#[test]
fn a_stated_head_width_wins() {
    let mut c = qwen();
    c.head_dim = Some(128);
    c.hidden_size = 900;
    assert!(c.validate().is_ok());
    assert_eq!(c.head_dim(), 128);
    c.num_key_value_heads = None;
    assert_eq!(c.n_kv_heads(), 14);
    assert_eq!(c.gqa_ratio(), 1);
    assert_eq!(default_max_pos(), 32768);
    assert_eq!(default_hidden_act(), "silu");
}

#[test]
fn activations_are_sized_by_the_configuration() {
    let one = ActivationSizes::new(&qwen(), 1).unwrap();
    let eight = ActivationSizes::new(&qwen(), 8).unwrap();
    assert_eq!(one.qkv, (14 + 2 + 2) * 64);
    assert_eq!(
        eight,
        ActivationSizes {
            x: 8 * 896,
            h: 8 * 896,
            qkv: 8 * 1152,
            attn: 8 * 896,
            gate_up: 8 * 9728,
            act: 8 * 4864,
            logits: 8 * 151936,
            tokens: 8,
        }
    );
    assert_eq!(one.bytes() * 8, eight.bytes());
    assert_eq!(one.bytes(), 4 * 896 + 2 * 896 + 4 * 1152 + 2 * 896 + 4 * 9728 + 2 * 4864 + 4 * 151936 + 8);
    let mut huge = qwen();
    huge.vocab_size = usize::MAX;
    assert!(ActivationSizes::new(&huge, 2).is_none());
}
