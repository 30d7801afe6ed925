//! What the commands decide.

use whetstone::cli::bench::shapes;
use whetstone::cli::chat::{
    is_stop, parse_command, parse_setting, segment, speculates, use_ansi, Command, Setting, SettingIssue,
};
use whetstone::cli::convert::{
    body_encoding, body_meta, encoding_of, finished_block, has_qk_norm, head_encoding, head_meta, plan, reports_progress,
    BodyPrecision, Encoding, HeadPrecision, Role,
};
use whetstone::cli::eval::{check_prompt, check_vocabulary, predictions, read_prompts, read_tokens, take_prompts, EvalIssue};
use whetstone::cli::inspect::{count_elements, elements_by_type, missing_tensors, required_tensors};
use whetstone::cli::tune::{context_at_least, context_for, rules};
use whetstone::cli::verify::{comparable, count_params, kind_total, kind_totals};
use whetstone::error::{Error, ShapeFault};
use whetstone::format::{Blob, Header, TensorEntry, TensorKind};
use whetstone::json::Json;
use whetstone::number::{parse_i32, parse_unsigned, push_decimal, push_signed};
use whetstone::{Checkpoint, Dtype, ModelConfig, SafeTensors};

#[test]
fn turns_are_marked_up() {
    assert_eq!(
        segment("Be brief.", "hi", true),
        "<|im_start|>system\nBe brief.<|im_end|>\n<|im_start|>user\nhi<|im_end|>\n<|im_start|>assistant\n"
    );
    assert_eq!(
        segment("Be brief.", "more", false),
        "<|im_end|>\n<|im_start|>user\nmore<|im_end|>\n<|im_start|>assistant\n"
    );
    assert!(is_stop(5, 5, None));
    assert!(is_stop(6, 5, Some(6)));
    assert!(!is_stop(7, 5, Some(6)));
    assert!(speculates(2, true) && !speculates(1, true) && !speculates(2, false));
    assert!(use_ansi(true, false, false, false));
    assert!(!use_ansi(false, false, false, false));
    assert!(!use_ansi(true, true, false, false));
    assert!(!use_ansi(true, false, true, false));
    assert!(use_ansi(true, false, true, true));
}

#[test]
fn lines_are_commands_or_messages() {
    assert!(matches!(parse_command("  \n"), Command::Nothing));
    assert!(matches!(parse_command("/quit"), Command::Quit));
    assert!(matches!(parse_command(" /exit now"), Command::Quit));
    assert!(matches!(parse_command("/q"), Command::Quit));
    assert!(matches!(parse_command("/help"), Command::Help));
    assert!(matches!(parse_command("/?"), Command::Help));
    assert!(matches!(parse_command("/reset"), Command::Reset));
    assert!(matches!(parse_command("/system"), Command::ShowSystem));
    assert!(matches!(parse_command("/system  Be brief. "), Command::SetSystem(s) if s == "Be brief."));
    assert!(matches!(parse_command("/params"), Command::Params));
    assert!(matches!(parse_command("/set top-k 40"), Command::Change(s) if s == "top-k 40"));
    assert!(matches!(parse_command("/stats"), Command::Stats));
    assert!(matches!(parse_command("  what is /quit? \n"), Command::Message(s) if s == "what is /quit?"));
}

#[test]
fn settings_are_checked() {
    assert!(matches!(parse_setting("temp 0.7"), Ok(Setting::Temperature(v)) if v == "0.7"));
    assert!(matches!(parse_setting("top_p 0.9 x"), Ok(Setting::TopP(v)) if v == "0.9"));
    assert!(matches!(parse_setting("top-k 40"), Ok(Setting::TopK(40))));
    assert!(matches!(parse_setting("min-p 0.1"), Ok(Setting::MinP(v)) if v == "0.1"));
    assert!(matches!(parse_setting("repeat-penalty 1.1"), Ok(Setting::RepeatPenalty(v)) if v == "1.1"));
    assert!(matches!(parse_setting("repeat-last-n 64"), Ok(Setting::RepeatLastN(64))));
    assert!(matches!(parse_setting("seed 18446744073709551615"), Ok(Setting::Seed(u64::MAX))));
    assert!(matches!(parse_setting("seed"), Err(SettingIssue::Usage)));
    assert!(matches!(parse_setting("  "), Err(SettingIssue::Usage)));
    assert!(matches!(
        parse_setting("top-k many"),
        Err(SettingIssue::NotANumber { name, value }) if name == "top-k" && value == "many"
    ));
    assert!(matches!(parse_setting("verbosity 3"), Err(SettingIssue::Unknown(n)) if n == "verbosity"));
}

#[test]
fn numbers_are_read_as_they_are_written() {
    let of = |s: &str| -> Vec<char> { s.chars().collect() };
    assert_eq!(parse_unsigned(&of("0042"), 0, 4, 100), Some(42));
    assert_eq!(parse_unsigned(&of("+42"), 0, 3, 100), Some(42));
    assert_eq!(parse_unsigned(&of("101"), 0, 3, 100), None);
    assert_eq!(parse_unsigned(&of("4 2"), 0, 3, 100), None);
    assert_eq!(parse_unsigned(&of(""), 0, 0, 100), None);
    assert_eq!(parse_i32(&of("-2147483648"), 0, 11), Some(i32::MIN));
    assert_eq!(parse_i32(&of("2147483648"), 0, 10), None);
    let mut text = String::new();
    push_decimal(&mut text, 0);
    text.push(' ');
    push_decimal(&mut text, 18446744073709551615);
    text.push(' ');
    push_signed(&mut text, i64::MIN);
    assert_eq!(text, "0 18446744073709551615 -9223372036854775808");
}

#[test]
fn a_step_issues_five_shapes() {
    let list = shapes(24, 896, 128, 4864, 151936);
    let total: usize = list.iter().map(|s| s.in_f * s.out_f * s.per_token).sum();
    assert_eq!(total, 357_826_560 + 136_134_656);
    assert_eq!(list.iter().map(|s| s.per_token).collect::<Vec<_>>(), vec![48, 48, 48, 24, 1]);
    assert_eq!(list[4].name, "lm_head");
}

#[test]
fn widths_decide_what_can_be_packed() {
    assert_eq!(body_encoding(BodyPrecision::Int4Hier, 64), Encoding::Int4Hier);
    assert_eq!(body_encoding(BodyPrecision::Int4Hier, 65), Encoding::Fp16);
    assert_eq!(body_encoding(BodyPrecision::Int4, 64), Encoding::Fp16);
    assert_eq!(body_encoding(BodyPrecision::Int4, 256), Encoding::Int4);
    assert_eq!(body_encoding(BodyPrecision::Fp16, 256), Encoding::Fp16);
    assert_eq!(head_encoding(HeadPrecision::Int4, 256), Encoding::Int4);
    assert_eq!(head_encoding(HeadPrecision::Int4Hier, 96), Encoding::Int4Hier);
    assert_eq!(head_encoding(HeadPrecision::Fp16, 256), Encoding::Fp16);
    let (body, head) = (BodyPrecision::Int4, HeadPrecision::Fp16);
    assert_eq!(encoding_of(Role::Projection, body, head, 128), Encoding::Int4);
    assert_eq!(encoding_of(Role::Dense, body, head, 128), Encoding::Fp16);
    assert_eq!(encoding_of(Role::Embedding, body, head, 128), Encoding::Fp16);
    assert_eq!(body_meta(BodyPrecision::Int4Hier), ("int4-hier-g32", "32", "kqx2-weighted-ls"));
    assert_eq!(body_meta(BodyPrecision::Int4).0, "int4-g128-asymmetric");
    assert_eq!(head_meta(HeadPrecision::Int4), "int4-g128");
    assert!(reports_progress(0, 20) && reports_progress(6, 20) && reports_progress(19, 20));
    assert!(!reports_progress(7, 20));
}

/// A checkpoint of empty tensors.
fn checkpoint(names: &[String]) -> Checkpoint {
    let entries: Vec<String> = names
        .iter()
        .map(|n| format!(r#""{n}":{{"dtype":"U8","shape":[0],"data_offsets":[0,0]}}"#))
        .collect();
    let header = format!("{{{}}}", entries.join(","));
    let mut file = (header.len() as u64).to_le_bytes().to_vec();
    file.extend_from_slice(header.as_bytes());
    Checkpoint::single(SafeTensors::from_file(&file).unwrap(), "model.safetensors".to_string())
}

fn config(layers: usize, tied: bool) -> ModelConfig {
    ModelConfig {
        model_type: "qwen2".to_string(),
        hidden_size: 64,
        num_hidden_layers: layers,
        num_attention_heads: 2,
        num_key_value_heads: None,
        intermediate_size: 128,
        vocab_size: 10,
        max_position_embeddings: 64,
        tie_word_embeddings: tied,
        hidden_act: "silu".to_string(),
        head_dim: None,
    }
}

#[test]
fn required_tensors_are_reported_when_missing() {
    let mut names = required_tensors(2);
    assert_eq!(names.len(), 20);
    assert_eq!(names[0], "model.embed_tokens.weight");
    assert_eq!(names[2], "model.layers.0.input_layernorm.weight");
    assert!(missing_tensors(&checkpoint(&names), 2).is_empty());
    let gone = names.remove(7);
    assert_eq!(missing_tensors(&checkpoint(&names), 2), vec![gone]);
}

#[test]
fn elements_are_counted_by_type() {
    let header = r#"{"a":{"dtype":"U8","shape":[3],"data_offsets":[0,3]},
                     "b":{"dtype":"BF16","shape":[2,2],"data_offsets":[3,11]},
                     "c":{"dtype":"U8","shape":[1],"data_offsets":[11,12]},
                     "d":{"dtype":"I64","shape":[0],"data_offsets":[12,12]},
                     "e":{"dtype":"BOOL","shape":[2],"data_offsets":[12,14]}}"#;
    let mut file = (header.len() as u64).to_le_bytes().to_vec();
    file.extend_from_slice(header.as_bytes());
    file.extend_from_slice(&[0; 14]);
    let c = Checkpoint::single(SafeTensors::from_file(&file).unwrap(), "model.safetensors".to_string());
    assert_eq!(count_elements(&c), Some(10));
    let list = elements_by_type(&c);
    assert_eq!(list, vec![(Dtype::BF16, 4), (Dtype::Bool, 2), (Dtype::I64, 0), (Dtype::U8, 4)]);
    let names: Vec<String> = list.iter().map(|(d, _)| format!("{d:?}")).collect();
    assert!(names.windows(2).all(|w| w[0] < w[1]));
}

#[test]
fn a_conversion_writes_what_a_model_needs() {
    let mut names = required_tensors(1);
    names.push("model.layers.0.self_attn.q_proj.bias".to_string());
    names.push("lm_head.weight".to_string());
    let c = checkpoint(&names);
    let tied = plan(&c, &config(1, true));
    let untied = plan(&c, &config(1, false));
    assert_eq!(untied.len(), tied.len() + 1);
    assert_eq!(untied[untied.len() - 1].role, Role::Head);
    assert_eq!(tied.iter().filter(|s| s.role == Role::Projection).count(), 7);
    assert_eq!(tied[tied.len() - 1].role, Role::Embedding);
    for n in &names[..12] {
        assert_eq!(tied.iter().filter(|s| &s.name == n).count(), 1, "{n}");
    }
    assert!(!has_qk_norm(&c));
    names.push("model.layers.0.self_attn.k_norm.weight".to_string());
    assert!(has_qk_norm(&checkpoint(&names)));
}

#[test]
fn each_block_is_finished_by_its_last_step() {
    let mut names = required_tensors(3);
    names.push("model.layers.1.self_attn.k_proj.bias".to_string());
    let steps = plan(&checkpoint(&names), &config(3, true));
    let done: Vec<(usize, usize)> =
        (0..steps.len()).filter_map(|i| finished_block(&steps, i).map(|l| (i, l))).collect();
    assert_eq!(done, vec![(8, 0), (18, 1), (27, 2)]);
    assert_eq!(steps[18].name, "model.layers.1.self_attn.k_proj.bias");
    assert_eq!(steps[18].block, Some(1));
    assert_eq!(steps[28].block, None);
}

#[test]
fn sums_that_cannot_be_counted_are_noticed() {
    let t = |shape: Vec<usize>, lens: &[u64]| TensorEntry {
        name: "a".to_string(),
        kind: TensorKind::Fp16,
        shape,
        blobs: lens.iter().map(|&len| ("data".to_string(), Blob { offset: 0, len, hash: 0 })).collect(),
    };
    let h = |tensors| Header {
        format: "wstone".to_string(),
        version: 1,
        producer: "test".to_string(),
        model_config: Json::Null,
        quant: vec![],
        tensors,
        extras: vec![],
    };
    assert_eq!(count_params(&h(vec![])), Some(0));
    assert_eq!(count_params(&h(vec![t(vec![usize::MAX], &[u64::MAX])])), Some(usize::MAX));
    assert_eq!(count_params(&h(vec![t(vec![usize::MAX, 2], &[])])), None);
    assert_eq!(count_params(&h(vec![t(vec![usize::MAX], &[]), t(vec![1], &[])])), None);
    assert_eq!(count_params(&h(vec![t(vec![1], &[u64::MAX, 1])])), None);
    assert_eq!(count_params(&h(vec![t(vec![1], &[u64::MAX]), t(vec![1], &[1])])), None);
}

#[test]
fn token_files_are_checked() {
    assert_eq!(read_tokens(&[1, 0, 0, 0, 0, 1, 0, 0]).unwrap(), vec![1, 256]);
    assert_eq!(read_tokens(&[1, 0, 0]), Err(EvalIssue::Ragged(3)));
    assert!(check_vocabulary(&[1, 2, 3], 4).is_ok());
    assert_eq!(check_vocabulary(&[1, 9, 7], 4), Err(EvalIssue::Outside(9)));
    assert_eq!(check_prompt(&[], 1), Err(EvalIssue::EmptyPrompt(1)));
    assert!(check_prompt(&[7], 0).is_ok());
    assert_eq!(predictions(3, 512), 3 * 511);
}

#[test]
fn prompts_are_an_array_of_id_arrays() {
    assert_eq!(read_prompts("[[1, 2], [4294967295]]"), Ok(vec![vec![1, 2], vec![4294967295]]));
    // An empty prompt is refused when its turn comes.
    assert_eq!(read_prompts(" [[], [3]] "), Ok(vec![vec![], vec![3]]));
    assert_eq!(read_prompts("[]"), Err(EvalIssue::NoPrompts));
    let row = |ids: &[u64]| Json::Array(ids.iter().map(|&n| Json::Number(Some(n))).collect());
    assert_eq!(take_prompts(&Json::Array(vec![row(&[5, 6]), row(&[7])])), Ok(vec![vec![5, 6], vec![7]]));
    assert_eq!(take_prompts(&Json::Array(vec![row(&[1 << 32])])), Err(EvalIssue::NotPrompts));
    for text in ["", "[[1]", "[[1]] x", "{}", "[1]", "[[1], 2]", "[[-1]]", "[[1.0]]", "[[4294967296]]", "[[\"1\"]]", "[[null]]"] {
        assert_eq!(read_prompts(text), Err(EvalIssue::NotPrompts), "{text:?}");
    }
}

#[test]
fn every_rule_of_the_candidates_is_tried() {
    let list = rules();
    assert_eq!(list.len(), 27);
    assert_eq!(list[0], (3, 3, 3));
    assert_eq!(list[1], (3, 3, 4));
    assert_eq!(list[26], (9, 9, 9));
    for a in [3, 4, 9] {
        for b in [3, 4, 9] {
            for c in [3, 4, 9] {
                assert_eq!(list.iter().filter(|&&r| r == (a, b, c)).count(), 1);
            }
        }
    }
    assert_eq!(context_for(10, 20), 512);
    assert_eq!(context_for(600, 20), 621);
    assert_eq!(context_at_least(2048, 10, 20), 2048);
    assert_eq!(context_at_least(16, 10, 20), 31);
}

#[test]
fn a_container_is_summed_up_by_kind() {
    let t = |name: &str, kind, shape: Vec<usize>, len| TensorEntry {
        name: name.to_string(),
        kind,
        shape,
        blobs: vec![("data".to_string(), Blob { offset: 0, len, hash: 0 })],
    };
    let h = Header {
        format: "wstone".to_string(),
        version: 1,
        producer: "test".to_string(),
        model_config: Json::Null,
        quant: vec![],
        tensors: vec![
            t("a", TensorKind::Int4HierG32, vec![2, 64], 80),
            t("b", TensorKind::Fp16, vec![64], 128),
            t("c", TensorKind::Int4HierG32, vec![1, 64], 40),
        ],
        extras: vec![],
    };
    assert_eq!(count_params(&h), Some(256));
    let totals = kind_totals(&h);
    assert_eq!(totals.len(), 2);
    assert_eq!((totals[0].kind, totals[0].count, totals[0].bytes, totals[0].params), (TensorKind::Fp16, 1, 128, 64));
    assert_eq!(totals[1], kind_total(&h, TensorKind::Int4HierG32));
    assert_eq!((totals[1].count, totals[1].bytes, totals[1].params), (2, 120, 192));
    assert_eq!(comparable(&h.tensors[0]).unwrap(), Some((2, 64)));
    assert_eq!(comparable(&h.tensors[1]).unwrap(), None);
    let odd = t("d", TensorKind::Int4G128, vec![128], 0);
    assert!(matches!(comparable(&odd), Err(Error::Shape(ShapeFault::NotMatrix(n, 1))) if n == "d"));
}
