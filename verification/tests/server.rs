use std::cell::Cell;

use base_mlx::config::{
    default_max_pos, default_one, default_position_embedding_type, default_rms_eps,
    default_rope_theta, ModelConfig,
};
use base_mlx::engine::{can_speculate, check_compatible, conclude, generate, LoadedModel};
use base_mlx::error::Error;
use base_mlx::float_bits::F32;
use base_mlx::kernels::{check_call, check_kernel, conv_launch, ssm_launch};
use base_mlx::memory::{bytes_of, done, instrumented, snapshot_of, MemoryError};
use base_mlx::models_list::{id_of, list_models, LocalModel};
use base_mlx::pull::{find_local, ModelDir, Root};
use base_mlx::registry::resolve_repo;
use base_mlx::sampler::SamplingParams;
use base_mlx::speculative::Finish;
use base_mlx::state::{with_loaded, with_target_and_draft, AppInner};
use base_mlx::tokenizer::Tokenizer;
use serde_json::Value;

const WORDS: &str = r#"{"version":"1.0","truncation":null,"padding":null,"added_tokens":[],
    "normalizer":null,"pre_tokenizer":{"type":"WhitespaceSplit"},"post_processor":null,
    "decoder":null,"model":{"type":"WordLevel","vocab":{"a":0,"[UNK]":1},"unk_token":"[UNK]"}}"#;

fn value(text: &str) -> Value {
    serde_json::from_str(text).unwrap()
}

fn texts(v: &[&str]) -> Vec<String> {
    v.iter().map(|s| s.to_string()).collect()
}

fn config(vocab_size: usize) -> ModelConfig {
    ModelConfig {
        model_type: "qwen3".to_string(),
        hidden_size: 64,
        intermediate_size: 128,
        num_hidden_layers: 2,
        num_attention_heads: 4,
        num_key_value_heads: None,
        head_dim: None,
        vocab_size,
        bos_token_id: None,
        eos_token_id: Vec::new(),
        pad_token_id: None,
        rms_norm_eps: default_rms_eps(),
        rope_theta: default_rope_theta(),
        max_position_embeddings: default_max_pos(),
        tie_word_embeddings: true,
        quantization: None,
        quantization_alt: None,
        layer_types: Vec::new(),
        rope_parameters: None,
        global_head_dim: None,
        sliding_window: None,
        num_kv_shared_layers: None,
        hidden_size_per_layer_input: None,
        vocab_size_per_layer_input: None,
        final_logit_softcapping: None,
        use_double_wide_mlp: false,
        enable_moe_block: false,
        attention_k_eq_v: false,
        num_global_key_value_heads: None,
        attention_bias: false,
        embedding_multiplier: default_one(),
        attention_multiplier: default_one(),
        logits_scaling: default_one(),
        residual_multiplier: default_one(),
        shared_intermediate_size: None,
        num_local_experts: None,
        num_experts_per_tok: None,
        mamba_n_heads: None,
        mamba_d_head: None,
        mamba_d_state: None,
        mamba_d_conv: None,
        mamba_n_groups: None,
        mamba_conv_bias: false,
        mamba_proj_bias: false,
        position_embedding_type: default_position_embedding_type(),
    }
}

fn model(vocab_size: usize, weights: u32) -> LoadedModel<u32> {
    LoadedModel {
        cfg: config(vocab_size),
        tokenizer: Tokenizer::from_json(WORDS).unwrap(),
        model: weights,
    }
}

#[test]
fn a_model_is_loaded_once() {
    let loads = Cell::new(0u32);
    let load = |id: &str| {
        loads.set(loads.get() + 1);
        if id == "missing" {
            Err(Error::ModelLoad("missing".to_string()))
        } else {
            Ok(model(10, loads.get()))
        }
    };
    let mut state = AppInner::new();
    assert!(state.loaded_ids().is_empty());
    assert_eq!(with_loaded(&mut state, "a", &load, |m| m.model).unwrap(), 1);
    assert_eq!(with_loaded(&mut state, "a", &load, |m| m.model + 100).unwrap(), 101);
    assert_eq!(with_loaded(&mut state, "b", &load, |m| m.model).unwrap(), 2);
    assert_eq!(loads.get(), 2);
    assert_eq!(state.loaded_ids(), &texts(&["a", "b"]));
    let e = with_loaded(&mut state, "missing", &load, |m| m.model).unwrap_err();
    assert_eq!(e.message(), "model load: missing");
    assert_eq!(state.loaded_ids(), &texts(&["a", "b"]));
}

#[test]
fn a_target_and_a_draft_are_loaded_together() {
    let load = |id: &str| match id {
        "target" => Ok(model(10, 1)),
        "draft" => Ok(model(10, 2)),
        "other" => Ok(model(11, 3)),
        _ => Err(Error::ModelLoad("missing".to_string())),
    };
    let both = |a: &LoadedModel<u32>, b: &LoadedModel<u32>| (a.model, b.model);
    let mut state = AppInner::new();
    let r = with_target_and_draft(&mut state, "target", "draft", &load, both);
    assert_eq!(r.unwrap(), (1, 2));
    let e = with_target_and_draft(&mut state, "target", "other", &load, both).unwrap_err();
    assert_eq!(e.message(), "model load: draft/target vocab mismatch: target=10 draft=11");
    assert_eq!(state.loaded_ids().len(), 3);
    assert!(with_target_and_draft(&mut state, "x", "draft", &load, both).is_err());
    assert!(with_target_and_draft(&mut state, "target", "x", &load, both).is_err());
    assert_eq!(state.loaded_ids().len(), 3);
    let r = with_target_and_draft(&mut state, "draft", "draft", &load, both);
    assert_eq!(r.unwrap(), (2, 2));
}

#[test]
fn vocabularies_must_agree() {
    assert!(check_compatible(&model(10, 1), &model(10, 2)).is_ok());
    assert!(check_compatible(&model(10, 1), &model(9, 2)).is_err());
}

#[test]
fn only_greedy_decoding_is_speculative() {
    assert!(can_speculate(&SamplingParams::greedy()));
    assert!(!can_speculate(&SamplingParams::default()));
    let mut p = SamplingParams::greedy();
    p.temperature = F32 { bits: (-0.5f32).to_bits() };
    assert!(can_speculate(&p));
    p.temperature = F32 { bits: f32::NAN.to_bits() };
    assert!(can_speculate(&p));
}

#[test]
fn a_positive_temperature_leaves_the_draft_out() {
    let alone = |n: u32| ("alone", n);
    let both = |n: u32| ("both", n);
    assert_eq!(generate(&SamplingParams::greedy(), 3, alone, both), ("both", 3));
    assert_eq!(generate(&SamplingParams::default(), 4, alone, both), ("alone", 4));
}

#[test]
fn what_a_generation_comes_to() {
    let r = conclude("t".to_string(), Vec::new(), Finish::Length, 7, 3);
    assert_eq!((r.prompt_tokens, r.completion_tokens), (7, 3));
    assert_eq!((r.text.as_str(), r.finish_reason.as_str()), ("t", "length"));
    let r = conclude("t".to_string(), Vec::new(), Finish::Stop, 7, 3);
    assert_eq!(r.finish_reason, "stop");
    let r = conclude("t".to_string(), vec![Value::Null], Finish::Stop, 7, 3);
    assert_eq!(r.finish_reason, "tool_calls");
    assert_eq!(r.tool_calls, vec![Value::Null]);
}

fn local(path: &str, leaf: &str, parent: &str) -> LocalModel {
    LocalModel { path: path.to_string(), leaf: leaf.to_string(), parent: parent.to_string() }
}

#[test]
fn the_id_of_a_directory() {
    assert_eq!(id_of(&local("", "m", "owner")), "owner/m");
    assert_eq!(id_of(&local("", "m", "models")), "m");
    assert_eq!(id_of(&local("", "m", ".cache")), "m");
    assert_eq!(id_of(&local("", "m", "")), "m");
    assert_eq!(id_of(&local("", "m", "123")), "m");
    assert_eq!(id_of(&local("", "m", "12\u{e9}")), "12\u{e9}/m");
}

#[test]
fn models_on_disk_are_listed() {
    let qwen = "/lm/mlx-community/Qwen3-4B-Instruct-2507-4bit";
    let dirs = vec![
        local(qwen, "Qwen3-4B-Instruct-2507-4bit", "mlx-community"),
        local("/lm/mlx-community/Other", "Other", "mlx-community"),
        local("/lm/mlx-community/Other", "Other", "mlx-community"),
        local("/base/models/a--b", "a--b", "models"),
        local("/", "", ""),
    ];
    let found = vec![Some(qwen.to_string()), None, None];
    let loaded = texts(&["a--b", "qwen3-4b-instruct"]);
    assert_eq!(
        list_models(&loaded, &found, &dirs),
        value(
            r#"{"object":"list","loaded":"a--b","data":[
                {"id":"qwen3-4b-instruct","object":"model","owned_by":"base-mlx",
                 "name":"Qwen 3 4B Instruct","role":"chat","local":true,"loaded":true},
                {"id":"mlx-community/Other","object":"model","owned_by":"base-mlx",
                 "local":true,"loaded":false},
                {"id":"a--b","object":"model","owned_by":"base-mlx",
                 "local":true,"loaded":true}]}"#
        )
    );
}

#[test]
fn a_listed_id_leads_back_to_its_directory() {
    let cases = [
        (local("/h/x/owner/Repo", "Repo", "owner"), Root::LmStudio, vec!["owner", "Repo"]),
        (local("/h/models/a--b", "a--b", "models"), Root::Cache, vec!["a--b"]),
    ];
    for (dir, root, segments) in cases {
        let probe = |d: &ModelDir| d.root == root && d.segments == segments;
        let found = find_local(&resolve_repo(&id_of(&dir)), true, &probe).unwrap();
        assert_eq!(found.root, root);
        assert_eq!(found.segments, segments);
    }
}

#[test]
fn an_empty_disk_has_no_models() {
    assert_eq!(
        list_models(&Vec::new(), &vec![None, None, None], &Vec::new()),
        value(r#"{"object":"list","data":[],"loaded":null}"#)
    );
}

#[test]
fn memory_calls_succeed_with_status_zero() {
    assert_eq!(done(0), Ok(()));
    assert_eq!(done(3), Err(MemoryError(3)));
    assert_eq!(bytes_of(0, 42), Ok(42));
    assert_eq!(bytes_of(-1, 42), Err(MemoryError(-1)));
    assert_eq!(MemoryError(-1).message(), "mlx memory call failed (rc=-1)");
}

#[test]
fn memory_is_read_around_a_generation() {
    let step = Cell::new(0usize);
    let read = |factor: usize| {
        step.set(step.get() + 1);
        Ok(step.get() * factor * 1024 * 1024 + 7)
    };
    let run = || {
        step.set(step.get() + 1);
        step.get()
    };
    let (out, s) =
        instrumented(|| read(5), || Err(MemoryError(1)), run, || read(10), || read(100));
    assert_eq!(out, 2);
    assert_eq!((s.active_mb_before, s.active_mb_after), (5, 30));
    assert_eq!((s.cache_mb_before, s.cache_mb_after), (0, 400));
}

#[test]
fn a_snapshot_keeps_the_readings_apart() {
    let mb = |n: usize| Ok(n * 1024 * 1024);
    let s = snapshot_of(mb(1), mb(2), mb(3), mb(4));
    assert_eq!((s.active_mb_before, s.cache_mb_before), (1, 2));
    assert_eq!((s.active_mb_after, s.cache_mb_after), (3, 4));
    let s = snapshot_of(Err(MemoryError(1)), mb(2), mb(3), Err(MemoryError(2)));
    assert_eq!((s.active_mb_before, s.cache_mb_after), (0, 0));
}

#[test]
fn kernel_launches() {
    let l = ssm_launch(48, 64, 128);
    assert_eq!(l.out_shape, vec![48, 64]);
    assert_eq!(l.state_shape, vec![48, 64, 128]);
    assert_eq!(l.grid, (32, 64, 48));
    assert_eq!(l.group, (32, 8, 1));
    assert_eq!((l.first.name, l.first.value), ("Dh", 64));
    assert_eq!((l.second.name, l.second.value), ("Ds", 128));
    let l = conv_launch(3328, 4);
    assert_eq!(l.out_shape, vec![3328]);
    assert_eq!(l.state_shape, vec![1, 3, 3328]);
    assert_eq!(l.grid, (3328, 1, 1));
    assert_eq!(l.group, (256, 1, 1));
    assert_eq!((l.first.name, l.first.value), ("Dim", 3328));
    assert_eq!((l.second.name, l.second.value), ("K", 4));
}

#[test]
fn status_codes_become_messages() {
    assert_eq!(check_call("mlx_slice_update", 0), Ok(()));
    assert_eq!(
        check_call("mlx_slice_update", 2),
        Err("mlx_slice_update failed: rc=2".to_string())
    );
    assert_eq!(check_kernel("granite_ssm_update", 0, 2), Ok(()));
    assert_eq!(
        check_kernel("granite_ssm_update", -1, 2),
        Err("granite_ssm_update failed: rc=-1".to_string())
    );
    assert_eq!(
        check_kernel("granite_ssm_update", 0, 3),
        Err("granite_ssm_update returned 3 outputs, expected 2".to_string())
    );
}
