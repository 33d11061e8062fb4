use base_mlx::config::{
    config_value, default_max_pos, default_one, default_position_embedding_type, default_rms_eps,
    default_rope_theta, gemma4_text_config, parse_config, token_ids, ModelConfig, QuantConfig,
    TokenIds,
};
use serde_json::Value;

fn config() -> ModelConfig {
    ModelConfig {
        model_type: "qwen3".to_string(),
        hidden_size: 64,
        intermediate_size: 128,
        num_hidden_layers: 2,
        num_attention_heads: 4,
        num_key_value_heads: None,
        head_dim: None,
        vocab_size: 100,
        bos_token_id: None,
        eos_token_id: Vec::new(),
        pad_token_id: None,
        rms_norm_eps: default_rms_eps(),
        rope_theta: default_rope_theta(),
        max_position_embeddings: default_max_pos(),
        tie_word_embeddings: true,
        quantization: None,
        quantization_alt: None,
        layer_types: Vec::new(),
        rope_parameters: None,
        global_head_dim: None,
        sliding_window: None,
        num_kv_shared_layers: None,
        hidden_size_per_layer_input: None,
        vocab_size_per_layer_input: None,
        final_logit_softcapping: None,
        use_double_wide_mlp: false,
        enable_moe_block: false,
        attention_k_eq_v: false,
        num_global_key_value_heads: None,
        attention_bias: false,
        embedding_multiplier: default_one(),
        attention_multiplier: default_one(),
        logits_scaling: default_one(),
        residual_multiplier: default_one(),
        shared_intermediate_size: None,
        num_local_experts: None,
        num_experts_per_tok: None,
        mamba_n_heads: None,
        mamba_d_head: None,
        mamba_d_state: None,
        mamba_d_conv: None,
        mamba_n_groups: None,
        mamba_conv_bias: false,
        mamba_proj_bias: false,
        position_embedding_type: default_position_embedding_type(),
    }
}

fn value(text: &str) -> Value {
    serde_json::from_str(text).unwrap()
}

#[test]
fn defaults_of_a_configuration() {
    assert_eq!(default_rms_eps().bits, 1e-6f32.to_bits());
    assert_eq!(default_rope_theta().bits, 10_000.0f32.to_bits());
    assert_eq!(default_one().bits, 1.0f32.to_bits());
    assert_eq!(default_max_pos(), 4096);
    assert_eq!(default_position_embedding_type(), "rope");
}

#[test]
fn end_tokens_are_a_list_in_any_case() {
    assert_eq!(token_ids(Some(TokenIds::One(7))), vec![7]);
    assert_eq!(token_ids(Some(TokenIds::Many(vec![7, 8]))), vec![7, 8]);
    assert_eq!(token_ids(None), Vec::<u32>::new());
}

#[test]
fn sizes_are_checked() {
    assert!(config().validate().is_ok());
    let mut c = config();
    c.hidden_size = 0;
    assert_eq!(
        c.validate().unwrap_err().message(),
        "invalid config: hidden_size and num_attention_heads must be non-zero"
    );
    let mut c = config();
    c.num_attention_heads = 0;
    assert!(c.validate().is_err());
    let mut c = config();
    c.num_attention_heads = 5;
    assert_eq!(
        c.validate().unwrap_err().message(),
        "invalid config: hidden_size (64) not divisible by num_attention_heads (5) and no \
         explicit head_dim"
    );
    c.head_dim = Some(16);
    assert!(c.validate().is_ok());
}

#[test]
fn the_quantization_may_stand_under_either_name() {
    let four = QuantConfig { bits: 4, group_size: 64 };
    let eight = QuantConfig { bits: 8, group_size: 32 };
    let mut c = config();
    c.quantization_alt = Some(four);
    let done = c.clone().completed().unwrap();
    assert_eq!(done.quantization, Some(four));
    assert_eq!(done.quantization_alt, None);
    c.quantization = Some(eight);
    let done = c.completed().unwrap();
    assert_eq!(done.quantization, Some(eight));
    assert_eq!(done.quantization_alt, None);
    let mut c = config();
    c.hidden_size = 0;
    assert!(c.completed().is_err());
}

#[test]
fn derived_sizes() {
    let mut c = config();
    assert_eq!((c.kv_heads(), c.per_head_dim(), c.q_dim(), c.kv_dim()), (4, 16, 64, 64));
    c.num_key_value_heads = Some(2);
    c.head_dim = Some(32);
    assert_eq!((c.kv_heads(), c.per_head_dim(), c.q_dim(), c.kv_dim()), (2, 32, 128, 64));
}

#[test]
fn a_gemma_configuration_is_read_from_its_text_tower() {
    let root = value(
        r#"{"model_type":"gemma4","quantization":{"bits":4},"eos_token_id":[1,106],
            "vision_config":{"a":1},
            "text_config":{"model_type":"gemma4_text","hidden_size":8,"eos_token_id":1}}"#,
    );
    let expected = value(
        r#"{"model_type":"gemma4","hidden_size":8,"quantization":{"bits":4},
            "eos_token_id":[1,106]}"#,
    );
    assert_eq!(gemma4_text_config(&root), expected);
    assert_eq!(config_value(root.clone()), expected);
    assert_eq!(parse_config(&root.to_string()).unwrap(), expected);
}

#[test]
fn a_gemma_configuration_without_a_text_tower_is_almost_empty() {
    let root = value(r#"{"model_type":"gemma4","text_config":3,"quantization_config":{"bits":4}}"#);
    assert_eq!(
        config_value(root),
        value(r#"{"model_type":"gemma4","quantization_config":{"bits":4}}"#)
    );
}

#[test]
fn other_configurations_are_read_as_they_stand() {
    let text = r#"{"model_type":"qwen3","text_config":{"hidden_size":8},"hidden_size":16}"#;
    assert_eq!(parse_config(text).unwrap(), value(text));
    let text = r#"{"hidden_size":16}"#;
    assert_eq!(parse_config(text).unwrap(), value(text));
}

#[test]
fn a_configuration_that_is_no_json_is_rejected() {
    let text = "{\"hidden_size\":";
    let expected = serde_json::from_str::<Value>(text).unwrap_err().to_string();
    assert_eq!(
        parse_config(text).unwrap_err().message(),
        format!("serde: {expected}")
    );
}
