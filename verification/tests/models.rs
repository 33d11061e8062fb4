use base_mlx::attention::{check_sizes, shapes};
use base_mlx::cache::{
    buffer_shape, place_tokens, plan_write, token_ids, write_window, KvCache, Span, KV_PREALLOC,
};
use base_mlx::config::{
    default_max_pos, default_one, default_rms_eps, default_rope_theta, ModelConfig, QuantConfig,
};
use base_mlx::float_bits::F32;
use base_mlx::gemma;
use base_mlx::gemma::{layer_types, previous_kvs, rope_value, Gemma4, KvSource, LayerType};
use base_mlx::granite;
use base_mlx::granite::{Granite, LayerBlock, MambaSizes};
use base_mlx::granite_forward;
use base_mlx::graph::{Factor, Graph, MaskKind, Op, Part, RopeBase};
use base_mlx::masks::{attention_mask, causal_mask};
use base_mlx::model::{
    check_supported, tensor_prefix, Architecture, ArchitectureCache, Family, Forward,
};
use base_mlx::qwen3::Qwen3;
use base_mlx::tensors::{Tensor, TensorMap};
use base_mlx::weights::{infer_bits, Quantized};

/// A weight: its name and its shape.
#[derive(Debug, Clone, PartialEq)]
struct W {
    name: String,
    shape: Vec<i32>,
}

type Tensors = Vec<(String, Vec<i32>)>;

const GROUP: i32 = 32;

fn config(model_type: &str) -> ModelConfig {
    ModelConfig {
        model_type: model_type.to_string(),
        hidden_size: 64,
        intermediate_size: 128,
        num_hidden_layers: 3,
        num_attention_heads: 4,
        num_key_value_heads: Some(2),
        head_dim: Some(32),
        vocab_size: 100,
        bos_token_id: None,
        eos_token_id: Vec::new(),
        pad_token_id: None,
        rms_norm_eps: default_rms_eps(),
        rope_theta: default_rope_theta(),
        max_position_embeddings: default_max_pos(),
        tie_word_embeddings: true,
        quantization: Some(QuantConfig { bits: 4, group_size: GROUP as u32 }),
        quantization_alt: None,
        layer_types: Vec::new(),
        rope_parameters: None,
        global_head_dim: None,
        sliding_window: None,
        num_kv_shared_layers: None,
        hidden_size_per_layer_input: None,
        vocab_size_per_layer_input: None,
        final_logit_softcapping: None,
        use_double_wide_mlp: false,
        enable_moe_block: false,
        attention_k_eq_v: false,
        num_global_key_value_heads: None,
        attention_bias: false,
        embedding_multiplier: default_one(),
        attention_multiplier: default_one(),
        logits_scaling: default_one(),
        residual_multiplier: default_one(),
        shared_intermediate_size: None,
        num_local_experts: None,
        num_experts_per_tok: None,
        mamba_n_heads: None,
        mamba_d_head: None,
        mamba_d_state: None,
        mamba_d_conv: None,
        mamba_n_groups: None,
        mamba_conv_bias: false,
        mamba_proj_bias: false,
        position_embedding_type: "nope".to_string(),
    }
}

fn texts(v: &[&str]) -> Vec<String> {
    v.iter().map(|s| s.to_string()).collect()
}

fn one(t: &mut Tensors, name: &str, shape: &[i32]) {
    t.push((name.to_string(), shape.to_vec()));
}

/// The three tensors of a quantized matrix of `bits` bits.
fn matrix(t: &mut Tensors, name: &str, rows: i32, width: i32, bits: i32) {
    one(t, &format!("{name}.weight"), &[rows, width * bits / 32]);
    one(t, &format!("{name}.scales"), &[rows, width / GROUP]);
    one(t, &format!("{name}.biases"), &[rows, width / GROUP]);
}

fn experts(t: &mut Tensors, name: &str, count: i32, rows: i32, width: i32, bits: i32) {
    one(t, &format!("{name}.weight"), &[count, rows, width * bits / 32]);
    one(t, &format!("{name}.scales"), &[count, rows, width / GROUP]);
    one(t, &format!("{name}.biases"), &[count, rows, width / GROUP]);
}

fn tensor_map(t: &Tensors) -> TensorMap<W> {
    let mut m = TensorMap::new();
    for (name, shape) in t {
        let data = W { name: name.clone(), shape: shape.clone() };
        m.insert(name.clone(), Tensor { shape: shape.clone(), data });
    }
    m
}

fn without(t: &Tensors, name: &str) -> Tensors {
    assert!(t.iter().any(|x| x.0 == name), "{name}");
    t.iter().filter(|x| x.0 != name).cloned().collect()
}

fn qwen3_tensors(cfg: &ModelConfig) -> Tensors {
    let (h, inner, vocab) = (64, 128, 100);
    let mut t = Vec::new();
    matrix(&mut t, "model.embed_tokens", vocab, h, 4);
    for i in 0..cfg.num_hidden_layers {
        let p = format!("model.layers.{i}");
        one(&mut t, &format!("{p}.input_layernorm.weight"), &[h]);
        matrix(&mut t, &format!("{p}.self_attn.q_proj"), 4 * 32, h, 4);
        matrix(&mut t, &format!("{p}.self_attn.k_proj"), 2 * 32, h, 4);
        matrix(&mut t, &format!("{p}.self_attn.v_proj"), 2 * 32, h, 4);
        one(&mut t, &format!("{p}.self_attn.q_norm.weight"), &[32]);
        one(&mut t, &format!("{p}.self_attn.k_norm.weight"), &[32]);
        matrix(&mut t, &format!("{p}.self_attn.o_proj"), h, 4 * 32, 4);
        one(&mut t, &format!("{p}.post_attention_layernorm.weight"), &[h]);
        matrix(&mut t, &format!("{p}.mlp.gate_proj"), inner, h, 4);
        matrix(&mut t, &format!("{p}.mlp.up_proj"), inner, h, 4);
        matrix(&mut t, &format!("{p}.mlp.down_proj"), h, inner, 4);
    }
    one(&mut t, "model.norm.weight", &[h]);
    if !cfg.tie_word_embeddings {
        matrix(&mut t, "lm_head", vocab, h, 4);
    }
    t
}

fn qwen3(cfg: ModelConfig) -> Qwen3<W> {
    let tensors = tensor_map(&qwen3_tensors(&cfg));
    Qwen3::load(tensors, cfg).unwrap()
}

fn gemma_config() -> ModelConfig {
    let mut c = config("gemma4");
    c.num_hidden_layers = 5;
    c.layer_types = texts(&[
        "sliding_attention",
        "full_attention",
        "sliding_attention",
        "full_attention",
        "sliding_attention",
    ]);
    c.num_kv_shared_layers = Some(2);
    c.global_head_dim = Some(64);
    c.sliding_window = Some(4);
    c.hidden_size_per_layer_input = Some(32);
    c.final_logit_softcapping = Some(F32 { bits: 30.0f32.to_bits() });
    c
}

fn gemma_tensors(cfg: &ModelConfig) -> Tensors {
    let (h, inner, vocab, own) = (64, 128, 100, 32);
    let n = cfg.num_hidden_layers as i32;
    let first_shared = cfg.num_hidden_layers - cfg.num_kv_shared_layers.unwrap();
    let mut t = Vec::new();
    let p = "language_model.model";
    matrix(&mut t, &format!("{p}.embed_tokens"), vocab, h, 4);
    matrix(&mut t, &format!("{p}.embed_tokens_per_layer"), vocab, n * own, 8);
    matrix(&mut t, &format!("{p}.per_layer_model_projection"), n * own, h, 4);
    one(&mut t, &format!("{p}.per_layer_projection_norm.weight"), &[own]);
    for (i, kind) in cfg.layer_types.iter().enumerate() {
        let dim = if kind == "full_attention" { 64 } else { 32 };
        let p = format!("{p}.layers.{i}");
        one(&mut t, &format!("{p}.input_layernorm.weight"), &[h]);
        matrix(&mut t, &format!("{p}.self_attn.q_proj"), 4 * dim, h, 4);
        if i < first_shared {
            matrix(&mut t, &format!("{p}.self_attn.k_proj"), 2 * dim, h, 4);
            matrix(&mut t, &format!("{p}.self_attn.v_proj"), 2 * dim, h, 4);
            one(&mut t, &format!("{p}.self_attn.k_norm.weight"), &[dim]);
        }
        one(&mut t, &format!("{p}.self_attn.q_norm.weight"), &[dim]);
        matrix(&mut t, &format!("{p}.self_attn.o_proj"), h, 4 * dim, 4);
        one(&mut t, &format!("{p}.post_attention_layernorm.weight"), &[h]);
        one(&mut t, &format!("{p}.pre_feedforward_layernorm.weight"), &[h]);
        one(&mut t, &format!("{p}.post_feedforward_layernorm.weight"), &[h]);
        matrix(&mut t, &format!("{p}.mlp.gate_proj"), inner, h, 4);
        matrix(&mut t, &format!("{p}.mlp.up_proj"), inner, h, 4);
        matrix(&mut t, &format!("{p}.mlp.down_proj"), h, inner, 4);
        matrix(&mut t, &format!("{p}.per_layer_input_gate"), own, h, 4);
        matrix(&mut t, &format!("{p}.per_layer_projection"), h, own, 4);
        one(&mut t, &format!("{p}.post_per_layer_input_norm.weight"), &[h]);
        one(&mut t, &format!("{p}.layer_scalar"), &[1]);
    }
    one(&mut t, &format!("{p}.norm.weight"), &[h]);
    t
}

fn gemma4() -> Gemma4<W> {
    let cfg = gemma_config();
    Gemma4::load(tensor_map(&gemma_tensors(&cfg)), cfg).unwrap()
}

fn granite_config() -> ModelConfig {
    let mut c = config("granitemoehybrid");
    c.num_hidden_layers = 2;
    c.layer_types = texts(&["mamba", "attention"]);
    c.shared_intermediate_size = Some(96);
    c.num_local_experts = Some(8);
    c.num_experts_per_tok = Some(3);
    c.mamba_n_heads = Some(4);
    c.mamba_d_head = Some(16);
    c.mamba_d_state = Some(32);
    c.mamba_d_conv = Some(4);
    c.mamba_conv_bias = true;
    c
}

fn granite_tensors(cfg: &ModelConfig) -> Tensors {
    let (h, inner, shared, vocab, count) = (64, 128, 96, 100, 8);
    let (heads, dim, state, kernel) = (4, 16, 32, 4);
    let conv = heads * dim + 2 * state;
    let mut t = Vec::new();
    matrix(&mut t, "model.embed_tokens", vocab, h, 4);
    for (i, kind) in cfg.layer_types.iter().enumerate() {
        let p = format!("model.layers.{i}");
        if kind == "mamba" {
            matrix(&mut t, &format!("{p}.mamba.in_proj"), heads * dim + conv + heads, h, 4);
            one(&mut t, &format!("{p}.mamba.conv1d.weight"), &[conv, kernel, 1]);
            if cfg.mamba_conv_bias {
                one(&mut t, &format!("{p}.mamba.conv1d.bias"), &[conv]);
            }
            one(&mut t, &format!("{p}.mamba.norm.weight"), &[heads * dim]);
            matrix(&mut t, &format!("{p}.mamba.out_proj"), h, heads * dim, 4);
            one(&mut t, &format!("{p}.mamba.dt_bias"), &[heads]);
            one(&mut t, &format!("{p}.mamba.A_log"), &[heads]);
            one(&mut t, &format!("{p}.mamba.D"), &[heads]);
        } else {
            matrix(&mut t, &format!("{p}.self_attn.q_proj"), 4 * 32, h, 4);
            matrix(&mut t, &format!("{p}.self_attn.k_proj"), 2 * 32, h, 4);
            matrix(&mut t, &format!("{p}.self_attn.v_proj"), 2 * 32, h, 4);
            matrix(&mut t, &format!("{p}.self_attn.o_proj"), h, 4 * 32, 4);
        }
        one(&mut t, &format!("{p}.input_layernorm.weight"), &[h]);
        one(&mut t, &format!("{p}.post_attention_layernorm.weight"), &[h]);
        matrix(&mut t, &format!("{p}.shared_mlp.input_linear"), 2 * shared, h, 4);
        matrix(&mut t, &format!("{p}.shared_mlp.output_linear"), h, shared, 4);
        matrix(&mut t, &format!("{p}.block_sparse_moe.router.layer"), count, h, 8);
        let e = format!("{p}.block_sparse_moe.switch_mlp");
        experts(&mut t, &format!("{e}.gate_proj"), count, inner, h, 4);
        experts(&mut t, &format!("{e}.up_proj"), count, inner, h, 4);
        experts(&mut t, &format!("{e}.down_proj"), count, h, inner, 4);
    }
    one(&mut t, "model.norm.weight", &[h]);
    t
}

fn granite_model(cfg: ModelConfig) -> Granite<W> {
    Granite::load(tensor_map(&granite_tensors(&cfg)), cfg).unwrap()
}

// Shapes.

fn product(s: &[i32]) -> i32 {
    s.iter().product()
}

/// The shape that a product with a quantized matrix gives.
fn linear(x: &[i32], w: &Quantized<W>) -> Vec<i32> {
    let width = *x.last().unwrap();
    assert_eq!(w.scales.shape[1] * w.group_size, width);
    assert_eq!(w.weight.shape[1] * 32, width * w.bits);
    assert_eq!(w.weight.shape[0], w.scales.shape[0]);
    let mut out = x.to_vec();
    *out.last_mut().unwrap() = w.weight.shape[0];
    out
}

fn expert_linear(x: &[i32], w: &Quantized<W>, indices: &[i32]) -> i32 {
    assert_eq!((x.len(), indices.len()), (4, 2));
    assert_eq!((x[0], x[2]), (indices[0], 1));
    assert!(x[1] == 1 || x[1] == indices[1]);
    assert_eq!(w.scales.shape[2] * w.group_size, x[3]);
    assert_eq!(w.weight.shape[2] * 32, x[3] * w.bits);
    w.weight.shape[1]
}

/// The shape that every step gives; panics where a step is given arrays that it
/// cannot take. `mask` is the shape of the masks.
fn run_shapes(g: &Graph<W>, mask: &[i32]) -> Vec<Vec<i32>> {
    let mut s: Vec<Vec<i32>> = Vec::new();
    for op in &g.ops {
        let shape = match op {
            Op::Tokens(ids) => vec![ids.len() as i32],
            Op::Lookup { table, tokens } => {
                vec![s[*tokens][0], table.scales.shape[1] * table.group_size]
            }
            Op::Linear { x, w } => linear(&s[*x], w),
            Op::Norm { x, norm } => {
                assert_eq!(norm.weight.shape, vec![*s[*x].last().unwrap()]);
                s[*x].clone()
            }
            Op::PlainNorm { x, .. }
            | Op::Scale { x, .. }
            | Op::Silu { x }
            | Op::Gelu { x }
            | Op::Softcap { x, .. }
            | Op::Softmax { x } => s[*x].clone(),
            Op::ScaleBy { x, by } => {
                assert_eq!(product(&by.shape), 1);
                s[*x].clone()
            }
            Op::Reshape { x, shape } => {
                assert_eq!(product(&s[*x]), product(shape));
                shape.clone()
            }
            Op::SwapFirst { x } => vec![s[*x][1], s[*x][0], s[*x][2]],
            Op::SwapMiddle { x } => vec![s[*x][0], s[*x][2], s[*x][1], s[*x][3]],
            Op::Batch { x } => {
                let mut v = vec![1];
                v.extend(&s[*x]);
                v
            }
            Op::Rope { x, dims, .. } => {
                assert_eq!(s[*x].last(), Some(dims));
                s[*x].clone()
            }
            Op::Repeat { x, times } => {
                let mut v = s[*x].clone();
                v[0] *= times;
                v
            }
            Op::Keep { x, kv_heads, head_dim, span, .. } => {
                assert_eq!(s[*x], vec![*kv_heads, span.seq_len, *head_dim]);
                vec![*kv_heads, span.new_end, *head_dim]
            }
            Op::Attend { q, k, v, mask: kind, .. } => {
                let (a, b) = (&s[*q], &s[*k]);
                assert_eq!(b, &s[*v]);
                assert_eq!((a[0], a[3]), (b[0], b[3]));
                assert_eq!(a[1] % b[1], 0);
                if *kind != MaskKind::Absent {
                    assert_eq!(mask, [a[2], b[2]]);
                }
                a.clone()
            }
            Op::Add { a, b } | Op::Multiply { a, b } => {
                assert_eq!(s[*a], s[*b]);
                s[*a].clone()
            }
            Op::Row { x, row } => {
                assert!(s[*x].len() == 2 && *row < s[*x][0]);
                vec![s[*x][1]]
            }
            Op::Slot { x, index } => {
                assert!(s[*x].len() == 3 && *index < s[*x][1]);
                vec![s[*x][0], s[*x][2]]
            }
            Op::Piece { x, at, which } => {
                let mut v = s[*x].clone();
                let last = *v.last().unwrap();
                let lo = if *which == 0 { 0 } else { at[*which - 1] };
                let hi = if *which < at.len() { at[*which] } else { last };
                assert!(0 <= lo && lo <= hi && hi <= last);
                *v.last_mut().unwrap() = hi - lo;
                v
            }
            Op::TopIndices { x, from } => vec![s[*x][0], s[*x][1] - from],
            Op::TakeAlong { indices, .. } => s[*indices].clone(),
            Op::Spread { x } => vec![s[*x][0], 1, 1, s[*x][1]],
            Op::Experts { x, w, indices } => {
                let rows = expert_linear(&s[*x], w, &s[*indices]);
                vec![s[*indices][0], s[*indices][1], 1, rows]
            }
            Op::ExpertPair { x, first, second, indices, .. } => {
                let a = expert_linear(&s[*x], first, &s[*indices]);
                let b = expert_linear(&s[*x], second, &s[*indices]);
                vec![s[*indices][0], s[*indices][1], 1, a + b]
            }
            Op::DropAxis { x } => {
                assert_eq!(s[*x][2], 1);
                vec![s[*x][0], s[*x][1], s[*x][3]]
            }
            Op::LastAxis { x } => {
                let mut v = s[*x].clone();
                v.push(1);
                v
            }
            Op::Weigh { x, by } => {
                assert_eq!(s[*x][..2], s[*by][..2]);
                assert_eq!(s[*by][2], 1);
                s[*x].clone()
            }
            Op::SumRows { x } => vec![s[*x][0], s[*x][2]],
            Op::Timestep { x, bias } => {
                assert_eq!(bias.shape, vec![*s[*x].last().unwrap()]);
                s[*x].clone()
            }
            Op::ConvFused { x, mixer, .. } => {
                assert!(mixer.conv_bias.is_some());
                assert_eq!(s[*x], vec![mixer.sizes.conv_dim]);
                s[*x].clone()
            }
            Op::ConvPlain { x, mixer, .. } => {
                assert!(mixer.conv_bias.is_none());
                assert_eq!(s[*x], vec![1, 1, mixer.sizes.conv_dim]);
                vec![1, mixer.sizes.conv_dim]
            }
            Op::SsmUpdate { hidden, b, c, dt, mixer, .. } => {
                let z = &mixer.sizes;
                assert_eq!(s[*hidden], vec![z.num_heads, z.head_dim]);
                assert_eq!((&s[*b], &s[*c]), (&vec![z.state_size], &vec![z.state_size]));
                assert_eq!(s[*dt], vec![z.num_heads]);
                s[*hidden].clone()
            }
        };
        s.push(shape);
    }
    s
}

fn count(g: &Graph<W>, wanted: impl Fn(&Op<W>) -> bool) -> usize {
    g.ops.iter().filter(|op| wanted(op)).count()
}

// Building blocks.

#[test]
fn tensors_are_kept_by_name() {
    let tensor = |data: u32| Tensor { shape: vec![1], data };
    let mut m = TensorMap::new();
    assert_eq!(m.len(), 0);
    m.insert("a".to_string(), tensor(1));
    m.insert("b".to_string(), tensor(2));
    m.insert("a".to_string(), tensor(3));
    assert_eq!(m.len(), 2);
    let mut names = m.some_names(5);
    names.sort();
    assert_eq!(names, texts(&["a", "b"]));
    assert_eq!(m.some_names(1).len(), 1);
    assert_eq!(m.remove("a").unwrap().data, 3);
    assert!(m.remove("a").is_none());
    assert_eq!(m.len(), 1);
}

#[test]
fn bits_are_inferred_from_shapes() {
    for bits in [2, 3, 4, 6, 8] {
        assert_eq!(infer_bits(&vec![7, 64 * bits / 32], &vec![7, 2], 4, 32), bits);
    }
    assert_eq!(infer_bits(&vec![7, 10], &vec![7, 2], 4, 32), 4);
    assert_eq!(infer_bits(&vec![7, 9], &vec![7, 2], 8, 32), 8);
    assert_eq!(infer_bits(&vec![], &vec![7, 2], 8, 32), 8);
    assert_eq!(infer_bits(&vec![7, 8], &vec![], 6, 32), 6);
    assert_eq!(infer_bits(&vec![7, 8], &vec![7, 0], 6, 32), 6);
    assert_eq!(infer_bits(&vec![7, 8], &vec![7, 2], 6, 0), 6);
    assert_eq!(infer_bits(&vec![i32::MAX], &vec![i32::MAX], 6, i32::MAX), 6);
}

#[test]
fn masks_show_what_came_before() {
    assert_eq!(
        causal_mask(3),
        vec![vec![true, false, false], vec![true, true, false], vec![true, true, true]]
    );
    assert_eq!(attention_mask(1, 7, None), None);
    assert_eq!(
        attention_mask(2, 2, None).unwrap(),
        vec![vec![true, true, true, false], vec![true, true, true, true]]
    );
}

#[test]
fn a_sliding_window_hides_what_is_far_back() {
    assert_eq!(attention_mask(1, 3, Some(4)), None);
    assert_eq!(
        attention_mask(1, 4, Some(4)).unwrap(),
        vec![vec![false, true, true, true, true]]
    );
    assert_eq!(
        attention_mask(3, 0, Some(2)).unwrap(),
        vec![vec![true, false, false], vec![true, true, false], vec![false, true, true]]
    );
    let wide = attention_mask(4, 3, Some(100)).unwrap();
    assert_eq!(wide, attention_mask(4, 3, None).unwrap());
    for (q, row) in attention_mask(5, 6, Some(1)).unwrap().iter().enumerate() {
        assert!(row[6 + q]);
        assert_eq!(row.iter().filter(|x| **x).count(), 1);
    }
}

#[test]
fn the_shapes_of_attention() {
    let s = shapes(5, 8, 2, 16);
    assert_eq!((s.q, s.kv, s.out), ([5, 8, 16], [5, 2, 16], [5, 128]));
    assert_eq!(product(&s.q), product(&s.out));
    assert!(check_sizes(&config("qwen3")));
    let mut c = config("qwen3");
    c.num_key_value_heads = Some(0);
    assert!(!check_sizes(&c));
    c.num_key_value_heads = Some(2);
    c.head_dim = Some(1 << 30);
    assert!(!check_sizes(&c));
    c.num_attention_heads = 0;
    assert!(!check_sizes(&c));
}

/// A stretch of `count` tokens behind `cached` others.
fn span(cached: i32, count: i32) -> Span {
    Span { seq_len: count, offset: cached, new_end: cached + count }
}

#[test]
fn a_cache_is_rewound_and_reset() {
    let mut c: KvCache<Vec<i32>> = KvCache::new();
    c.ensure_layers(2);
    assert_eq!((c.k.len(), c.v.len()), (2, 2));
    c.ensure_layers(1);
    assert_eq!(c.k.len(), 2);
    c.store(1, vec![1, 2, 3], vec![4, 5, 6]);
    c.advance(span(0, 2));
    c.advance(span(2, 1));
    assert_eq!(c.seq_len, 3);
    c.truncate(4);
    assert_eq!(c.seq_len, 3);
    c.truncate(2);
    assert_eq!(c.k, vec![None, Some(vec![1, 2, 3])]);
    assert_eq!(c.v, vec![None, Some(vec![4, 5, 6])]);
    assert_eq!(c.seq_len, 2);
    c.reset();
    assert_eq!((c.k.len(), c.v.len(), c.seq_len), (0, 0, 0));
}

#[test]
fn tokens_are_placed_behind_the_cache() {
    assert_eq!(
        place_tokens(3, 5).unwrap(),
        Span { seq_len: 3, offset: 5, new_end: 8 }
    );
    assert!(place_tokens(1, 4095).is_ok());
    assert_eq!(
        place_tokens(2, 4095).unwrap_err().message(),
        "inference: KV cache exhausted: requested 4097 positions, max 4096"
    );
    assert_eq!(token_ids(&[0, 7, 151645]), vec![0, 7, 151645]);
}

#[test]
fn keys_and_values_are_written_behind_those_that_are_there() {
    let span = Span { seq_len: 3, offset: 5, new_end: 8 };
    let w = plan_write(true, 2, 16, span);
    assert_eq!(w.fresh, None);
    assert_eq!(w.window.start, [0, 5, 0]);
    assert_eq!(w.window.stop, [2, 8, 16]);
    assert_eq!(w.window.strides, [1, 1, 1]);
    assert_eq!(w.read_end, 8);
    let span = Span { seq_len: 3, offset: 0, new_end: 3 };
    let w = plan_write(false, 2, 16, span);
    assert_eq!(w.fresh, Some([2, KV_PREALLOC, 16]));
    assert_eq!(w.fresh, Some(buffer_shape(2, 16)));
    assert_eq!((w.window.start, w.window.stop), ([0, 0, 0], [2, 3, 16]));
    assert_eq!(write_window(false, 2, 16, span).stop, w.window.stop);
    for axis in 0..3 {
        assert!(w.window.stop[axis] <= buffer_shape(2, 16)[axis]);
    }
}

// Qwen3.

#[test]
fn a_qwen3_checkpoint_is_loaded() {
    let m = qwen3(config("qwen3"));
    assert_eq!(m.layers.len(), 3);
    assert_eq!(m.embed.weight.name, "model.embed_tokens.weight");
    assert_eq!(m.embed.biases.name, "model.embed_tokens.biases");
    assert_eq!((m.embed.bits, m.embed.group_size), (4, 32));
    let l = &m.layers[2];
    assert_eq!(l.input_norm.weight.name, "model.layers.2.input_layernorm.weight");
    assert_eq!(l.input_norm.eps, default_rms_eps());
    assert_eq!(l.q_proj.scales.name, "model.layers.2.self_attn.q_proj.scales");
    assert_eq!(l.post_attn_norm.weight.name, "model.layers.2.post_attention_layernorm.weight");
    assert_eq!(l.down_proj.weight.name, "model.layers.2.mlp.down_proj.weight");
    assert!(m.lm_head.is_none());
    let mut c = config("qwen3");
    c.tie_word_embeddings = false;
    assert_eq!(qwen3(c).lm_head.unwrap().weight.name, "lm_head.weight");
}

#[test]
fn a_checkpoint_has_the_expected_tensors() {
    let mut c = config("qwen3");
    assert_eq!(Qwen3::<W>::expected_tensor_count(&c), 3 * 25 + 4);
    assert_eq!(qwen3_tensors(&c).len(), Qwen3::<W>::expected_tensor_count(&c));
    c.tie_word_embeddings = false;
    assert_eq!(Qwen3::<W>::expected_tensor_count(&c), 3 * 25 + 7);
    assert_eq!(qwen3_tensors(&c).len(), Qwen3::<W>::expected_tensor_count(&c));
    c.quantization = None;
    assert_eq!(Qwen3::<W>::expected_tensor_count(&c), 3 * 25 + 3);
    c.tie_word_embeddings = true;
    assert_eq!(Qwen3::<W>::expected_tensor_count(&c), 3 * 25 + 2);
}

#[test]
fn a_missing_tensor_is_named() {
    let c = config("qwen3");
    for name in [
        "model.embed_tokens.biases",
        "model.layers.1.self_attn.k_norm.weight",
        "model.layers.2.mlp.up_proj.scales",
        "model.norm.weight",
    ] {
        let t = tensor_map(&without(&qwen3_tensors(&c), name));
        assert_eq!(
            Qwen3::load(t, c.clone()).unwrap_err().message(),
            format!("model load: missing tensor: {name}")
        );
    }
}

#[test]
fn tensors_left_over_are_reported() {
    let c = config("qwen3");
    let mut t = qwen3_tensors(&c);
    one(&mut t, "extra", &[1]);
    assert_eq!(
        Qwen3::load(tensor_map(&t), c.clone()).unwrap_err().message(),
        format!("model load: 1 unmapped tensors remain (first 5: {:?})", ["extra"])
    );
    for i in 0..6 {
        one(&mut t, &format!("extra{i}"), &[1]);
    }
    let m = Qwen3::load(tensor_map(&t), c).unwrap_err().message();
    assert!(m.starts_with("model load: 7 unmapped tensors remain (first 5: [\"extra"), "{m}");
    assert_eq!(m.matches("extra").count(), 5);
}

#[test]
fn only_quantized_models_are_loaded() {
    let mut c = config("qwen3");
    let t = qwen3_tensors(&c);
    c.quantization = None;
    assert_eq!(
        Qwen3::load(tensor_map(&t), c).unwrap_err().message(),
        "model load: only quantized models supported in v1"
    );
}

#[test]
fn a_qwen3_prefill_is_planned() {
    let m = qwen3(config("qwen3"));
    let p = m.plan_prefill(&[9, 8, 7]);
    assert_eq!((p.seq_len, p.offset, p.last_row), (3, 0, 2));
    assert_eq!(p.token_ids, vec![9, 8, 7]);
    assert_eq!((p.head_dim, p.kv_heads, p.repeats), (32, 2, 2));
    assert_eq!(p.mask.unwrap(), causal_mask(3));
    assert!(m.plan_prefill(&[9]).mask.is_some());
}

#[test]
fn a_qwen3_pass_behind_a_cache_is_planned() {
    let m = qwen3(config("qwen3"));
    let (span, p) = m.plan_forward(&[5], 10).unwrap();
    assert_eq!(span, Span { seq_len: 1, offset: 10, new_end: 11 });
    assert!(p.mask.is_none());
    let (_, p) = m.plan_forward(&[5, 6], 10).unwrap();
    assert_eq!(p.mask, attention_mask(2, 10, None));
    assert_eq!(
        m.plan_forward(&[5, 6], 4095).unwrap_err().message(),
        "inference: KV cache exhausted: requested 4097 positions, max 4096"
    );
}

#[test]
fn the_steps_of_a_qwen3_pass_fit() {
    let m = qwen3(config("qwen3"));
    for (tokens, cached) in [(vec![1u32, 2, 3], 0usize), (vec![1], 9), (vec![1, 2], 9)] {
        let n = tokens.len() as i32;
        let (span, plan) = m.plan_forward(&tokens, cached).unwrap();
        let mask = [n, n + cached as i32];
        let (g, out) = m.forward(&plan, Some(span));
        assert_eq!(run_shapes(&g, &mask)[out], vec![100]);
        let (g, out) = m.forward_multi(&plan, Some(span));
        assert_eq!(run_shapes(&g, &mask)[out], vec![n, 100]);
        assert_eq!(count(&g, |op| matches!(op, Op::Keep { .. })), 6);
        assert_eq!(count(&g, |op| matches!(op, Op::Attend { .. })), 3);
    }
}

#[test]
fn a_qwen3_pass_without_a_cache_keeps_nothing() {
    let m = qwen3(config("qwen3"));
    let plan = m.plan_prefill(&[1, 2, 3]);
    let (g, out) = m.forward(&plan, None);
    assert_eq!(run_shapes(&g, &[3, 3])[out], vec![100]);
    assert_eq!(count(&g, |op| matches!(op, Op::Keep { .. })), 0);
    assert_eq!(
        count(&g, |op| matches!(op, Op::Attend { scale: Factor::InverseSqrt(32),
            mask: MaskKind::Causal, .. })),
        3
    );
    assert_eq!(
        count(&g, |op| matches!(op, Op::Rope { dims: 32, base: RopeBase::Config, offset: 0, .. })),
        6
    );
    assert!(matches!(&g.ops[out], Op::Row { row: 2, .. }));
}

#[test]
fn the_steps_of_a_qwen3_layer_come_in_order() {
    let mut c = config("qwen3");
    c.num_hidden_layers = 1;
    let m = qwen3(c);
    let (span, plan) = m.plan_forward(&[1, 2], 4).unwrap();
    let (g, out) = m.forward(&plan, Some(span));
    let norms: Vec<&str> = g
        .ops
        .iter()
        .filter_map(|op| match op {
            Op::Norm { norm, .. } => Some(norm.weight.name.as_str()),
            Op::Linear { w, .. } => Some(w.weight.name.as_str()),
            _ => None,
        })
        .collect();
    let p = "model.layers.0";
    let expected: Vec<String> = [
        "input_layernorm.weight",
        "self_attn.q_proj.weight",
        "self_attn.q_norm.weight",
        "self_attn.k_proj.weight",
        "self_attn.k_norm.weight",
        "self_attn.v_proj.weight",
        "self_attn.o_proj.weight",
        "post_attention_layernorm.weight",
        "mlp.gate_proj.weight",
        "mlp.up_proj.weight",
        "mlp.down_proj.weight",
    ]
    .iter()
    .map(|s| format!("{p}.{s}"))
    .chain(texts(&["model.norm.weight", "model.embed_tokens.weight"]))
    .collect();
    assert_eq!(norms, expected);
    assert_eq!(out, g.ops.len() - 1);
    assert!(g.ops.iter().any(|op| matches!(op, Op::Keep { layer: 0, part: Part::Values,
        kv_heads: 2, head_dim: 32, span, .. } if span.offset == 4 && span.new_end == 6)));
}

// Gemma 4.

#[test]
fn gemma_layer_types_are_read() {
    assert_eq!(LayerType::from_str("sliding_attention").unwrap(), LayerType::Sliding);
    assert_eq!(LayerType::from_str("full_attention").unwrap(), LayerType::Full);
    assert_eq!(
        LayerType::from_str("x").unwrap_err().message(),
        "invalid config: unsupported Gemma4 layer type: x"
    );
    let mut c = gemma_config();
    assert_eq!(layer_types(&c).unwrap().len(), 5);
    c.layer_types[3] = "y".to_string();
    c.layer_types[4] = "z".to_string();
    assert_eq!(
        layer_types(&c).unwrap_err().message(),
        "invalid config: unsupported Gemma4 layer type: y"
    );
    c.layer_types.pop();
    assert_eq!(
        layer_types(&c).unwrap_err().message(),
        "invalid config: Gemma4 expected 5 layer_types, got 4"
    );
}

#[test]
fn shared_layers_use_the_nearest_layer_of_their_type() {
    let (s, f) = (LayerType::Sliding, LayerType::Full);
    assert_eq!(previous_kvs(&vec![s, s, f, s, f, s], 3).unwrap(), vec![0, 1, 2, 1, 2, 1]);
    assert_eq!(previous_kvs(&vec![s, f], 2).unwrap(), vec![0, 1]);
    assert_eq!(previous_kvs(&vec![s, f], 9).unwrap(), vec![0, 1]);
    assert_eq!(
        previous_kvs(&vec![s, f], 1).unwrap_err().message(),
        "invalid config: Gemma4 shared layer lacks prior kv"
    );
    assert!(previous_kvs(&vec![s], 0).is_err());
    assert_eq!(previous_kvs(&Vec::new(), 0).unwrap(), Vec::<usize>::new());
}

#[test]
fn unsupported_gemma_configurations() {
    let c = gemma_config();
    assert!(gemma::check_supported(&c).is_ok());
    let mut x = c.clone();
    x.enable_moe_block = true;
    assert_eq!(
        gemma::check_supported(&x).unwrap_err().message(),
        "model load: Gemma4 MoE/A4B checkpoints are not supported yet; use dense E2B/E4B Gemma4 \
         or LM Studio for this model"
    );
    let mut x = c.clone();
    x.attention_k_eq_v = true;
    assert_eq!(
        gemma::check_supported(&x).unwrap_err().message(),
        "model load: Gemma4 K-eq-V attention is not supported yet"
    );
    for width in [None, Some(0)] {
        let mut x = c.clone();
        x.hidden_size_per_layer_input = width;
        assert_eq!(
            gemma::check_supported(&x).unwrap_err().message(),
            "model load: Gemma4 checkpoint has no per-layer input embeddings; this loader \
             currently supports dense E2B/E4B only"
        );
    }
    let t = gemma_tensors(&c);
    let mut x = c.clone();
    x.quantization = None;
    assert_eq!(
        Gemma4::load(tensor_map(&t), x).unwrap_err().message(),
        "model load: only quantized Gemma4 models supported"
    );
}

#[test]
fn a_gemma_checkpoint_is_loaded() {
    let m = gemma4();
    assert_eq!((m.hidden_per_layer, m.full_head_dim, m.sliding_window), (32, 64, 4));
    assert_eq!(m.embed_per_layer.bits, 8);
    assert_eq!(m.embed.bits, 4);
    let dims: Vec<i32> = m.layers.iter().map(|l| l.head_dim).collect();
    assert_eq!(dims, vec![32, 64, 32, 64, 32]);
    let donors: Vec<(bool, usize)> = m.layers.iter().map(|l| (l.has_kv, l.previous_kv)).collect();
    assert_eq!(donors, vec![(true, 0), (true, 1), (true, 2), (false, 1), (false, 2)]);
    assert!(m.layers[3].k_proj.is_none() && m.layers[3].k_norm.is_none());
    assert_eq!(m.layers[4].layer_scalar.name, "language_model.model.layers.4.layer_scalar");
    assert!(matches!(m.layers[0].kv_source(0).unwrap(), KvSource::Own { .. }));
    assert!(matches!(m.layers[4].kv_source(4).unwrap(), KvSource::Shared(2)));
}

#[test]
fn a_gemma_layer_without_keys_and_values_is_an_error() {
    let mut m = gemma4();
    assert_eq!(
        m.layers[4].kv_source(1).unwrap_err().message(),
        "inference: Gemma4 layer 1 missing shared kv from 2"
    );
    m.layers[0].k_norm = None;
    assert_eq!(
        m.layers[0].kv_source(0).unwrap_err().message(),
        "inference: missing Gemma4 k_norm"
    );
    m.layers[0].v_proj = None;
    assert_eq!(
        m.layers[0].kv_source(0).unwrap_err().message(),
        "inference: missing Gemma4 v_proj"
    );
    m.layers[0].k_proj = None;
    assert_eq!(
        m.layers[0].kv_source(0).unwrap_err().message(),
        "inference: missing Gemma4 k_proj"
    );
    let plan = m.plan_forward(&[1], 0).unwrap();
    assert!(m.forward(&plan).is_err());
}

#[test]
fn a_gemma_checkpoint_may_have_more_tensors_but_not_fewer() {
    let c = gemma_config();
    let mut t = gemma_tensors(&c);
    one(&mut t, "language_model.extra", &[1]);
    assert!(Gemma4::load(tensor_map(&t), c.clone()).is_ok());
    let name = "language_model.model.layers.3.layer_scalar";
    assert_eq!(
        Gemma4::load(tensor_map(&without(&t, name)), c).unwrap_err().message(),
        format!("model load: missing tensor: {name}")
    );
}

#[test]
fn a_gemma_pass_is_planned() {
    let m = gemma4();
    let p = m.plan_forward(&[3, 4], 5).unwrap();
    assert_eq!(p.span, Span { seq_len: 2, offset: 5, new_end: 7 });
    assert_eq!(p.full_mask, attention_mask(2, 5, None));
    assert_eq!(p.sliding_mask, attention_mask(2, 5, Some(4)));
    assert_eq!(p.per_layer_shape, [2, 5, 32]);
    assert_eq!(p.last_row, 1);
    let p = m.plan_forward(&[3], 3).unwrap();
    assert!(p.full_mask.is_none() && p.sliding_mask.is_none());
    let p = m.plan_forward(&[3], 4).unwrap();
    assert!(p.full_mask.is_none() && p.sliding_mask.is_some());
    assert!(m.plan_forward(&[3], 4096).is_err());
}

#[test]
fn the_steps_of_a_gemma_pass_fit() {
    let m = gemma4();
    assert!(m.check_fits());
    for (tokens, cached) in [(vec![1u32, 2, 3], 0usize), (vec![1], 2), (vec![1, 2], 9)] {
        let n = tokens.len() as i32;
        let plan = m.plan_forward(&tokens, cached).unwrap();
        let mask = [n, n + cached as i32];
        let (g, out) = m.forward(&plan).unwrap();
        assert_eq!(run_shapes(&g, &mask)[out], vec![100]);
        let (g, out) = m.forward_multi(&plan).unwrap();
        assert_eq!(run_shapes(&g, &mask)[out], vec![n, 100]);
        assert_eq!(count(&g, |op| matches!(op, Op::Keep { .. })), 6);
        assert_eq!(count(&g, |op| matches!(op, Op::Softcap { .. })), 1);
        assert_eq!(count(&g, |op| matches!(op, Op::ScaleBy { .. })), 5);
        assert_eq!(
            count(&g, |op| matches!(op, Op::Rope { base: RopeBase::Full, dims: 64, .. })),
            3
        );
        assert_eq!(
            count(&g, |op| matches!(op, Op::Rope { base: RopeBase::Sliding, dims: 32, .. })),
            5
        );
    }
}

#[test]
fn gemma_scales() {
    let m = gemma4();
    let plan = m.plan_forward(&[1], 0).unwrap();
    let (g, _) = m.forward(&plan).unwrap();
    let scales: Vec<Factor> = g
        .ops
        .iter()
        .filter_map(|op| match op {
            Op::Scale { by, .. } => Some(*by),
            _ => None,
        })
        .collect();
    assert_eq!(
        scales,
        vec![
            Factor::Sqrt(64),
            Factor::Sqrt(32),
            Factor::MinusHalfPower(64),
            Factor::MinusHalfPower(2)
        ]
    );
}

#[test]
fn gemma_rope_parameters() {
    let mut c = gemma_config();
    assert_eq!(rope_value(&c, "full_attention", "rope_theta"), None);
    c.rope_parameters =
        Some(serde_json::from_str(r#"{"full_attention":{"rope_theta":1000000.0}}"#).unwrap());
    assert_eq!(
        rope_value(&c, "full_attention", "rope_theta").and_then(|v| v.as_f64()),
        Some(1000000.0)
    );
    assert_eq!(rope_value(&c, "full_attention", "partial_rotary_factor"), None);
    assert_eq!(rope_value(&c, "sliding_attention", "rope_theta"), None);
}

// Granite.

#[test]
fn unsupported_granite_configurations() {
    let c = granite_config();
    assert!(granite::check_supported(&c).is_ok());
    let mut x = c.clone();
    x.tie_word_embeddings = false;
    assert_eq!(
        granite::check_supported(&x).unwrap_err().message(),
        "model load: Granite untied lm_head checkpoints are not supported yet"
    );
    let mut x = c.clone();
    x.position_embedding_type = "rope".to_string();
    assert_eq!(
        granite::check_supported(&x).unwrap_err().message(),
        "model load: Granite position_embedding_type=rope is not supported yet"
    );
    let mut x = c.clone();
    x.mamba_n_groups = Some(2);
    assert_eq!(
        granite::check_supported(&x).unwrap_err().message(),
        "model load: Granite Mamba groups > 1 are not supported yet"
    );
    let t = granite_tensors(&c);
    let mut x = c.clone();
    x.quantization = None;
    assert_eq!(
        Granite::load(tensor_map(&t), x).unwrap_err().message(),
        "model load: only quantized Granite models supported"
    );
    let mut x = c.clone();
    x.layer_types.clear();
    assert_eq!(
        Granite::load(tensor_map(&t), x).unwrap_err().message(),
        "invalid config: Granite config has no layer_types"
    );
    let mut x = c.clone();
    x.layer_types[1] = "conv".to_string();
    assert_eq!(
        Granite::load(tensor_map(&t), x).unwrap_err().message(),
        "invalid config: unsupported Granite layer type: conv"
    );
}

#[test]
fn a_granite_checkpoint_is_loaded() {
    let m = granite_model(granite_config());
    assert_eq!(m.layers.len(), 2);
    match &m.layers[0].block {
        LayerBlock::Mamba(b) => {
            assert_eq!(b.a_log.name, "model.layers.0.mamba.A_log");
            assert_eq!(b.conv_bias.as_ref().unwrap().name, "model.layers.0.mamba.conv1d.bias");
            assert_eq!(
                b.sizes,
                MambaSizes {
                    num_heads: 4,
                    head_dim: 16,
                    state_size: 32,
                    conv_kernel: 4,
                    intermediate: 64,
                    conv_dim: 128
                }
            );
        }
        LayerBlock::Attention(_) => panic!("attention"),
    }
    assert!(matches!(&m.layers[1].block, LayerBlock::Attention(b)
        if b.o_proj.weight.name == "model.layers.1.self_attn.o_proj.weight"));
    assert_eq!(m.layers[0].moe.router.bits, 8);
    assert_eq!((m.layers[0].moe.num_experts, m.layers[0].moe.top_k), (8, 3));
    assert_eq!(m.layers[0].moe.first_chosen(), 5);
    assert_eq!((m.layers[1].shared_mlp.hidden, m.layers[1].moe.switch_mlp.hidden), (96, 128));
}

#[test]
fn granite_defaults() {
    let mut c = granite_config();
    c.mamba_n_heads = None;
    c.mamba_d_head = None;
    c.mamba_d_state = None;
    c.mamba_d_conv = None;
    c.num_local_experts = None;
    c.num_experts_per_tok = None;
    c.shared_intermediate_size = None;
    assert!(granite::check_mamba_sizes(&c));
    let m = granite_model(c.clone());
    match &m.layers[0].block {
        LayerBlock::Mamba(b) => {
            let z = b.sizes;
            assert_eq!((z.num_heads, z.head_dim, z.state_size, z.conv_kernel), (48, 64, 128, 4));
            assert_eq!((z.intermediate, z.conv_dim), (3072, 3328));
            assert!(z.check());
            assert_eq!(z.input_splits(), [3072, 6400]);
            assert_eq!(z.conv_splits(), [3072, 3200]);
            assert_eq!(z.conv_state_shape(), [1, 3, 3328]);
            assert_eq!(z.ssm_state_shape(), [48, 64, 128]);
        }
        LayerBlock::Attention(_) => panic!("attention"),
    }
    assert_eq!((m.layers[0].moe.num_experts, m.layers[0].moe.top_k), (64, 6));
    assert_eq!(m.layers[0].shared_mlp.hidden, 1024);
    c.mamba_d_head = Some(1 << 30);
    assert!(!granite::check_mamba_sizes(&c));
}

#[test]
fn experts_must_be_quantized_alike() {
    let c = granite_config();
    let mut t = granite_tensors(&c);
    for x in t.iter_mut() {
        if x.0 == "model.layers.1.block_sparse_moe.switch_mlp.up_proj.weight" {
            x.1 = vec![8, 128, 64 * 8 / 32];
        }
    }
    assert_eq!(
        Granite::load(tensor_map(&t), c).unwrap_err().message(),
        "model load: cannot concatenate routed projections with different quantization"
    );
}

#[test]
fn a_granite_checkpoint_has_all_its_tensors_and_no_others() {
    let c = granite_config();
    let mut t = granite_tensors(&c);
    let name = "model.layers.0.mamba.dt_bias";
    assert_eq!(
        Granite::load(tensor_map(&without(&t, name)), c.clone()).unwrap_err().message(),
        format!("model load: missing tensor: {name}")
    );
    one(&mut t, "extra", &[1]);
    assert_eq!(
        Granite::load(tensor_map(&t), c).unwrap_err().message(),
        "model load: 1 unmapped tensors remain (first 5: [\"extra\"])"
    );
}

#[test]
fn the_steps_of_a_granite_pass_fit() {
    for bias in [true, false] {
        let mut c = granite_config();
        c.mamba_conv_bias = bias;
        let m = granite_model(c);
        assert!(granite_forward::check_fits(&m));
        let (g, out) = m.forward_one(7, 11).unwrap();
        assert_eq!(run_shapes(&g, &[])[out], vec![100]);
        assert_eq!(count(&g, |op| matches!(op, Op::ConvFused { .. })), bias as usize);
        assert_eq!(count(&g, |op| matches!(op, Op::ConvPlain { .. })), !bias as usize);
        assert_eq!(count(&g, |op| matches!(op, Op::SsmUpdate { layer: 0, .. })), 1);
        assert_eq!(count(&g, |op| matches!(op, Op::Keep { layer: 1, .. })), 2);
        assert_eq!(count(&g, |op| matches!(op, Op::TopIndices { from: 5, .. })), 2);
        assert_eq!(count(&g, |op| matches!(op, Op::Scale { by: Factor::Inverse(_), .. })), 1);
    }
}

#[test]
fn a_granite_pass_needs_room_only_for_attention() {
    let m = granite_model(granite_config());
    assert!(m.forward_one(7, 4095).is_ok());
    assert_eq!(
        m.forward_one(7, 4096).map(|_| ()).unwrap_err().message(),
        "inference: KV cache exhausted: requested 4097 positions, max 4096"
    );
    let mut c = granite_config();
    c.layer_types = texts(&["mamba", "mamba"]);
    let m = granite_model(c);
    assert!(m.forward_one(7, 4096).is_ok());
}

#[test]
fn heads_that_no_layer_has_need_not_fit() {
    let mut c = granite_config();
    c.layer_types = texts(&["mamba", "mamba"]);
    let mut m = granite_model(c);
    m.cfg.num_key_value_heads = Some(0);
    assert!(granite_forward::check_fits(&m));
    let (g, out) = m.forward_one(7, 11).unwrap();
    assert_eq!(run_shapes(&g, &[])[out], vec![100]);
    let mut m = granite_model(granite_config());
    m.cfg.num_key_value_heads = Some(0);
    assert!(!granite_forward::check_fits(&m));
}

#[test]
fn both_granite_passes_carry_out_the_same_steps() {
    let m = granite_model(granite_config());
    let one = m.forward(&[4, 5, 6]).unwrap();
    let every = m.forward_multi(&[4, 5, 6]).unwrap();
    assert_eq!((one.tokens.len(), one.every, every.every), (3, false, true));
    let mut a = granite::KvCache::<u32>::new();
    let mut b = granite::KvCache::<u32>::new();
    for i in 0..3 {
        let (g, x) = one.step(i, a.seq_len).unwrap();
        let (h, y) = every.step(i, b.seq_len).unwrap();
        assert_eq!((format!("{:?}", g.ops), x), (format!("{:?}", h.ops), y));
        a.advance();
        b.advance();
    }
    assert_eq!((a.seq_len, b.seq_len), (3, 3));
}

#[test]
fn granite_needs_a_token() {
    let m = granite_model(granite_config());
    let one = m.forward(&[3, 4]).unwrap();
    assert_eq!((one.tokens, one.every), (vec![3, 4], false));
    let all = m.forward_multi(&[5]).unwrap();
    assert_eq!((all.tokens, all.every), (vec![5], true));
    for none in [m.forward(&[]), m.forward_multi(&[])] {
        assert_eq!(
            none.map(|_| ()).unwrap_err().message(),
            "inference: Granite forward called with no tokens"
        );
    }
}

#[test]
fn a_granite_cache_forgets_its_state_when_rewound() {
    let mut c: granite::KvCache<Vec<i32>> = granite::KvCache::new();
    c.ensure_layers(2);
    c.store(1, vec![1, 2], vec![3, 4]);
    c.store_conv(0, vec![5]);
    c.store_ssm(0, vec![6]);
    c.advance();
    c.advance();
    assert_eq!(c.seq_len, 2);
    c.truncate(2);
    assert_eq!(c.conv[0], Some(vec![5]));
    c.truncate(1);
    assert_eq!(c.k, vec![None, Some(vec![1, 2])]);
    assert_eq!(c.v, vec![None, Some(vec![3, 4])]);
    assert_eq!((&c.conv, &c.ssm), (&vec![None, None], &vec![None, None]));
    assert_eq!(c.seq_len, 1);
    c.reset();
    assert_eq!((c.k.len(), c.conv.len(), c.ssm.len(), c.seq_len), (0, 0, 0, 0));
}

// All of them.

fn load(cfg: ModelConfig, t: &Tensors) -> Architecture<W> {
    Architecture::load(tensor_map(t), cfg).unwrap()
}

fn all_models() -> Vec<Architecture<W>> {
    let (a, b, c) = (config("qwen3"), gemma_config(), granite_config());
    vec![
        load(a.clone(), &qwen3_tensors(&a)),
        load(b.clone(), &gemma_tensors(&b)),
        load(c.clone(), &granite_tensors(&c)),
    ]
}

#[test]
fn architectures_are_told_apart() {
    assert_eq!(check_supported(&config("qwen3")).unwrap(), Family::Qwen3);
    assert_eq!(check_supported(&gemma_config()).unwrap(), Family::Gemma4);
    assert_eq!(check_supported(&granite_config()).unwrap(), Family::Granite);
    assert_eq!(
        check_supported(&config("llama")).unwrap_err().message(),
        "model load: unsupported model_type: llama"
    );
    assert_eq!(
        Architecture::<W>::load(TensorMap::new(), config("llama")).unwrap_err().message(),
        "model load: unsupported model_type: llama"
    );
    assert_eq!(tensor_prefix(Family::Gemma4), "language_model.");
    assert_eq!(tensor_prefix(Family::Qwen3), "");
    assert_eq!(tensor_prefix(Family::Granite), "");
    let tokens: Vec<u32> = all_models().iter().map(|m| m.warmup_token()).collect();
    assert_eq!(tokens, vec![151643, 2, 100257]);
}

#[test]
fn a_cache_belongs_to_an_architecture() {
    let models = all_models();
    for (i, m) in models.iter().enumerate() {
        for (j, n) in models.iter().enumerate() {
            let cache = n.new_cache();
            assert_eq!(cache.seq_len(), 0);
            assert_eq!(m.check_cache(&cache).is_ok(), i == j);
            match m.forward(&[1], &cache) {
                Ok(_) => assert_eq!(i, j),
                Err(e) => {
                    assert_ne!(i, j);
                    assert_eq!(e.message(), "inference: model/cache architecture mismatch");
                }
            }
        }
    }
}

#[test]
fn a_forward_pass_of_each_architecture() {
    for m in all_models() {
        assert!(m.check_fits());
        let cache = m.new_cache();
        match m.forward_multi(&[1, 2], &cache).unwrap() {
            Forward::Whole(p) => {
                assert!(!matches!(m, Architecture::Granite(_)));
                assert_eq!(run_shapes(&p.graph, &[2, 2])[p.logits], vec![2, 100]);
                assert_eq!(p.full_mask, attention_mask(2, 0, None));
                assert_eq!(p.span, span(0, 2));
            }
            Forward::OneByOne(p) => {
                assert_eq!(p.model.layers.len(), 2);
                assert_eq!((p.tokens, p.every), (vec![1, 2], true));
            }
        }
        match m.forward(&[1, 2, 3], &cache).unwrap() {
            Forward::Whole(p) => {
                assert_eq!(run_shapes(&p.graph, &[3, 3])[p.logits], vec![100]);
            }
            Forward::OneByOne(p) => assert_eq!((p.tokens.len(), p.every), (3, false)),
        }
    }
}

#[test]
fn every_cache_is_rewound_and_reset() {
    for m in all_models() {
        let mut c = m.new_cache();
        let array = || W { name: "kv".to_string(), shape: vec![2, 4096, 32] };
        match &mut c {
            ArchitectureCache::Qwen3(k) | ArchitectureCache::Gemma4(k) => {
                k.ensure_layers(1);
                k.store(0, array(), array());
                k.advance(span(0, 5));
            }
            ArchitectureCache::Granite(k) => {
                k.ensure_layers(1);
                k.store(0, array(), array());
                for _ in 0..5 {
                    k.advance();
                }
            }
        }
        assert_eq!(c.seq_len(), 5);
        c.truncate(3);
        assert_eq!(c.seq_len(), 3);
        let kept = match &c {
            ArchitectureCache::Qwen3(k) | ArchitectureCache::Gemma4(k) => &k.k[0],
            ArchitectureCache::Granite(k) => &k.v[0],
        };
        assert_eq!(kept, &Some(array()));
        c.reset();
        assert_eq!(c.seq_len(), 0);
    }
}

#[test]
fn an_exhausted_cache_is_an_error() {
    let c = config("qwen3");
    let m = load(c.clone(), &qwen3_tensors(&c));
    let mut cache = m.new_cache();
    if let ArchitectureCache::Qwen3(k) = &mut cache {
        k.advance(span(0, 4096));
    }
    match m.forward(&[1], &cache) {
        Ok(_) => panic!("room"),
        Err(e) => assert_eq!(
            e.message(),
            "inference: KV cache exhausted: requested 4097 positions, max 4096"
        ),
    }
}

/// Writes rows into a buffer as planned, and reads back what is in use.
fn write_rows(buffer: &mut Vec<u32>, cached: usize, rows: &[u32]) -> Vec<u32> {
    let has_buffer = !buffer.is_empty();
    let span = place_tokens(rows.len(), cached).unwrap();
    let w = plan_write(has_buffer, 2, 32, span);
    if let Some(shape) = w.fresh {
        assert_eq!(shape[1], KV_PREALLOC);
        *buffer = vec![0; KV_PREALLOC as usize];
    }
    let (start, stop) = (w.window.start[1] as usize, w.window.stop[1] as usize);
    assert!(stop <= buffer.len());
    buffer[start..stop].copy_from_slice(rows);
    buffer[..w.read_end as usize].to_vec()
}

#[test]
fn a_rewound_cache_goes_on_as_if_nothing_had_been_fed() {
    let mut one = Vec::new();
    write_rows(&mut one, 0, &[1, 2, 3]);
    write_rows(&mut one, 3, &[4, 5, 6, 7]);
    let after_rewind = write_rows(&mut one, 3, &[8]);
    let mut other = Vec::new();
    write_rows(&mut other, 0, &[1, 2, 3]);
    assert_eq!(after_rewind, write_rows(&mut other, 3, &[8]));
    assert_eq!(after_rewind, vec![1, 2, 3, 8]);
}

#[test]
fn a_pass_behind_a_rewound_cache_is_planned_alike() {
    for m in all_models() {
        if matches!(m, Architecture::Granite(_)) {
            continue;
        }
        let mut rewound = m.new_cache();
        let mut untouched = m.new_cache();
        for c in [&mut rewound, &mut untouched] {
            if let ArchitectureCache::Qwen3(k) | ArchitectureCache::Gemma4(k) = c {
                k.advance(span(0, 3));
            }
        }
        if let ArchitectureCache::Qwen3(k) | ArchitectureCache::Gemma4(k) = &mut rewound {
            k.advance(span(3, 4));
        }
        rewound.truncate(3);
        let plans: Vec<String> = [&rewound, &untouched]
            .iter()
            .map(|c| match m.forward_multi(&[7, 8], c).unwrap() {
                Forward::Whole(p) => format!("{:?} {:?}", p.graph.ops, p.full_mask),
                Forward::OneByOne(_) => panic!("one by one"),
            })
            .collect();
        assert_eq!(plans[0], plans[1]);
    }
}

#[test]
fn a_forward_pass_takes_the_last_row_of_all() {
    for m in all_models() {
        let cache = m.new_cache();
        let one = m.forward(&[1, 2, 3], &cache).unwrap();
        let every = m.forward_multi(&[1, 2, 3], &cache).unwrap();
        match (one, every) {
            (Forward::Whole(p), Forward::Whole(q)) => {
                assert_eq!(p.span, q.span);
                let taken = match &m {
                    Architecture::Qwen3(_) => 2,
                    _ => 0,
                };
                assert!(matches!(&p.graph.ops[p.logits], Op::Row { row, .. } if *row == taken));
                assert!(!matches!(&q.graph.ops[q.logits], Op::Row { .. }));
            }
            (Forward::OneByOne(p), Forward::OneByOne(q)) => {
                assert_eq!(p.tokens, q.tokens);
                assert_eq!((p.every, q.every), (false, true));
            }
            _ => panic!("not alike"),
        }
    }
}

#[test]
fn a_granite_pass_over_two_lists_is_one_over_each() {
    let c = granite_config();
    let m = Granite::load(tensor_map(&granite_tensors(&c)), c).unwrap();
    let shown = |tokens: &[u32], cached: usize| -> Vec<String> {
        let pass = m.forward_multi(tokens).unwrap();
        (0..pass.tokens.len())
            .map(|i| format!("{:?}", pass.step(i, cached + i).unwrap().0.ops))
            .collect()
    };
    let mut both = shown(&[1, 2], 5);
    both.extend(shown(&[3], 7));
    assert_eq!(shown(&[1, 2, 3], 5), both);
    let full = m.forward(&[1]).unwrap();
    assert_eq!(
        full.step(0, 4096).map(|_| ()).unwrap_err().message(),
        "inference: KV cache exhausted: requested 4097 positions, max 4096"
    );
}
