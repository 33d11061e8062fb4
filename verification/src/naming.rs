//! Under which names the weights of a loaded model stand in its checkpoint.

use vstd::prelude::*;

use crate::config::ModelConfig;
use crate::gemma;
use crate::gemma::{Gemma4, LayerType};
use crate::granite;
use crate::granite::{Granite, LayerBlock};
use crate::qwen3;
use crate::qwen3::Qwen3;
use crate::tensors::Tensor;
use crate::text;
use crate::weights;
use crate::weights::{Draw, Quantized, RmsNorm};

verus! {

/// Whether the three arrays of a matrix are those under its name.
pub open spec fn matrix_at<A>(
    m: Map<Seq<char>, Tensor<A>>,
    name: Seq<char>,
    q: Quantized<A>,
) -> bool {
    &&& q.weight == m[name + ".weight"@].data
    &&& q.scales == m[name + ".scales"@].data
    &&& q.biases == m[name + ".biases"@].data
}

/// Whether the weight of a normalisation is the array under its name.
pub open spec fn norm_at<A>(m: Map<Seq<char>, Tensor<A>>, name: Seq<char>, n: RmsNorm<A>) -> bool {
    n.weight == m[name + ".weight"@].data
}

/// Whether a matrix is quantized as the configuration says.
pub open spec fn quantized_by<A>(cfg: ModelConfig, q: Quantized<A>) -> bool {
    &&& cfg.quantization matches Some(by) && q.bits == by.bits as i32 && q.group_size
        == by.group_size as i32
}

/// Whether a matrix under a name is quantized as its shapes show: the rows of the packed
/// words hold as many bits as there are values, times the bits of each; or as the
/// configuration says, where the shapes show no width that is known.
pub open spec fn quantized_as_shaped<A>(
    m: Map<Seq<char>, Tensor<A>>,
    name: Seq<char>,
    cfg: ModelConfig,
    q: Quantized<A>,
) -> bool {
    let w = m[name + ".weight"@].shape@;
    let s = m[name + ".scales"@].shape@;
    &&& cfg.quantization matches Some(by) && q.group_size == by.group_size as i32 && {
        let shown = |b: int|
            w.len() > 0 && s.len() > 0 && s.last() > 0 && q.group_size > 0 && w.last() * 32 == b
                * (s.last() * q.group_size);
        ||| (q.bits == 2 || q.bits == 3 || q.bits == 4 || q.bits == 6 || q.bits == 8) && shown(
            q.bits as int,
        )
        ||| q.bits == by.bits as i32 && !shown(2) && !shown(3) && !shown(4) && !shown(6) && !shown(
            8,
        )
    }
}

/// Each weight of a loaded Qwen3 model is the one that stands in the checkpoint under the
/// name of its field, and is quantized and normalised as the configuration says.
pub proof fn law_qwen3_weights_stand_under_their_names<A>(
    model: Qwen3<A>,
    m: Map<Seq<char>, Tensor<A>>,
    cfg: ModelConfig,
)
    requires
        cfg.quantization is Some,
        qwen3::is_model_of(model, m, cfg),
    ensures
        model.cfg == cfg,
        model.layers@.len() == cfg.num_hidden_layers,
        matrix_at(m, "model.embed_tokens"@, model.embed),
        quantized_by(cfg, model.embed),
        norm_at(m, "model.norm"@, model.norm),
        model.norm.eps == cfg.rms_norm_eps,
        model.lm_head is None <==> cfg.tie_word_embeddings,
        model.lm_head matches Some(head) ==> matrix_at(m, "lm_head"@, head) && quantized_by(
            cfg,
            head,
        ),
        forall|i: int|
            0 <= i < model.layers@.len() ==> {
                let l = #[trigger] model.layers@[i];
                let p = "model.layers."@ + text::decimal(i as nat);
                &&& norm_at(m, p + ".input_layernorm"@, l.input_norm)
                &&& matrix_at(m, p + ".self_attn.q_proj"@, l.q_proj)
                &&& matrix_at(m, p + ".self_attn.k_proj"@, l.k_proj)
                &&& matrix_at(m, p + ".self_attn.v_proj"@, l.v_proj)
                &&& matrix_at(m, p + ".self_attn.o_proj"@, l.o_proj)
                &&& norm_at(m, p + ".self_attn.q_norm"@, l.q_norm)
                &&& norm_at(m, p + ".self_attn.k_norm"@, l.k_norm)
                &&& norm_at(m, p + ".post_attention_layernorm"@, l.post_attn_norm)
                &&& matrix_at(m, p + ".mlp.gate_proj"@, l.gate_proj)
                &&& matrix_at(m, p + ".mlp.up_proj"@, l.up_proj)
                &&& matrix_at(m, p + ".mlp.down_proj"@, l.down_proj)
                &&& quantized_by(cfg, l.q_proj)
                &&& quantized_by(cfg, l.k_proj)
                &&& quantized_by(cfg, l.v_proj)
                &&& quantized_by(cfg, l.o_proj)
                &&& quantized_by(cfg, l.gate_proj)
                &&& quantized_by(cfg, l.up_proj)
                &&& quantized_by(cfg, l.down_proj)
                &&& l.input_norm.eps == cfg.rms_norm_eps
                &&& l.q_norm.eps == cfg.rms_norm_eps
                &&& l.k_norm.eps == cfg.rms_norm_eps
                &&& l.post_attn_norm.eps == cfg.rms_norm_eps
            },
{
    lemma_weight_names();
}

/// The name of a normalisation, with that of its array.
proof fn lemma_weight_names()
    ensures
        "model.norm"@ + ".weight"@ == "model.norm.weight"@,
        "language_model.model.norm"@ + ".weight"@ == "language_model.model.norm.weight"@,
        "language_model.model.per_layer_projection_norm"@ + ".weight"@
            == "language_model.model.per_layer_projection_norm.weight"@,
        forall|p: Seq<char>| #[trigger]
            (p + ".input_layernorm"@) + ".weight"@ == p + ".input_layernorm.weight"@,
        forall|p: Seq<char>| #[trigger]
            (p + ".self_attn.q_norm"@) + ".weight"@ == p + ".self_attn.q_norm.weight"@,
        forall|p: Seq<char>| #[trigger]
            (p + ".self_attn.k_norm"@) + ".weight"@ == p + ".self_attn.k_norm.weight"@,
        forall|p: Seq<char>| #[trigger]
            (p + ".post_attention_layernorm"@) + ".weight"@ == p
                + ".post_attention_layernorm.weight"@,
        forall|p: Seq<char>| #[trigger]
            (p + ".pre_feedforward_layernorm"@) + ".weight"@ == p
                + ".pre_feedforward_layernorm.weight"@,
        forall|p: Seq<char>| #[trigger]
            (p + ".post_feedforward_layernorm"@) + ".weight"@ == p
                + ".post_feedforward_layernorm.weight"@,
        forall|p: Seq<char>| #[trigger]
            (p + ".post_per_layer_input_norm"@) + ".weight"@ == p
                + ".post_per_layer_input_norm.weight"@,
        forall|p: Seq<char>| #[trigger]
            (p + ".mamba.norm"@) + ".weight"@ == p + ".mamba.norm.weight"@,
{
    reveal_strlit(".weight");
    reveal_strlit("model.norm");
    reveal_strlit("model.norm.weight");
    assert("model.norm"@ + ".weight"@ =~= "model.norm.weight"@);
    reveal_strlit("language_model.model.norm");
    reveal_strlit("language_model.model.norm.weight");
    assert("language_model.model.norm"@ + ".weight"@ =~= "language_model.model.norm.weight"@);
    reveal_strlit("language_model.model.per_layer_projection_norm");
    reveal_strlit("language_model.model.per_layer_projection_norm.weight");
    assert("language_model.model.per_layer_projection_norm"@ + ".weight"@
        =~= "language_model.model.per_layer_projection_norm.weight"@);
    reveal_strlit(".input_layernorm");
    reveal_strlit(".input_layernorm.weight");
    lemma_joined(".input_layernorm"@, ".input_layernorm.weight"@);
    reveal_strlit(".self_attn.q_norm");
    reveal_strlit(".self_attn.q_norm.weight");
    lemma_joined(".self_attn.q_norm"@, ".self_attn.q_norm.weight"@);
    reveal_strlit(".self_attn.k_norm");
    reveal_strlit(".self_attn.k_norm.weight");
    lemma_joined(".self_attn.k_norm"@, ".self_attn.k_norm.weight"@);
    reveal_strlit(".post_attention_layernorm");
    reveal_strlit(".post_attention_layernorm.weight");
    lemma_joined(".post_attention_layernorm"@, ".post_attention_layernorm.weight"@);
    reveal_strlit(".pre_feedforward_layernorm");
    reveal_strlit(".pre_feedforward_layernorm.weight");
    lemma_joined(".pre_feedforward_layernorm"@, ".pre_feedforward_layernorm.weight"@);
    reveal_strlit(".post_feedforward_layernorm");
    reveal_strlit(".post_feedforward_layernorm.weight");
    lemma_joined(".post_feedforward_layernorm"@, ".post_feedforward_layernorm.weight"@);
    reveal_strlit(".post_per_layer_input_norm");
    reveal_strlit(".post_per_layer_input_norm.weight");
    lemma_joined(".post_per_layer_input_norm"@, ".post_per_layer_input_norm.weight"@);
    reveal_strlit(".mamba.norm");
    reveal_strlit(".mamba.norm.weight");
    lemma_joined(".mamba.norm"@, ".mamba.norm.weight"@);
}

proof fn lemma_joined(field: Seq<char>, whole: Seq<char>)
    requires
        field + ".weight"@ =~= whole,
    ensures
        forall|p: Seq<char>| #[trigger] (p + field) + ".weight"@ == p + whole,
{
    assert forall|p: Seq<char>| #[trigger] (p + field) + ".weight"@ == p + whole by {
        assert((p + field) + ".weight"@ =~= p + (field + ".weight"@));
    }
}

/// Whether a matrix is the one under a name, and quantized as its shapes show.
pub open spec fn stands_at<A>(
    m: Map<Seq<char>, Tensor<A>>,
    name: Seq<char>,
    cfg: ModelConfig,
    q: Quantized<A>,
) -> bool {
    matrix_at(m, name, q) && quantized_as_shaped(m, name, cfg, q)
}

/// A size of the configuration, or what it is where not given.
pub open spec fn size_or(n: Option<usize>, default: i32) -> i32 {
    match n {
        Some(n) => n as i32,
        None => default,
    }
}

/// Each weight of a loaded Granite model is the one that stands in the checkpoint under
/// the name of its field, and is quantized as its shapes show; and the sizes are those of
/// the configuration.
pub proof fn law_granite_weights_stand_under_their_names<A>(
    model: Granite<A>,
    m: Map<Seq<char>, Tensor<A>>,
    cfg: ModelConfig,
)
    requires
        cfg.quantization is Some,
        granite::is_model_of(model, m, cfg),
    ensures
        model.cfg == cfg,
        model.layers@.len() == cfg.layer_types@.len(),
        stands_at(m, "model.embed_tokens"@, cfg, model.embed),
        norm_at(m, "model.norm"@, model.norm),
        model.norm.eps == cfg.rms_norm_eps,
        forall|i: int|
            0 <= i < model.layers@.len() ==> {
                let l = #[trigger] model.layers@[i];
                let p = "model.layers."@ + text::decimal(i as nat);
                &&& l.block is Mamba <==> cfg.layer_types@[i]@ == "mamba"@
                &&& l.block matches LayerBlock::Attention(b) ==> {
                    &&& stands_at(m, p + ".self_attn.q_proj"@, cfg, b.q_proj)
                    &&& stands_at(m, p + ".self_attn.k_proj"@, cfg, b.k_proj)
                    &&& stands_at(m, p + ".self_attn.v_proj"@, cfg, b.v_proj)
                    &&& stands_at(m, p + ".self_attn.o_proj"@, cfg, b.o_proj)
                }
                &&& l.block matches LayerBlock::Mamba(b) ==> {
                    &&& stands_at(m, p + ".mamba.in_proj"@, cfg, b.in_proj)
                    &&& stands_at(m, p + ".mamba.out_proj"@, cfg, b.out_proj)
                    &&& norm_at(m, p + ".mamba.norm"@, b.norm)
                    &&& b.norm.eps == cfg.rms_norm_eps
                    &&& b.conv_weight == m[p + ".mamba.conv1d.weight"@].data
                    &&& b.conv_bias is Some <==> cfg.mamba_conv_bias
                    &&& b.conv_bias matches Some(bias) ==> bias == m[p
                        + ".mamba.conv1d.bias"@].data
                    &&& b.dt_bias == m[p + ".mamba.dt_bias"@].data
                    &&& b.a_log == m[p + ".mamba.A_log"@].data
                    &&& b.d == m[p + ".mamba.D"@].data
                    &&& b.sizes.num_heads == size_or(cfg.mamba_n_heads, 48)
                    &&& b.sizes.head_dim == size_or(cfg.mamba_d_head, 64)
                    &&& b.sizes.state_size == size_or(cfg.mamba_d_state, 128)
                    &&& b.sizes.conv_kernel == size_or(cfg.mamba_d_conv, 4)
                }
                &&& norm_at(m, p + ".input_layernorm"@, l.input_norm)
                &&& norm_at(m, p + ".post_attention_layernorm"@, l.post_norm)
                &&& l.input_norm.eps == cfg.rms_norm_eps
                &&& l.post_norm.eps == cfg.rms_norm_eps
                &&& stands_at(m, p + ".shared_mlp.input_linear"@, cfg, l.shared_mlp.input)
                &&& stands_at(m, p + ".shared_mlp.output_linear"@, cfg, l.shared_mlp.output)
                &&& l.shared_mlp.hidden == size_or(cfg.shared_intermediate_size, 1024)
                &&& stands_at(m, p + ".block_sparse_moe.router.layer"@, cfg, l.moe.router)
                &&& stands_at(
                    m,
                    p + ".block_sparse_moe.switch_mlp.gate_proj"@,
                    cfg,
                    l.moe.switch_mlp.gate_proj,
                )
                &&& stands_at(
                    m,
                    p + ".block_sparse_moe.switch_mlp.up_proj"@,
                    cfg,
                    l.moe.switch_mlp.up_proj,
                )
                &&& stands_at(
                    m,
                    p + ".block_sparse_moe.switch_mlp.down_proj"@,
                    cfg,
                    l.moe.switch_mlp.down_proj,
                )
                &&& l.moe.switch_mlp.hidden == cfg.intermediate_size as i32
                &&& l.moe.num_experts == size_or(cfg.num_local_experts, 64)
                &&& l.moe.top_k == size_or(cfg.num_experts_per_tok, 6)
            },
{
    lemma_weight_names();
    reveal(granite::layer_of);
}

/// Each weight of a loaded Gemma 4 model is the one that stands in the checkpoint under
/// the name of its field, and is quantized as its shapes show; the layers that share keys
/// and values have none of their own; and the widths are those of the configuration.
pub proof fn law_gemma_weights_stand_under_their_names<A>(
    model: Gemma4<A>,
    m: Map<Seq<char>, Tensor<A>>,
    cfg: ModelConfig,
)
    requires
        cfg.quantization is Some,
        gemma::is_model_of(model, m, cfg),
        gemma::types_defect(cfg) is None,
    ensures
        model.cfg == cfg,
        model.layers@.len() == cfg.num_hidden_layers,
        stands_at(m, "language_model.model.embed_tokens"@, cfg, model.embed),
        stands_at(m, "language_model.model.embed_tokens_per_layer"@, cfg, model.embed_per_layer),
        stands_at(
            m,
            "language_model.model.per_layer_model_projection"@,
            cfg,
            model.per_layer_model_projection,
        ),
        norm_at(
            m,
            "language_model.model.per_layer_projection_norm"@,
            model.per_layer_projection_norm,
        ),
        norm_at(m, "language_model.model.norm"@, model.norm),
        model.norm.eps == cfg.rms_norm_eps,
        model.per_layer_projection_norm.eps == cfg.rms_norm_eps,
        cfg.hidden_size_per_layer_input == Some(model.hidden_per_layer),
        model.sliding_window == size_or(cfg.sliding_window, 512),
        forall|i: int|
            0 <= i < model.layers@.len() ==> {
                let l = #[trigger] model.layers@[i];
                let p = "language_model.model.layers."@ + text::decimal(i as nat);
                let shared = match cfg.num_kv_shared_layers {
                    Some(n) => i >= cfg.num_hidden_layers - n,
                    None => false,
                };
                &&& l.has_kv <==> !shared
                &&& l.k_proj is Some <==> !shared
                &&& l.v_proj is Some <==> !shared
                &&& l.k_norm is Some <==> !shared
                &&& norm_at(m, p + ".input_layernorm"@, l.input_norm)
                &&& stands_at(m, p + ".self_attn.q_proj"@, cfg, l.q_proj)
                &&& l.k_proj matches Some(w) ==> stands_at(m, p + ".self_attn.k_proj"@, cfg, w)
                &&& l.v_proj matches Some(w) ==> stands_at(m, p + ".self_attn.v_proj"@, cfg, w)
                &&& stands_at(m, p + ".self_attn.o_proj"@, cfg, l.o_proj)
                &&& norm_at(m, p + ".self_attn.q_norm"@, l.q_norm)
                &&& l.k_norm matches Some(n) ==> norm_at(m, p + ".self_attn.k_norm"@, n)
                    && n.eps == cfg.rms_norm_eps
                &&& norm_at(m, p + ".post_attention_layernorm"@, l.post_attn_norm)
                &&& norm_at(m, p + ".pre_feedforward_layernorm"@, l.pre_ffn_norm)
                &&& norm_at(m, p + ".post_feedforward_layernorm"@, l.post_ffn_norm)
                &&& norm_at(m, p + ".post_per_layer_input_norm"@, l.post_per_layer_input_norm)
                &&& stands_at(m, p + ".mlp.gate_proj"@, cfg, l.gate_proj)
                &&& stands_at(m, p + ".mlp.up_proj"@, cfg, l.up_proj)
                &&& stands_at(m, p + ".mlp.down_proj"@, cfg, l.down_proj)
                &&& stands_at(m, p + ".per_layer_input_gate"@, cfg, l.per_layer_input_gate)
                &&& stands_at(m, p + ".per_layer_projection"@, cfg, l.per_layer_projection)
                &&& l.layer_scalar == m[p + ".layer_scalar"@].data
                &&& l.input_norm.eps == cfg.rms_norm_eps
                &&& l.q_norm.eps == cfg.rms_norm_eps
                &&& l.v_norm_eps == cfg.rms_norm_eps
                &&& l.post_attn_norm.eps == cfg.rms_norm_eps
                &&& l.pre_ffn_norm.eps == cfg.rms_norm_eps
                &&& l.post_ffn_norm.eps == cfg.rms_norm_eps
                &&& l.post_per_layer_input_norm.eps == cfg.rms_norm_eps
                &&& l.layer_type == LayerType::Sliding <==> cfg.layer_types@[i]@
                    == "sliding_attention"@
                &&& l.layer_type == LayerType::Full <==> cfg.layer_types@[i]@
                    == "full_attention"@
                &&& l.head_dim == (match (l.layer_type, cfg.global_head_dim) {
                    (LayerType::Full, Some(n)) => n as i32,
                    _ => (match cfg.head_dim {
                        Some(n) => n as i32,
                        None => (cfg.hidden_size / cfg.num_attention_heads) as i32,
                    }),
                })
                &&& l.kv_heads == (match cfg.num_key_value_heads {
                    Some(n) => n as i32,
                    None => cfg.num_attention_heads as i32,
                })
                &&& !shared ==> l.previous_kv == i
            },
{
    lemma_weight_names();
    reveal(gemma::layer_of);
    reveal_strlit("sliding_attention");
    reveal_strlit("full_attention");
    assert("sliding_attention"@.len() != "full_attention"@.len());
    assert forall|i: int| 0 <= i < model.layers@.len() implies (#[trigger] gemma::types_of(cfg)[i]
        == LayerType::Sliding <==> cfg.layer_types@[i]@ == "sliding_attention"@) && (
    gemma::types_of(cfg)[i] == LayerType::Full <==> cfg.layer_types@[i]@ == "full_attention"@) by {
        lemma_supported(text::views(cfg.layer_types@), i);
    }
}

/// Where no name is unsupported, each is a layer type.
proof fn lemma_supported(names: Seq<Seq<char>>, i: int)
    requires
        gemma::first_unsupported(names) is None,
        0 <= i < names.len(),
    ensures
        gemma::layer_type_of(names[i]) is Some,
    decreases names.len(),
{
    if i < names.len() - 1 {
        lemma_supported(names.drop_last(), i);
        assert(names.drop_last()[i] == names[i]);
    }
}

/// Whether the three arrays of a matrix are in a checkpoint.
pub open spec fn has_matrix<A>(m: Map<Seq<char>, Tensor<A>>, name: Seq<char>) -> bool {
    &&& m.contains_key(name + ".weight"@)
    &&& m.contains_key(name + ".scales"@)
    &&& m.contains_key(name + ".biases"@)
}

/// Whether what is left is of a checkpoint, where nothing has failed.
pub open spec fn left_of<A>(r: Draw<A>, m: Map<Seq<char>, Tensor<A>>) -> bool {
    r matches Ok(x) ==> x.submap_of(m)
}

proof fn lemma_taken<A>(r: Draw<A>, key: Seq<char>, m: Map<Seq<char>, Tensor<A>>)
    requires
        left_of(r, m),
    ensures
        left_of(weights::drawn(r, key), m),
        weights::drawn(r, key) is Ok ==> r is Ok && m.contains_key(key),
{
}

proof fn lemma_matrix_taken<A>(r: Draw<A>, name: Seq<char>, m: Map<Seq<char>, Tensor<A>>)
    requires
        left_of(r, m),
    ensures
        left_of(weights::drawn_quantized(r, name), m),
        weights::drawn_quantized(r, name) is Ok ==> r is Ok && has_matrix(m, name),
{
    let a = weights::drawn(r, name + ".weight"@);
    let b = weights::drawn(a, name + ".scales"@);
    lemma_taken(r, name + ".weight"@, m);
    lemma_taken(a, name + ".scales"@, m);
    lemma_taken(b, name + ".biases"@, m);
}

/// Where all layers were taken, each found what it needs.
proof fn lemma_taken_in_turn<A>(
    r: Draw<A>,
    one: spec_fn(Draw<A>, nat) -> Draw<A>,
    needs: spec_fn(nat) -> bool,
    m: Map<Seq<char>, Tensor<A>>,
    n: nat,
)
    requires
        left_of(r, m),
        forall|x: Draw<A>, k: nat|
            left_of(x, m) ==> left_of(#[trigger] one(x, k), m) && (one(x, k) is Ok ==> x is Ok
                && needs(k)),
    ensures
        left_of(weights::drawn_in_turn(r, one, n), m),
        weights::drawn_in_turn(r, one, n) is Ok ==> r is Ok && forall|k: nat|
            k < n ==> #[trigger] needs(k),
    decreases n,
{
    if n > 0 {
        lemma_taken_in_turn(r, one, needs, m, (n - 1) as nat);
        let before = weights::drawn_in_turn(r, one, (n - 1) as nat);
        assert(weights::drawn_in_turn(r, one, n) == one(before, (n - 1) as nat));
    }
}

/// Whether a checkpoint has all weights of a Qwen3 layer.
pub open spec fn has_qwen3_layer<A>(m: Map<Seq<char>, Tensor<A>>, i: nat) -> bool {
    let p = "model.layers."@ + text::decimal(i);
    &&& m.contains_key(p + ".input_layernorm.weight"@)
    &&& has_matrix(m, p + ".self_attn.q_proj"@)
    &&& has_matrix(m, p + ".self_attn.k_proj"@)
    &&& has_matrix(m, p + ".self_attn.v_proj"@)
    &&& m.contains_key(p + ".self_attn.q_norm.weight"@)
    &&& m.contains_key(p + ".self_attn.k_norm.weight"@)
    &&& has_matrix(m, p + ".self_attn.o_proj"@)
    &&& m.contains_key(p + ".post_attention_layernorm.weight"@)
    &&& has_matrix(m, p + ".mlp.gate_proj"@)
    &&& has_matrix(m, p + ".mlp.up_proj"@)
    &&& has_matrix(m, p + ".mlp.down_proj"@)
}

proof fn lemma_qwen3_layer<A>(r: Draw<A>, i: nat, m: Map<Seq<char>, Tensor<A>>)
    requires
        left_of(r, m),
    ensures
        left_of(qwen3::layer_drawn(r, i), m),
        qwen3::layer_drawn(r, i) is Ok ==> r is Ok && has_qwen3_layer(m, i),
{
    let p = "model.layers."@ + text::decimal(i);
    let r1 = weights::drawn(r, p + ".input_layernorm.weight"@);
    lemma_taken(r, p + ".input_layernorm.weight"@, m);
    let r2 = weights::drawn_quantized(r1, p + ".self_attn.q_proj"@);
    lemma_matrix_taken(r1, p + ".self_attn.q_proj"@, m);
    let r3 = weights::drawn_quantized(r2, p + ".self_attn.k_proj"@);
    lemma_matrix_taken(r2, p + ".self_attn.k_proj"@, m);
    let r4 = weights::drawn_quantized(r3, p + ".self_attn.v_proj"@);
    lemma_matrix_taken(r3, p + ".self_attn.v_proj"@, m);
    let r5 = weights::drawn(r4, p + ".self_attn.q_norm.weight"@);
    lemma_taken(r4, p + ".self_attn.q_norm.weight"@, m);
    let r6 = weights::drawn(r5, p + ".self_attn.k_norm.weight"@);
    lemma_taken(r5, p + ".self_attn.k_norm.weight"@, m);
    let r7 = weights::drawn_quantized(r6, p + ".self_attn.o_proj"@);
    lemma_matrix_taken(r6, p + ".self_attn.o_proj"@, m);
    let r8 = weights::drawn(r7, p + ".post_attention_layernorm.weight"@);
    lemma_taken(r7, p + ".post_attention_layernorm.weight"@, m);
    let r9 = weights::drawn_quantized(r8, p + ".mlp.gate_proj"@);
    lemma_matrix_taken(r8, p + ".mlp.gate_proj"@, m);
    let r10 = weights::drawn_quantized(r9, p + ".mlp.up_proj"@);
    lemma_matrix_taken(r9, p + ".mlp.up_proj"@, m);
    let r11 = weights::drawn_quantized(r10, p + ".mlp.down_proj"@);
    lemma_matrix_taken(r10, p + ".mlp.down_proj"@, m);
}

/// A Qwen3 checkpoint that is loaded has each weight that the model holds, under its name.
pub proof fn law_loaded_qwen3_checkpoints_are_whole<A>(
    m: Map<Seq<char>, Tensor<A>>,
    layers: nat,
    tied: bool,
)
    requires
        qwen3::model_drawn(m, layers, tied) is Ok,
    ensures
        has_matrix(m, "model.embed_tokens"@),
        m.contains_key("model.norm.weight"@),
        !tied ==> has_matrix(m, "lm_head"@),
        forall|i: nat| i < layers ==> #[trigger] has_qwen3_layer(m, i),
{
    let r0 = weights::left(m);
    let r1 = weights::drawn_quantized(r0, "model.embed_tokens"@);
    lemma_matrix_taken(r0, "model.embed_tokens"@, m);
    let one = qwen3::one_layer::<A>();
    let needs = |i: nat| has_qwen3_layer(m, i);
    assert forall|x: Draw<A>, k: nat| left_of(x, m) implies left_of(#[trigger] one(x, k), m) && (
    one(x, k) is Ok ==> x is Ok && needs(k)) by {
        lemma_qwen3_layer(x, k, m);
    }
    lemma_taken_in_turn(r1, one, needs, m, layers);
    let r2 = qwen3::layers_drawn(r1, layers);
    let r3 = weights::drawn(r2, "model.norm.weight"@);
    lemma_taken(r2, "model.norm.weight"@, m);
    lemma_matrix_taken(r3, "lm_head"@, m);
    assert forall|i: nat| i < layers implies #[trigger] has_qwen3_layer(m, i) by {
        assert(needs(i));
    }
}

/// Whether a checkpoint has all weights of a Gemma 4 layer, which has keys and values of its
/// own or none.
pub open spec fn has_gemma_layer<A>(m: Map<Seq<char>, Tensor<A>>, i: nat, own: bool) -> bool {
    let p = "language_model.model.layers."@ + text::decimal(i);
    &&& m.contains_key(p + ".input_layernorm.weight"@)
    &&& has_matrix(m, p + ".self_attn.q_proj"@)
    &&& own ==> has_matrix(m, p + ".self_attn.k_proj"@)
    &&& own ==> has_matrix(m, p + ".self_attn.v_proj"@)
    &&& m.contains_key(p + ".self_attn.q_norm.weight"@)
    &&& own ==> m.contains_key(p + ".self_attn.k_norm.weight"@)
    &&& has_matrix(m, p + ".self_attn.o_proj"@)
    &&& m.contains_key(p + ".post_attention_layernorm.weight"@)
    &&& m.contains_key(p + ".pre_feedforward_layernorm.weight"@)
    &&& m.contains_key(p + ".post_feedforward_layernorm.weight"@)
    &&& has_matrix(m, p + ".mlp.gate_proj"@)
    &&& has_matrix(m, p + ".mlp.up_proj"@)
    &&& has_matrix(m, p + ".mlp.down_proj"@)
    &&& has_matrix(m, p + ".per_layer_input_gate"@)
    &&& has_matrix(m, p + ".per_layer_projection"@)
    &&& m.contains_key(p + ".post_per_layer_input_norm.weight"@)
    &&& m.contains_key(p + ".layer_scalar"@)
}

proof fn lemma_gemma_layer<A>(
    r: Draw<A>,
    cfg: ModelConfig,
    i: nat,
    m: Map<Seq<char>, Tensor<A>>,
)
    requires
        left_of(r, m),
    ensures
        left_of(gemma::layer_drawn(r, cfg, i), m),
        gemma::layer_drawn(r, cfg, i) is Ok ==> r is Ok && has_gemma_layer(
            m,
            i,
            i < gemma::first_shared(cfg),
        ),
{
    reveal(gemma::layer_drawn);
    let p = "language_model.model.layers."@ + text::decimal(i);
    let own = i < gemma::first_shared(cfg);
    let r1 = weights::drawn(r, p + ".input_layernorm.weight"@);
    lemma_taken(r, p + ".input_layernorm.weight"@, m);
    let r2 = weights::drawn_quantized(r1, p + ".self_attn.q_proj"@);
    lemma_matrix_taken(r1, p + ".self_attn.q_proj"@, m);
    let r3 = weights::drawn_quantized_if(own, r2, p + ".self_attn.k_proj"@);
    lemma_matrix_taken(r2, p + ".self_attn.k_proj"@, m);
    let r4 = weights::drawn_quantized_if(own, r3, p + ".self_attn.v_proj"@);
    lemma_matrix_taken(r3, p + ".self_attn.v_proj"@, m);
    let r5 = weights::drawn(r4, p + ".self_attn.q_norm.weight"@);
    lemma_taken(r4, p + ".self_attn.q_norm.weight"@, m);
    let r6 = weights::drawn_if(own, r5, p + ".self_attn.k_norm.weight"@);
    lemma_taken(r5, p + ".self_attn.k_norm.weight"@, m);
    let r7 = weights::drawn_quantized(r6, p + ".self_attn.o_proj"@);
    lemma_matrix_taken(r6, p + ".self_attn.o_proj"@, m);
    let r8 = weights::drawn(r7, p + ".post_attention_layernorm.weight"@);
    lemma_taken(r7, p + ".post_attention_layernorm.weight"@, m);
    let r9 = weights::drawn(r8, p + ".pre_feedforward_layernorm.weight"@);
    lemma_taken(r8, p + ".pre_feedforward_layernorm.weight"@, m);
    let r10 = weights::drawn(r9, p + ".post_feedforward_layernorm.weight"@);
    lemma_taken(r9, p + ".post_feedforward_layernorm.weight"@, m);
    let r11 = weights::drawn_quantized(r10, p + ".mlp.gate_proj"@);
    lemma_matrix_taken(r10, p + ".mlp.gate_proj"@, m);
    let r12 = weights::drawn_quantized(r11, p + ".mlp.up_proj"@);
    lemma_matrix_taken(r11, p + ".mlp.up_proj"@, m);
    let r13 = weights::drawn_quantized(r12, p + ".mlp.down_proj"@);
    lemma_matrix_taken(r12, p + ".mlp.down_proj"@, m);
    let r14 = weights::drawn_quantized(r13, p + ".per_layer_input_gate"@);
    lemma_matrix_taken(r13, p + ".per_layer_input_gate"@, m);
    let r15 = weights::drawn_quantized(r14, p + ".per_layer_projection"@);
    lemma_matrix_taken(r14, p + ".per_layer_projection"@, m);
    let r16 = weights::drawn(r15, p + ".post_per_layer_input_norm.weight"@);
    lemma_taken(r15, p + ".post_per_layer_input_norm.weight"@, m);
    let r17 = weights::drawn(r16, p + ".layer_scalar"@);
    lemma_taken(r16, p + ".layer_scalar"@, m);
}

/// A Gemma 4 checkpoint that is loaded has each weight that the model holds, under its
/// name; and the layers that share have none of the keys and values.
pub proof fn law_loaded_gemma_checkpoints_are_whole<A>(
    m: Map<Seq<char>, Tensor<A>>,
    cfg: ModelConfig,
)
    requires
        gemma::model_drawn(m, cfg) is Ok,
    ensures
        has_matrix(m, "language_model.model.embed_tokens"@),
        has_matrix(m, "language_model.model.embed_tokens_per_layer"@),
        has_matrix(m, "language_model.model.per_layer_model_projection"@),
        m.contains_key("language_model.model.per_layer_projection_norm.weight"@),
        m.contains_key("language_model.model.norm.weight"@),
        forall|i: nat|
            #![trigger text::decimal(i)]
            i < cfg.num_hidden_layers ==> has_gemma_layer(
                m,
                i,
                match cfg.num_kv_shared_layers {
                    Some(n) => i < cfg.num_hidden_layers - n,
                    None => true,
                },
            ),
{
    let r0 = weights::left(m);
    let r1 = weights::drawn_quantized(r0, "language_model.model.embed_tokens"@);
    lemma_matrix_taken(r0, "language_model.model.embed_tokens"@, m);
    let r2 = weights::drawn_quantized(r1, "language_model.model.embed_tokens_per_layer"@);
    lemma_matrix_taken(r1, "language_model.model.embed_tokens_per_layer"@, m);
    let r3 = weights::drawn_quantized(r2, "language_model.model.per_layer_model_projection"@);
    lemma_matrix_taken(r2, "language_model.model.per_layer_model_projection"@, m);
    lemma_taken(r3, "language_model.model.per_layer_projection_norm.weight"@, m);
    let head = gemma::head_drawn(m, cfg);
    let one = gemma::one_layer::<A>(cfg);
    let needs = |i: nat| has_gemma_layer(m, i, i < gemma::first_shared(cfg));
    assert forall|x: Draw<A>, k: nat| left_of(x, m) implies left_of(#[trigger] one(x, k), m) && (
    one(x, k) is Ok ==> x is Ok && needs(k)) by {
        lemma_gemma_layer(x, cfg, k, m);
    }
    let n = cfg.num_hidden_layers as nat;
    lemma_taken_in_turn(head, one, needs, m, n);
    lemma_taken(gemma::layers_drawn(head, cfg, n), "language_model.model.norm.weight"@, m);
    assert forall|i: nat|
        #![trigger text::decimal(i)]
        i < cfg.num_hidden_layers implies has_gemma_layer(
        m,
        i,
        match cfg.num_kv_shared_layers {
            Some(n) => i < cfg.num_hidden_layers - n,
            None => true,
        },
    ) by {
        assert(needs(i));
    }
}

/// Whether a checkpoint has all weights of a Mamba block.
pub open spec fn has_mamba<A>(
    m: Map<Seq<char>, Tensor<A>>,
    p: Seq<char>,
    conv_bias: bool,
) -> bool {
    &&& has_matrix(m, p + ".mamba.in_proj"@)
    &&& m.contains_key(p + ".mamba.conv1d.weight"@)
    &&& conv_bias ==> m.contains_key(p + ".mamba.conv1d.bias"@)
    &&& m.contains_key(p + ".mamba.norm.weight"@)
    &&& has_matrix(m, p + ".mamba.out_proj"@)
    &&& m.contains_key(p + ".mamba.dt_bias"@)
    &&& m.contains_key(p + ".mamba.A_log"@)
    &&& m.contains_key(p + ".mamba.D"@)
}

/// Whether a checkpoint has all weights of an attention block.
pub open spec fn has_attention<A>(m: Map<Seq<char>, Tensor<A>>, p: Seq<char>) -> bool {
    &&& has_matrix(m, p + ".self_attn.q_proj"@)
    &&& has_matrix(m, p + ".self_attn.k_proj"@)
    &&& has_matrix(m, p + ".self_attn.v_proj"@)
    &&& has_matrix(m, p + ".self_attn.o_proj"@)
}

/// Whether a checkpoint has all weights of a Granite layer.
pub open spec fn has_granite_layer<A>(
    m: Map<Seq<char>, Tensor<A>>,
    cfg: ModelConfig,
    i: nat,
) -> bool {
    let p = "model.layers."@ + text::decimal(i);
    let kind = cfg.layer_types@[i as int]@;
    &&& kind == "mamba"@ && has_mamba(m, p, cfg.mamba_conv_bias) || kind == "attention"@
        && has_attention(m, p)
    &&& m.contains_key(p + ".input_layernorm.weight"@)
    &&& m.contains_key(p + ".post_attention_layernorm.weight"@)
    &&& has_matrix(m, p + ".shared_mlp.input_linear"@)
    &&& has_matrix(m, p + ".shared_mlp.output_linear"@)
    &&& has_matrix(m, p + ".block_sparse_moe.router.layer"@)
    &&& has_matrix(m, p + ".block_sparse_moe.switch_mlp.gate_proj"@)
    &&& has_matrix(m, p + ".block_sparse_moe.switch_mlp.up_proj"@)
    &&& has_matrix(m, p + ".block_sparse_moe.switch_mlp.down_proj"@)
}

proof fn lemma_mamba<A>(
    r: Draw<A>,
    p: Seq<char>,
    conv_bias: bool,
    m: Map<Seq<char>, Tensor<A>>,
)
    requires
        left_of(r, m),
    ensures
        left_of(granite::mamba_drawn(r, p, conv_bias), m),
        granite::mamba_drawn(r, p, conv_bias) is Ok ==> r is Ok && has_mamba(m, p, conv_bias),
{
    let r1 = weights::drawn_quantized(r, p + ".mamba.in_proj"@);
    lemma_matrix_taken(r, p + ".mamba.in_proj"@, m);
    let r2 = weights::drawn(r1, p + ".mamba.conv1d.weight"@);
    lemma_taken(r1, p + ".mamba.conv1d.weight"@, m);
    let r3 = weights::drawn_if(conv_bias, r2, p + ".mamba.conv1d.bias"@);
    lemma_taken(r2, p + ".mamba.conv1d.bias"@, m);
    let r4 = weights::drawn(r3, p + ".mamba.norm.weight"@);
    lemma_taken(r3, p + ".mamba.norm.weight"@, m);
    let r5 = weights::drawn_quantized(r4, p + ".mamba.out_proj"@);
    lemma_matrix_taken(r4, p + ".mamba.out_proj"@, m);
    let r6 = weights::drawn(r5, p + ".mamba.dt_bias"@);
    lemma_taken(r5, p + ".mamba.dt_bias"@, m);
    let r7 = weights::drawn(r6, p + ".mamba.A_log"@);
    lemma_taken(r6, p + ".mamba.A_log"@, m);
    let r8 = weights::drawn(r7, p + ".mamba.D"@);
    lemma_taken(r7, p + ".mamba.D"@, m);
}

proof fn lemma_attention<A>(r: Draw<A>, p: Seq<char>, m: Map<Seq<char>, Tensor<A>>)
    requires
        left_of(r, m),
    ensures
        left_of(granite::attention_drawn(r, p), m),
        granite::attention_drawn(r, p) is Ok ==> r is Ok && has_attention(m, p),
{
    let r1 = weights::drawn_quantized(r, p + ".self_attn.q_proj"@);
    lemma_matrix_taken(r, p + ".self_attn.q_proj"@, m);
    let r2 = weights::drawn_quantized(r1, p + ".self_attn.k_proj"@);
    lemma_matrix_taken(r1, p + ".self_attn.k_proj"@, m);
    let r3 = weights::drawn_quantized(r2, p + ".self_attn.v_proj"@);
    lemma_matrix_taken(r2, p + ".self_attn.v_proj"@, m);
    let r4 = weights::drawn_quantized(r3, p + ".self_attn.o_proj"@);
    lemma_matrix_taken(r3, p + ".self_attn.o_proj"@, m);
}

proof fn lemma_granite_layer<A>(
    r: Draw<A>,
    cfg: ModelConfig,
    i: nat,
    m: Map<Seq<char>, Tensor<A>>,
)
    requires
        left_of(r, m),
    ensures
        left_of(granite::layer_drawn(r, m, cfg, i), m),
        granite::layer_drawn(r, m, cfg, i) is Ok ==> r is Ok && has_granite_layer(m, cfg, i),
{
    reveal(granite::layer_drawn);
    let p = "model.layers."@ + text::decimal(i);
    let kind = cfg.layer_types@[i as int]@;
    lemma_mamba(r, p, cfg.mamba_conv_bias, m);
    lemma_attention(r, p, m);
    let b = granite::block_drawn(r, kind, p, cfg.mamba_conv_bias);
    assert(left_of(b, m));
    let n1 = weights::drawn(b, p + ".input_layernorm.weight"@);
    lemma_taken(b, p + ".input_layernorm.weight"@, m);
    let n2 = weights::drawn(n1, p + ".post_attention_layernorm.weight"@);
    lemma_taken(n1, p + ".post_attention_layernorm.weight"@, m);
    let r1 = weights::drawn_quantized(n2, p + ".shared_mlp.input_linear"@);
    lemma_matrix_taken(n2, p + ".shared_mlp.input_linear"@, m);
    let r2 = weights::drawn_quantized(r1, p + ".shared_mlp.output_linear"@);
    lemma_matrix_taken(r1, p + ".shared_mlp.output_linear"@, m);
    let r3 = weights::drawn_quantized(r2, p + ".block_sparse_moe.router.layer"@);
    lemma_matrix_taken(r2, p + ".block_sparse_moe.router.layer"@, m);
    let r4 = weights::drawn_quantized(r3, p + ".block_sparse_moe.switch_mlp.gate_proj"@);
    lemma_matrix_taken(r3, p + ".block_sparse_moe.switch_mlp.gate_proj"@, m);
    let r5 = weights::drawn_quantized(r4, p + ".block_sparse_moe.switch_mlp.up_proj"@);
    lemma_matrix_taken(r4, p + ".block_sparse_moe.switch_mlp.up_proj"@, m);
    let (bits, group_size) = granite::quantization_of(cfg);
    let r6 = weights::checked(
        r5,
        granite::concat_defect(
            weights::quantized_of(
                m,
                p + ".block_sparse_moe.switch_mlp.gate_proj"@,
                bits,
                group_size,
            ),
            weights::quantized_of(
                m,
                p + ".block_sparse_moe.switch_mlp.up_proj"@,
                bits,
                group_size,
            ),
        ),
    );
    lemma_matrix_taken(r6, p + ".block_sparse_moe.switch_mlp.down_proj"@, m);
}

/// A Granite checkpoint that is loaded has each weight that the model holds, under its
/// name, and its layers are of the two known types.
pub proof fn law_loaded_granite_checkpoints_are_whole<A>(
    m: Map<Seq<char>, Tensor<A>>,
    cfg: ModelConfig,
)
    requires
        granite::model_drawn(m, cfg) is Ok,
    ensures
        has_matrix(m, "model.embed_tokens"@),
        m.contains_key("model.norm.weight"@),
        cfg.layer_types@.len() > 0,
        forall|i: nat|
            i < cfg.layer_types@.len() ==> #[trigger] has_granite_layer(m, cfg, i),
{
    let r0 = weights::left(m);
    lemma_matrix_taken(r0, "model.embed_tokens"@, m);
    let head = granite::head_drawn(m, cfg);
    let one = granite::one_layer(m, cfg);
    let needs = |i: nat| has_granite_layer(m, cfg, i);
    assert forall|x: Draw<A>, k: nat| left_of(x, m) implies left_of(#[trigger] one(x, k), m) && (
    one(x, k) is Ok ==> x is Ok && needs(k)) by {
        lemma_granite_layer(x, cfg, k, m);
    }
    let n = cfg.layer_types@.len();
    lemma_taken_in_turn(head, one, needs, m, n);
    lemma_taken(granite::layers_drawn(head, m, cfg, n), "model.norm.weight"@, m);
    assert forall|i: nat| i < n implies #[trigger] has_granite_layer(m, cfg, i) by {
        assert(needs(i));
    }
}

} // verus!
