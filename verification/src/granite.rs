//! Granite MoE Hybrid: Mamba2 blocks with attention blocks between them, and
//! behind each a routed and a shared feed-forward network.

use vstd::prelude::*;

use crate::cache;
use crate::cache::{token_ids, widen};
use crate::config::ModelConfig;
use crate::error::{Error, ErrorView};
use crate::tensors::{Tensor, TensorMap};
use crate::text;
use crate::text::{concat2, concat3, decimal_text, same};
use crate::weights;
use crate::weights::{all_used, qlin, rms, take, Draw, Quantized, RmsNorm};

verus! {

/// The sizes of the Mamba blocks.
#[derive(Debug, Clone, Copy, PartialEq, Eq, Structural)]
pub struct MambaSizes {
    pub num_heads: i32,
    pub head_dim: i32,
    pub state_size: i32,
    pub conv_kernel: i32,
    pub intermediate: i32,
    pub conv_dim: i32,
}

/// A Mamba2 block. The weights of the convolution, `a_log` and `d` are as the
/// checkpoint holds them.
#[derive(Debug)]
pub struct MambaMixer<A> {
    pub in_proj: Quantized<A>,
    pub conv_weight: A,
    pub conv_bias: Option<A>,
    pub norm: RmsNorm<A>,
    pub out_proj: Quantized<A>,
    pub dt_bias: A,
    pub a_log: A,
    pub d: A,
    pub sizes: MambaSizes,
}

/// An attention block.
#[derive(Debug)]
pub struct AttentionBlock<A> {
    pub q_proj: Quantized<A>,
    pub k_proj: Quantized<A>,
    pub v_proj: Quantized<A>,
    pub o_proj: Quantized<A>,
}

/// The block that a layer begins with.
#[derive(Debug)]
pub enum LayerBlock<A> {
    Mamba(MambaMixer<A>),
    Attention(AttentionBlock<A>),
}

/// The feed-forward network that every token goes through.
#[derive(Debug)]
pub struct SharedMlp<A> {
    pub input: Quantized<A>,
    pub output: Quantized<A>,
    pub hidden: i32,
}

/// The experts. The first two projections are quantized alike, so that they can
/// be laid side by side.
#[derive(Debug)]
pub struct SwitchGlu<A> {
    pub gate_proj: Quantized<A>,
    pub up_proj: Quantized<A>,
    pub down_proj: Quantized<A>,
    pub hidden: i32,
}

/// The feed-forward network of which a token goes through the `top_k` experts
/// that the router prefers.
#[derive(Debug)]
pub struct Moe<A> {
    pub router: Quantized<A>,
    pub switch_mlp: SwitchGlu<A>,
    pub num_experts: i32,
    pub top_k: i32,
}

/// A layer.
#[derive(Debug)]
pub struct GraniteLayer<A> {
    pub block: LayerBlock<A>,
    pub input_norm: RmsNorm<A>,
    pub post_norm: RmsNorm<A>,
    pub shared_mlp: SharedMlp<A>,
    pub moe: Moe<A>,
}

/// The model. Its embedding matrix is the LM head too.
#[derive(Debug)]
pub struct Granite<A> {
    pub cfg: ModelConfig,
    pub embed: Quantized<A>,
    pub layers: Vec<GraniteLayer<A>>,
    pub norm: RmsNorm<A>,
}

/// `n`, or `default` where it is not given.
pub open spec fn given_or(n: Option<usize>, default: usize) -> usize {
    match n {
        Some(x) => x,
        None => default,
    }
}

fn or_default(n: Option<usize>, default: usize) -> (r: usize)
    ensures
        r == given_or(n, default),
{
    match n {
        Some(x) => x,
        None => default,
    }
}

/// Why a configuration is not supported, if it is not.
pub open spec fn unsupported(cfg: ModelConfig) -> Option<ErrorView> {
    if !cfg.tie_word_embeddings {
        Some(
            ErrorView::ModelLoad("Granite untied lm_head checkpoints are not supported yet"@),
        )
    } else if cfg.position_embedding_type@ != "nope"@ {
        Some(
            ErrorView::ModelLoad(
                "Granite position_embedding_type="@ + cfg.position_embedding_type@
                    + " is not supported yet"@,
            ),
        )
    } else if given_or(cfg.mamba_n_groups, 1) != 1 {
        Some(ErrorView::ModelLoad("Granite Mamba groups > 1 are not supported yet"@))
    } else {
        None
    }
}

/// Checks that a configuration is one that the model supports.
pub fn check_supported(cfg: &ModelConfig) -> (r: Result<(), Error>)
    ensures
        match r {
            Ok(()) => unsupported(*cfg) is None,
            Err(e) => unsupported(*cfg) == Some(e@),
        },
{
    if !cfg.tie_word_embeddings {
        return Err(
            Error::ModelLoad(
                "Granite untied lm_head checkpoints are not supported yet".to_owned(),
            ),
        );
    }
    if !same(cfg.position_embedding_type.as_str(), "nope") {
        return Err(
            Error::ModelLoad(
                concat3(
                    "Granite position_embedding_type=",
                    cfg.position_embedding_type.as_str(),
                    " is not supported yet",
                ),
            ),
        );
    }
    if or_default(cfg.mamba_n_groups, 1) != 1 {
        return Err(
            Error::ModelLoad("Granite Mamba groups > 1 are not supported yet".to_owned()),
        );
    }
    Ok(())
}

/// The width of the inner part of a Mamba block.
pub open spec fn intermediate_of(cfg: ModelConfig) -> int {
    (given_or(cfg.mamba_n_heads, 48) as i32) * (given_or(cfg.mamba_d_head, 64) as i32)
}

/// The width of what a Mamba block's convolution runs over: the inner part, and
/// the two projections onto the state.
pub open spec fn conv_dim_of(cfg: ModelConfig) -> int {
    intermediate_of(cfg) + 2 * (given_or(cfg.mamba_d_state, 128) as i32)
}

/// Whether the widths of the Mamba blocks fit the array library, which counts
/// in `i32`.
pub open spec fn mamba_fits(cfg: ModelConfig) -> bool {
    &&& i32::MIN <= intermediate_of(cfg) <= i32::MAX
    &&& i32::MIN <= 2 * (given_or(cfg.mamba_d_state, 128) as i32) <= i32::MAX
    &&& i32::MIN <= conv_dim_of(cfg) <= i32::MAX
}

/// The sizes of the Mamba blocks.
pub open spec fn sizes_of(cfg: ModelConfig) -> MambaSizes {
    MambaSizes {
        num_heads: given_or(cfg.mamba_n_heads, 48) as i32,
        head_dim: given_or(cfg.mamba_d_head, 64) as i32,
        state_size: given_or(cfg.mamba_d_state, 128) as i32,
        conv_kernel: given_or(cfg.mamba_d_conv, 4) as i32,
        intermediate: intermediate_of(cfg) as i32,
        conv_dim: conv_dim_of(cfg) as i32,
    }
}

/// Whether the widths of the Mamba blocks fit the array library.
pub fn check_mamba_sizes(cfg: &ModelConfig) -> (r: bool)
    ensures
        r == mamba_fits(*cfg),
{
    let heads = or_default(cfg.mamba_n_heads, 48) as i32;
    let dim = or_default(cfg.mamba_d_head, 64) as i32;
    let state = or_default(cfg.mamba_d_state, 128) as i32;
    proof {
        assert(-0x4000_0000_0000_0000 <= heads * dim <= 0x4000_0000_0000_0000)
            by (nonlinear_arith)
            requires
                -0x8000_0000 <= heads <= 0x7fff_ffff,
                -0x8000_0000 <= dim <= 0x7fff_ffff,
        ;
    }
    let inner: i128 = heads as i128 * dim as i128;
    let twice: i128 = 2 * state as i128;
    -0x8000_0000 <= inner && inner <= 0x7fff_ffff && -0x8000_0000 <= twice && twice <= 0x7fff_ffff
        && -0x8000_0000 <= inner + twice && inner + twice <= 0x7fff_ffff
}

fn mamba_sizes(cfg: &ModelConfig) -> (r: MambaSizes)
    requires
        mamba_fits(*cfg),
    ensures
        r == sizes_of(*cfg),
{
    let num_heads = or_default(cfg.mamba_n_heads, 48) as i32;
    let head_dim = or_default(cfg.mamba_d_head, 64) as i32;
    let state_size = or_default(cfg.mamba_d_state, 128) as i32;
    let conv_kernel = or_default(cfg.mamba_d_conv, 4) as i32;
    let intermediate = num_heads * head_dim;
    MambaSizes {
        num_heads,
        head_dim,
        state_size,
        conv_kernel,
        intermediate,
        conv_dim: intermediate + 2 * state_size,
    }
}

/// What the names of a layer's tensors begin with.
pub open spec fn layer_prefix(i: nat) -> Seq<char> {
    "model.layers."@ + text::decimal(i)
}

/// The tensors of a Mamba block are taken.
pub open spec fn mamba_drawn<A>(r: Draw<A>, p: Seq<char>, conv_bias: bool) -> Draw<A> {
    let r = weights::drawn_quantized(r, p + ".mamba.in_proj"@);
    let r = weights::drawn(r, p + ".mamba.conv1d.weight"@);
    let r = weights::drawn_if(conv_bias, r, p + ".mamba.conv1d.bias"@);
    let r = weights::drawn(r, p + ".mamba.norm.weight"@);
    let r = weights::drawn_quantized(r, p + ".mamba.out_proj"@);
    let r = weights::drawn(r, p + ".mamba.dt_bias"@);
    let r = weights::drawn(r, p + ".mamba.A_log"@);
    weights::drawn(r, p + ".mamba.D"@)
}

/// The tensors of an attention block are taken.
pub open spec fn attention_drawn<A>(r: Draw<A>, p: Seq<char>) -> Draw<A> {
    let r = weights::drawn_quantized(r, p + ".self_attn.q_proj"@);
    let r = weights::drawn_quantized(r, p + ".self_attn.k_proj"@);
    let r = weights::drawn_quantized(r, p + ".self_attn.v_proj"@);
    weights::drawn_quantized(r, p + ".self_attn.o_proj"@)
}

/// The tensors of a layer's block are taken, if it is one of the known types.
pub open spec fn block_drawn<A>(
    r: Draw<A>,
    layer_type: Seq<char>,
    p: Seq<char>,
    conv_bias: bool,
) -> Draw<A> {
    if layer_type == "mamba"@ {
        mamba_drawn(r, p, conv_bias)
    } else if layer_type == "attention"@ {
        attention_drawn(r, p)
    } else {
        weights::checked(
            r,
            Some(ErrorView::InvalidConfig("unsupported Granite layer type: "@ + layer_type)),
        )
    }
}

/// Why two projections cannot be laid side by side, if they cannot.
pub open spec fn concat_defect<A>(first: Quantized<A>, second: Quantized<A>) -> Option<ErrorView> {
    if first.group_size != second.group_size || first.bits != second.bits {
        Some(
            ErrorView::ModelLoad(
                "cannot concatenate routed projections with different quantization"@,
            ),
        )
    } else {
        None
    }
}

/// Checks that two projections can be laid side by side: that they are quantized
/// alike.
pub fn check_concat<A>(first: &Quantized<A>, second: &Quantized<A>) -> (r: Result<(), Error>)
    ensures
        match r {
            Ok(()) => concat_defect(*first, *second) is None,
            Err(e) => concat_defect(*first, *second) == Some(e@),
        },
{
    if first.group_size != second.group_size || first.bits != second.bits {
        return Err(
            Error::ModelLoad(
                "cannot concatenate routed projections with different quantization".to_owned(),
            ),
        );
    }
    Ok(())
}

/// The bits and the group size that a configuration gives.
pub open spec fn quantization_of(cfg: ModelConfig) -> (i32, i32) {
    (cfg.quantization.unwrap().bits as i32, cfg.quantization.unwrap().group_size as i32)
}

/// The tensors of a layer's feed-forward networks are taken, if the experts'
/// projections can be laid side by side. `m` are all tensors of the checkpoint.
pub open spec fn mlp_drawn<A>(
    r: Draw<A>,
    m: Map<Seq<char>, Tensor<A>>,
    cfg: ModelConfig,
    p: Seq<char>,
) -> Draw<A> {
    let (bits, group_size) = quantization_of(cfg);
    let gate = p + ".block_sparse_moe.switch_mlp.gate_proj"@;
    let up = p + ".block_sparse_moe.switch_mlp.up_proj"@;
    let r = weights::drawn_quantized(r, p + ".shared_mlp.input_linear"@);
    let r = weights::drawn_quantized(r, p + ".shared_mlp.output_linear"@);
    let r = weights::drawn_quantized(r, p + ".block_sparse_moe.router.layer"@);
    let r = weights::drawn_quantized(r, gate);
    let r = weights::drawn_quantized(r, up);
    let r = weights::checked(
        r,
        concat_defect(
            weights::quantized_of(m, gate, bits, group_size),
            weights::quantized_of(m, up, bits, group_size),
        ),
    );
    weights::drawn_quantized(r, p + ".block_sparse_moe.switch_mlp.down_proj"@)
}

/// The tensors of layer `i` are taken.
#[verifier::opaque]
pub open spec fn layer_drawn<A>(
    r: Draw<A>,
    m: Map<Seq<char>, Tensor<A>>,
    cfg: ModelConfig,
    i: nat,
) -> Draw<A> {
    let p = layer_prefix(i);
    let r = block_drawn(r, cfg.layer_types@[i as int]@, p, cfg.mamba_conv_bias);
    let r = weights::drawn(r, p + ".input_layernorm.weight"@);
    let r = weights::drawn(r, p + ".post_attention_layernorm.weight"@);
    mlp_drawn(r, m, cfg, p)
}

/// What taking a layer leaves.
pub open spec fn one_layer<A>(
    m: Map<Seq<char>, Tensor<A>>,
    cfg: ModelConfig,
) -> spec_fn(Draw<A>, nat) -> Draw<A> {
    |r: Draw<A>, i: nat| layer_drawn(r, m, cfg, i)
}

/// The tensors of the first `n` layers are taken.
pub open spec fn layers_drawn<A>(
    r: Draw<A>,
    m: Map<Seq<char>, Tensor<A>>,
    cfg: ModelConfig,
    n: nat,
) -> Draw<A> {
    weights::drawn_in_turn(r, one_layer(m, cfg), n)
}

/// Behind a failure nothing is taken.
proof fn lemma_nothing_behind_a_failure<A>(
    m: Map<Seq<char>, Tensor<A>>,
    cfg: ModelConfig,
    e: ErrorView,
)
    ensures
        forall|k: nat| #[trigger] one_layer(m, cfg)(weights::failed::<A>(e), k)
            == weights::failed::<A>(e),
{
    reveal(layer_drawn);
}

/// What is wrong with the layer types of a configuration, if there are none.
pub open spec fn types_defect(cfg: ModelConfig) -> Option<ErrorView> {
    if cfg.layer_types@.len() == 0 {
        Some(ErrorView::InvalidConfig("Granite config has no layer_types"@))
    } else {
        None
    }
}

/// The embedding is taken, and the configuration has layers.
pub open spec fn head_drawn<A>(m: Map<Seq<char>, Tensor<A>>, cfg: ModelConfig) -> Draw<A> {
    weights::checked(
        weights::drawn_quantized(weights::left(m), "model.embed_tokens"@),
        types_defect(cfg),
    )
}

/// All tensors of the model are taken.
pub open spec fn model_drawn<A>(m: Map<Seq<char>, Tensor<A>>, cfg: ModelConfig) -> Draw<A> {
    let r = layers_drawn(head_drawn(m, cfg), m, cfg, cfg.layer_types@.len());
    weights::drawn(r, "model.norm.weight"@)
}

/// The Mamba block of a checkpoint whose tensors' names begin with `p`.
pub open spec fn mamba_of<A>(
    m: Map<Seq<char>, Tensor<A>>,
    cfg: ModelConfig,
    p: Seq<char>,
) -> MambaMixer<A> {
    let (bits, group_size) = quantization_of(cfg);
    MambaMixer {
        in_proj: weights::quantized_of(m, p + ".mamba.in_proj"@, bits, group_size),
        conv_weight: m[p + ".mamba.conv1d.weight"@].data,
        conv_bias: if cfg.mamba_conv_bias {
            Some(m[p + ".mamba.conv1d.bias"@].data)
        } else {
            None
        },
        norm: weights::norm_of(m, p + ".mamba.norm.weight"@, cfg.rms_norm_eps),
        out_proj: weights::quantized_of(m, p + ".mamba.out_proj"@, bits, group_size),
        dt_bias: m[p + ".mamba.dt_bias"@].data,
        a_log: m[p + ".mamba.A_log"@].data,
        d: m[p + ".mamba.D"@].data,
        sizes: sizes_of(cfg),
    }
}

/// The attention block of a checkpoint whose tensors' names begin with `p`.
pub open spec fn attention_of<A>(
    m: Map<Seq<char>, Tensor<A>>,
    cfg: ModelConfig,
    p: Seq<char>,
) -> AttentionBlock<A> {
    let (bits, group_size) = quantization_of(cfg);
    AttentionBlock {
        q_proj: weights::quantized_of(m, p + ".self_attn.q_proj"@, bits, group_size),
        k_proj: weights::quantized_of(m, p + ".self_attn.k_proj"@, bits, group_size),
        v_proj: weights::quantized_of(m, p + ".self_attn.v_proj"@, bits, group_size),
        o_proj: weights::quantized_of(m, p + ".self_attn.o_proj"@, bits, group_size),
    }
}

/// The shared feed-forward network of a layer.
pub open spec fn shared_mlp_of<A>(
    m: Map<Seq<char>, Tensor<A>>,
    cfg: ModelConfig,
    p: Seq<char>,
) -> SharedMlp<A> {
    let (bits, group_size) = quantization_of(cfg);
    SharedMlp {
        input: weights::quantized_of(m, p + ".shared_mlp.input_linear"@, bits, group_size),
        output: weights::quantized_of(m, p + ".shared_mlp.output_linear"@, bits, group_size),
        hidden: given_or(cfg.shared_intermediate_size, 1024) as i32,
    }
}

/// The routed feed-forward network of a layer.
pub open spec fn moe_of<A>(
    m: Map<Seq<char>, Tensor<A>>,
    cfg: ModelConfig,
    p: Seq<char>,
) -> Moe<A> {
    let (bits, group_size) = quantization_of(cfg);
    Moe {
        router: weights::quantized_of(
            m,
            p + ".block_sparse_moe.router.layer"@,
            bits,
            group_size,
        ),
        switch_mlp: SwitchGlu {
            gate_proj: weights::quantized_of(
                m,
                p + ".block_sparse_moe.switch_mlp.gate_proj"@,
                bits,
                group_size,
            ),
            up_proj: weights::quantized_of(
                m,
                p + ".block_sparse_moe.switch_mlp.up_proj"@,
                bits,
                group_size,
            ),
            down_proj: weights::quantized_of(
                m,
                p + ".block_sparse_moe.switch_mlp.down_proj"@,
                bits,
                group_size,
            ),
            hidden: cfg.intermediate_size as i32,
        },
        num_experts: given_or(cfg.num_local_experts, 64) as i32,
        top_k: given_or(cfg.num_experts_per_tok, 6) as i32,
    }
}

/// Layer `i` of a checkpoint.
#[verifier::opaque]
pub open spec fn layer_of<A>(
    m: Map<Seq<char>, Tensor<A>>,
    cfg: ModelConfig,
    i: nat,
) -> GraniteLayer<A> {
    let p = layer_prefix(i);
    GraniteLayer {
        block: if cfg.layer_types@[i as int]@ == "mamba"@ {
            LayerBlock::Mamba(mamba_of(m, cfg, p))
        } else {
            LayerBlock::Attention(attention_of(m, cfg, p))
        },
        input_norm: weights::norm_of(m, p + ".input_layernorm.weight"@, cfg.rms_norm_eps),
        post_norm: weights::norm_of(
            m,
            p + ".post_attention_layernorm.weight"@,
            cfg.rms_norm_eps,
        ),
        shared_mlp: shared_mlp_of(m, cfg, p),
        moe: moe_of(m, cfg, p),
    }
}

/// Whether `model` is what a checkpoint with the tensors `m` holds.
pub open spec fn is_model_of<A>(
    model: Granite<A>,
    m: Map<Seq<char>, Tensor<A>>,
    cfg: ModelConfig,
) -> bool {
    let (bits, group_size) = quantization_of(cfg);
    &&& model.cfg == cfg
    &&& model.embed == weights::quantized_of(m, "model.embed_tokens"@, bits, group_size)
    &&& model.layers@.len() == cfg.layer_types@.len()
    &&& forall|i: int|
        0 <= i < model.layers@.len() ==> #[trigger] model.layers@[i] == layer_of(
            m,
            cfg,
            i as nat,
        )
    &&& model.norm == weights::norm_of(m, "model.norm.weight"@, cfg.rms_norm_eps)
}

fn load_mamba<A>(
    map: &mut TensorMap<A>,
    cfg: &ModelConfig,
    p: &str,
    bits: i32,
    group_size: i32,
    all: Ghost<Map<Seq<char>, Tensor<A>>>,
) -> (r: Result<MambaMixer<A>, Error>)
    requires
        old(map)@.submap_of(all@),
        mamba_fits(*cfg),
        (bits, group_size) == quantization_of(*cfg),
    ensures
        final(map)@.submap_of(all@),
        match r {
            Ok(b) => mamba_drawn(weights::left(old(map)@), p@, cfg.mamba_conv_bias)
                == weights::left(final(map)@) && b == mamba_of(all@, *cfg, p@),
            Err(e) => mamba_drawn(weights::left(old(map)@), p@, cfg.mamba_conv_bias)
                == weights::failed::<A>(e@),
        },
{
    let in_proj = qlin(map, p, ".mamba.in_proj", bits, group_size, all)?;
    let conv_weight = take(map, concat2(p, ".mamba.conv1d.weight").as_str(), all)?;
    let conv_bias = if cfg.mamba_conv_bias {
        let t = take(map, concat2(p, ".mamba.conv1d.bias").as_str(), all)?;
        Some(t.data)
    } else {
        None
    };
    let norm = rms(map, p, ".mamba.norm.weight", cfg.rms_norm_eps, all)?;
    let out_proj = qlin(map, p, ".mamba.out_proj", bits, group_size, all)?;
    let dt_bias = take(map, concat2(p, ".mamba.dt_bias").as_str(), all)?;
    let a_log = take(map, concat2(p, ".mamba.A_log").as_str(), all)?;
    let d = take(map, concat2(p, ".mamba.D").as_str(), all)?;
    Ok(
        MambaMixer {
            in_proj,
            conv_weight: conv_weight.data,
            conv_bias,
            norm,
            out_proj,
            dt_bias: dt_bias.data,
            a_log: a_log.data,
            d: d.data,
            sizes: mamba_sizes(cfg),
        },
    )
}

fn load_attention<A>(
    map: &mut TensorMap<A>,
    cfg: &ModelConfig,
    p: &str,
    bits: i32,
    group_size: i32,
    all: Ghost<Map<Seq<char>, Tensor<A>>>,
) -> (r: Result<AttentionBlock<A>, Error>)
    requires
        old(map)@.submap_of(all@),
        (bits, group_size) == quantization_of(*cfg),
    ensures
        final(map)@.submap_of(all@),
        match r {
            Ok(b) => attention_drawn(weights::left(old(map)@), p@) == weights::left(final(map)@)
                && b == attention_of(all@, *cfg, p@),
            Err(e) => attention_drawn(weights::left(old(map)@), p@) == weights::failed::<A>(e@),
        },
{
    let q_proj = qlin(map, p, ".self_attn.q_proj", bits, group_size, all)?;
    let k_proj = qlin(map, p, ".self_attn.k_proj", bits, group_size, all)?;
    let v_proj = qlin(map, p, ".self_attn.v_proj", bits, group_size, all)?;
    let o_proj = qlin(map, p, ".self_attn.o_proj", bits, group_size, all)?;
    Ok(AttentionBlock { q_proj, k_proj, v_proj, o_proj })
}

fn load_mlp<A>(
    map: &mut TensorMap<A>,
    cfg: &ModelConfig,
    p: &str,
    bits: i32,
    group_size: i32,
    all: Ghost<Map<Seq<char>, Tensor<A>>>,
) -> (r: Result<(SharedMlp<A>, Moe<A>), Error>)
    requires
        old(map)@.submap_of(all@),
        (bits, group_size) == quantization_of(*cfg),
    ensures
        final(map)@.submap_of(all@),
        match r {
            Ok(b) => mlp_drawn(weights::left(old(map)@), all@, *cfg, p@) == weights::left(
                final(map)@,
            ) && b.0 == shared_mlp_of(all@, *cfg, p@) && b.1 == moe_of(all@, *cfg, p@),
            Err(e) => mlp_drawn(weights::left(old(map)@), all@, *cfg, p@) == weights::failed::<A>(
                e@,
            ),
        },
{
    let input = qlin(map, p, ".shared_mlp.input_linear", bits, group_size, all)?;
    let output = qlin(map, p, ".shared_mlp.output_linear", bits, group_size, all)?;
    let router = qlin(map, p, ".block_sparse_moe.router.layer", bits, group_size, all)?;
    let gate_proj = qlin(
        map,
        p,
        ".block_sparse_moe.switch_mlp.gate_proj",
        bits,
        group_size,
        all,
    )?;
    let up_proj = qlin(
        map,
        p,
        ".block_sparse_moe.switch_mlp.up_proj",
        bits,
        group_size,
        all,
    )?;
    check_concat(&gate_proj, &up_proj)?;
    let down_proj = qlin(
        map,
        p,
        ".block_sparse_moe.switch_mlp.down_proj",
        bits,
        group_size,
        all,
    )?;
    let shared = SharedMlp {
        input,
        output,
        hidden: or_default(cfg.shared_intermediate_size, 1024) as i32,
    };
    let moe = Moe {
        router,
        switch_mlp: SwitchGlu {
            gate_proj,
            up_proj,
            down_proj,
            hidden: cfg.intermediate_size as i32,
        },
        num_experts: or_default(cfg.num_local_experts, 64) as i32,
        top_k: or_default(cfg.num_experts_per_tok, 6) as i32,
    };
    Ok((shared, moe))
}

fn load_layer<A>(
    map: &mut TensorMap<A>,
    cfg: &ModelConfig,
    i: usize,
    bits: i32,
    group_size: i32,
    all: Ghost<Map<Seq<char>, Tensor<A>>>,
) -> (r: Result<GraniteLayer<A>, Error>)
    requires
        old(map)@.submap_of(all@),
        mamba_fits(*cfg),
        (bits, group_size) == quantization_of(*cfg),
        i < cfg.layer_types@.len(),
    ensures
        final(map)@.submap_of(all@),
        match r {
            Ok(l) => layer_drawn(weights::left(old(map)@), all@, *cfg, i as nat) == weights::left(
                final(map)@,
            ) && l == layer_of(all@, *cfg, i as nat),
            Err(e) => layer_drawn(weights::left(old(map)@), all@, *cfg, i as nat)
                == weights::failed::<A>(e@),
        },
{
    proof {
        reveal(layer_drawn);
        reveal(layer_of);
    }
    let prefix = concat2("model.layers.", decimal_text(i as u64).as_str());
    let p = prefix.as_str();
    let eps = cfg.rms_norm_eps;
    let layer_type = cfg.layer_types[i].as_str();
    let block = if same(layer_type, "mamba") {
        LayerBlock::Mamba(load_mamba(map, cfg, p, bits, group_size, all)?)
    } else if same(layer_type, "attention") {
        LayerBlock::Attention(load_attention(map, cfg, p, bits, group_size, all)?)
    } else {
        return Err(
            Error::InvalidConfig(concat2("unsupported Granite layer type: ", layer_type)),
        );
    };
    let input_norm = rms(map, p, ".input_layernorm.weight", eps, all)?;
    let post_norm = rms(map, p, ".post_attention_layernorm.weight", eps, all)?;
    let (shared_mlp, moe) = load_mlp(map, cfg, p, bits, group_size, all)?;
    Ok(GraniteLayer { block, input_norm, post_norm, shared_mlp, moe })
}

impl<A> Granite<A> {
    /// Builds the model from the tensors of a checkpoint. Every tensor that the
    /// configuration implies must be there, and no other.
    pub fn load(tensors: TensorMap<A>, cfg: ModelConfig) -> (r: Result<Self, Error>)
        requires
            mamba_fits(cfg),
        ensures
            match r {
                Ok(model) => unsupported(cfg) is None && cfg.quantization is Some && model_drawn(
                    tensors@,
                    cfg,
                ) == weights::left(Map::<Seq<char>, Tensor<A>>::empty()) && is_model_of(
                    model,
                    tensors@,
                    cfg,
                ),
                Err(e) => match unsupported(cfg) {
                    Some(x) => e@ == x,
                    None => if cfg.quantization is Some {
                        weights::explains(e@, model_drawn(tensors@, cfg))
                    } else {
                        e@ == ErrorView::ModelLoad("only quantized Granite models supported"@)
                    },
                },
            },
    {
        check_supported(&cfg)?;
        let all: Ghost<Map<Seq<char>, Tensor<A>>> = Ghost(tensors@);
        let mut rest = tensors;
        let q = match cfg.quantization {
            Some(q) => q,
            None => {
                return Err(
                    Error::ModelLoad("only quantized Granite models supported".to_owned()),
                );
            },
        };
        let bits = q.bits as i32;
        let group_size = q.group_size as i32;
        let eps = cfg.rms_norm_eps;
        let n = cfg.layer_types.len();
        let ghost head = head_drawn(all@, cfg);
        proof {
            reveal_strlit("");
            assert("model.embed_tokens"@ + ""@ =~= "model.embed_tokens"@);
            assert("model.norm.weight"@ + ""@ =~= "model.norm.weight"@);
        }

        let embed = match qlin(&mut rest, "model.embed_tokens", "", bits, group_size, all) {
            Ok(embed) => embed,
            Err(e) => {
                proof {
                    lemma_nothing_behind_a_failure(all@, cfg, e@);
                    weights::lemma_failure_stays(head, one_layer(all@, cfg), 0, n as nat, e@);
                }
                return Err(e);
            },
        };
        if n == 0 {
            return Err(Error::InvalidConfig("Granite config has no layer_types".to_owned()));
        }

        let mut layers: Vec<GraniteLayer<A>> = Vec::new();
        let mut i: usize = 0;
        while i < n
            invariant
                i <= n,
                layers@.len() == i,
                rest@.submap_of(all@),
                all@ == tensors@,
                head == head_drawn(all@, cfg),
                layers_drawn(head, all@, cfg, i as nat) == weights::left(rest@),
                forall|j: int|
                    0 <= j < i ==> #[trigger] layers@[j] == layer_of(all@, cfg, j as nat),
                n == cfg.layer_types@.len(),
                cfg.quantization is Some,
                unsupported(cfg) is None,
                mamba_fits(cfg),
                (bits, group_size) == quantization_of(cfg),
            decreases n - i,
        {
            match load_layer(&mut rest, &cfg, i, bits, group_size, all) {
                Ok(layer) => layers.push(layer),
                Err(e) => {
                    proof {
                        lemma_nothing_behind_a_failure(all@, cfg, e@);
                        weights::lemma_failure_stays(
                            head,
                            one_layer(all@, cfg),
                            (i + 1) as nat,
                            n as nat,
                            e@,
                        );
                    }
                    return Err(e);
                },
            }
            i = i + 1;
        }

        let norm = rms(&mut rest, "model.norm.weight", "", eps, all)?;
        all_used(&rest)?;
        Ok(Granite { cfg, embed, layers, norm })
    }
}

proof fn lemma_layers_before_succeeded<A>(
    r: Draw<A>,
    m: Map<Seq<char>, Tensor<A>>,
    cfg: ModelConfig,
    i: nat,
    n: nat,
)
    requires
        i < n,
        layers_drawn(r, m, cfg, n) is Ok,
    ensures
        layers_drawn(r, m, cfg, i + 1) is Ok,
    decreases n,
{
    reveal(layer_drawn);
    if i + 1 < n {
        lemma_layers_before_succeeded(r, m, cfg, i, (n - 1) as nat);
    }
}

/// Every layer of a loaded model is of a known type, and the projections of its
/// experts can be laid side by side.
pub proof fn law_loaded_layers_are_whole<A>(
    model: Granite<A>,
    m: Map<Seq<char>, Tensor<A>>,
    cfg: ModelConfig,
    i: int,
)
    requires
        model_drawn(m, cfg) is Ok,
        is_model_of(model, m, cfg),
        0 <= i < model.layers@.len(),
    ensures
        cfg.layer_types@[i]@ == "mamba"@ || cfg.layer_types@[i]@ == "attention"@,
        model.layers@[i].block is Mamba <==> cfg.layer_types@[i]@ == "mamba"@,
        concat_defect(
            model.layers@[i].moe.switch_mlp.gate_proj,
            model.layers@[i].moe.switch_mlp.up_proj,
        ) is None,
{
    lemma_layers_before_succeeded(
        head_drawn(m, cfg),
        m,
        cfg,
        i as nat,
        cfg.layer_types@.len(),
    );
    reveal(layer_drawn);
    reveal(layer_of);
    assert(model.layers@[i] == layer_of(m, cfg, i as nat));
}

/// The error of a forward pass over no tokens.
pub open spec fn no_tokens() -> ErrorView {
    ErrorView::Inference("Granite forward called with no tokens"@)
}

/// A forward pass over several tokens: one after the other, each by the steps of
/// [`Granite::forward_one`].
#[derive(Debug)]
pub struct TokenByToken<'a, A> {
    pub model: &'a Granite<A>,
    pub tokens: Vec<i32>,
    /// Whether the logits after every token are asked for, or only those after
    /// the last.
    pub every: bool,
}

/// Whether `r` is what a forward pass of `model` over `tokens` comes to.
pub open spec fn is_token_by_token<'a, A>(
    r: Result<TokenByToken<'a, A>, Error>,
    model: Granite<A>,
    tokens: Seq<u32>,
    every: bool,
) -> bool {
    match r {
        Ok(f) => tokens.len() > 0 && *f.model == model && f.tokens@ == tokens.map_values(
            |t: u32| t as i32,
        ) && f.every == every,
        Err(e) => tokens.len() == 0 && e@ == no_tokens(),
    }
}

impl<A> Granite<A> {
    /// A forward pass over `tokens` that gives the logits after the last of them.
    pub fn forward<'a>(&'a self, tokens: &[u32]) -> (r: Result<TokenByToken<'a, A>, Error>)
        ensures
            is_token_by_token(r, *self, tokens@, false),
    {
        self.forward_internal(tokens, false)
    }

    /// A forward pass over `tokens` that gives the logits after each of them.
    pub fn forward_multi<'a>(&'a self, tokens: &[u32]) -> (r: Result<TokenByToken<'a, A>, Error>)
        ensures
            is_token_by_token(r, *self, tokens@, true),
    {
        self.forward_internal(tokens, true)
    }

    fn forward_internal<'a>(&'a self, tokens: &[u32], every: bool) -> (r: Result<
        TokenByToken<'a, A>,
        Error,
    >)
        ensures
            is_token_by_token(r, *self, tokens@, every),
    {
        if tokens.len() == 0 {
            return Err(Error::Inference("Granite forward called with no tokens".to_owned()));
        }
        Ok(TokenByToken { model: self, tokens: token_ids(tokens), every })
    }
}

impl<A> Moe<A> {
    /// Where the experts that a token goes through begin, once all are ordered
    /// by the router's preference.
    pub fn first_chosen(&self) -> (r: i32)
        requires
            i32::MIN <= self.num_experts - self.top_k <= i32::MAX,
        ensures
            r == self.num_experts - self.top_k,
    {
        self.num_experts - self.top_k
    }
}

impl MambaSizes {
    /// Whether the widths belong together, and their sum fits the array library.
    pub open spec fn consistent(self) -> bool {
        &&& self.intermediate == self.num_heads * self.head_dim
        &&& self.conv_dim == self.intermediate + 2 * self.state_size
        &&& i32::MIN <= self.intermediate + self.conv_dim <= i32::MAX
        &&& i32::MIN <= self.intermediate + self.state_size <= i32::MAX
        &&& self.conv_kernel > i32::MIN
    }

    /// Whether the widths belong together, and their sum fits the array library.
    pub fn check(&self) -> (r: bool)
        ensures
            r == self.consistent(),
    {
        proof {
            assert(-0x4000_0000_0000_0000 <= self.num_heads * self.head_dim
                <= 0x4000_0000_0000_0000) by (nonlinear_arith)
                requires
                    -0x8000_0000 <= self.num_heads <= 0x7fff_ffff,
                    -0x8000_0000 <= self.head_dim <= 0x7fff_ffff,
            ;
        }
        let inner: i128 = self.num_heads as i128 * self.head_dim as i128;
        let wide: i64 = self.intermediate as i64 + self.conv_dim as i64;
        let narrow: i64 = self.intermediate as i64 + self.state_size as i64;
        self.intermediate as i128 == inner && self.conv_dim as i64 == self.intermediate as i64 + 2
            * self.state_size as i64 && -0x8000_0000 <= wide && wide <= 0x7fff_ffff && -0x8000_0000
            <= narrow && narrow <= 0x7fff_ffff && self.conv_kernel > i32::MIN
    }

    /// Where the input projection is split: into what gates the output, what the
    /// convolution runs over, and the time steps.
    pub fn input_splits(&self) -> (r: [i32; 2])
        requires
            self.consistent(),
        ensures
            r@ == seq![self.intermediate, (self.intermediate + self.conv_dim) as i32],
    {
        let r = [self.intermediate, self.intermediate + self.conv_dim];
        assert(r@ =~= seq![self.intermediate, (self.intermediate + self.conv_dim) as i32]);
        r
    }

    /// Where the result of the convolution is split: into the inner part and the
    /// two projections onto the state.
    pub fn conv_splits(&self) -> (r: [i32; 2])
        requires
            self.consistent(),
        ensures
            r@ == seq![self.intermediate, (self.intermediate + self.state_size) as i32],
    {
        let r = [self.intermediate, self.intermediate + self.state_size];
        assert(r@ =~= seq![self.intermediate, (self.intermediate + self.state_size) as i32]);
        r
    }

    /// The shape of what a block keeps for its convolution: the last inputs, all
    /// that the kernel covers but the newest.
    pub fn conv_state_shape(&self) -> (r: [i32; 3])
        requires
            self.consistent(),
        ensures
            r@ == seq![1i32, (self.conv_kernel - 1) as i32, self.conv_dim],
    {
        let r = [1, self.conv_kernel - 1, self.conv_dim];
        assert(r@ =~= seq![1i32, (self.conv_kernel - 1) as i32, self.conv_dim]);
        r
    }

    /// The shape of the recurrent state of a block.
    pub fn ssm_state_shape(&self) -> (r: [i32; 3])
        ensures
            r@ == seq![self.num_heads, self.head_dim, self.state_size],
    {
        let r = [self.num_heads, self.head_dim, self.state_size];
        assert(r@ =~= seq![self.num_heads, self.head_dim, self.state_size]);
        r
    }
}

/// The sizes of a loaded model belong together, so long as they fit.
pub proof fn law_loaded_sizes_are_consistent(cfg: ModelConfig)
    requires
        mamba_fits(cfg),
        i32::MIN <= intermediate_of(cfg) + conv_dim_of(cfg) <= i32::MAX,
        i32::MIN <= intermediate_of(cfg) + (given_or(cfg.mamba_d_state, 128) as i32) <= i32::MAX,
        (given_or(cfg.mamba_d_conv, 4) as i32) > i32::MIN,
    ensures
        sizes_of(cfg).consistent(),
{
}

/// The three parts of what comes out of the convolution are as wide as the inner
/// part, the state and the state; and the inner part is as wide as all heads.
pub proof fn law_conv_parts_add_up(s: MambaSizes)
    requires
        s.consistent(),
    ensures
        ({
            let first = s.intermediate as int;
            let second = (s.intermediate + s.state_size) as i32 as int;
            &&& first == s.num_heads * s.head_dim
            &&& second - first == s.state_size
            &&& s.conv_dim - second == s.state_size
        }),
{
}

/// What a model keeps of past tokens: keys and values for the attention blocks,
/// the last inputs of the convolution and the recurrent state for the others.
#[derive(Debug)]
pub struct KvCache<A> {
    pub k: Vec<Option<A>>,
    pub v: Vec<Option<A>>,
    pub conv: Vec<Option<A>>,
    pub ssm: Vec<Option<A>>,
    pub seq_len: usize,
}

/// As many empty slots.
pub open spec fn emptied<A>(slots: Seq<Option<A>>) -> Seq<Option<A>> {
    slots.map_values(|s: Option<A>| None::<A>)
}

fn empty_slots<A>(n: usize) -> (r: Vec<Option<A>>)
    ensures
        r@ == Seq::new(n as nat, |i: int| None::<A>),
{
    let mut out: Vec<Option<A>> = Vec::new();
    while out.len() < n
        invariant
            out@.len() <= n,
            out@ =~= Seq::new(out@.len(), |i: int| None::<A>),
        decreases n - out@.len(),
    {
        out.push(None);
    }
    out
}

impl<A> KvCache<A> {
    /// Whether every layer has a slot of each kind.
    pub open spec fn well_formed(self) -> bool {
        &&& self.k@.len() == self.v@.len()
        &&& self.k@.len() == self.conv@.len()
        &&& self.k@.len() == self.ssm@.len()
    }

    /// An empty cache.
    pub fn new() -> (r: Self)
        ensures
            r.well_formed(),
            r.k@.len() == 0,
            r.seq_len == 0,
    {
        KvCache {
            k: Vec::new(),
            v: Vec::new(),
            conv: Vec::new(),
            ssm: Vec::new(),
            seq_len: 0,
        }
    }

    /// Forgets everything.
    pub fn reset(&mut self)
        ensures
            final(self).well_formed(),
            final(self).k@.len() == 0,
            final(self).seq_len == 0,
    {
        self.k.clear();
        self.v.clear();
        self.conv.clear();
        self.ssm.clear();
        self.seq_len = 0;
    }

    /// Forgets all but the first `target` positions: those behind them are no longer
    /// counted as in use, while the buffers stay what they are. The recurrent state cannot be
    /// taken back, and is forgotten whole. A cache that holds no more than `target`
    /// positions is left as it is.
    pub fn truncate(&mut self, target: usize)
        requires
            old(self).well_formed(),
        ensures
            final(self).well_formed(),
            final(self).k == old(self).k,
            final(self).v == old(self).v,
            if target >= old(self).seq_len {
                *final(self) == *old(self)
            } else {
                &&& final(self).seq_len == target
                &&& final(self).conv@ == emptied(old(self).conv@)
                &&& final(self).ssm@ == emptied(old(self).ssm@)
            },
    {
        if target >= self.seq_len {
            return;
        }
        let conv = empty_slots(self.conv.len());
        let ssm = empty_slots(self.ssm.len());
        assert(conv@ =~= emptied(self.conv@));
        assert(ssm@ =~= emptied(self.ssm@));
        self.conv = conv;
        self.ssm = ssm;
        self.seq_len = target;
    }

    /// Sees to a slot of each kind for each of `layers` layers.
    pub fn ensure_layers(&mut self, layers: usize)
        requires
            old(self).well_formed(),
        ensures
            final(self).well_formed(),
            final(self).seq_len == old(self).seq_len,
            final(self).k@ == cache::widened(old(self).k@, layers as nat),
            final(self).v@ == cache::widened(old(self).v@, layers as nat),
            final(self).conv@ == cache::widened(old(self).conv@, layers as nat),
            final(self).ssm@ == cache::widened(old(self).ssm@, layers as nat),
    {
        if self.k.len() < layers {
            widen(&mut self.k, layers);
            widen(&mut self.v, layers);
            widen(&mut self.conv, layers);
            widen(&mut self.ssm, layers);
        }
    }

    /// Keeps the buffers of an attention block.
    pub fn store(&mut self, layer: usize, k: A, v: A)
        requires
            old(self).well_formed(),
            layer < old(self).k@.len(),
        ensures
            final(self).well_formed(),
            final(self).seq_len == old(self).seq_len,
            final(self).k@ == old(self).k@.update(layer as int, Some(k)),
            final(self).v@ == old(self).v@.update(layer as int, Some(v)),
            final(self).conv == old(self).conv,
            final(self).ssm == old(self).ssm,
    {
        self.k.set(layer, Some(k));
        self.v.set(layer, Some(v));
    }

    /// Keeps the last inputs of the convolution of a block.
    pub fn store_conv(&mut self, layer: usize, state: A)
        requires
            old(self).well_formed(),
            layer < old(self).conv@.len(),
        ensures
            final(self).well_formed(),
            final(self).seq_len == old(self).seq_len,
            final(self).k == old(self).k,
            final(self).v == old(self).v,
            final(self).conv@ == old(self).conv@.update(layer as int, Some(state)),
            final(self).ssm == old(self).ssm,
    {
        self.conv.set(layer, Some(state));
    }

    /// Keeps the recurrent state of a block.
    pub fn store_ssm(&mut self, layer: usize, state: A)
        requires
            old(self).well_formed(),
            layer < old(self).ssm@.len(),
        ensures
            final(self).well_formed(),
            final(self).seq_len == old(self).seq_len,
            final(self).k == old(self).k,
            final(self).v == old(self).v,
            final(self).conv == old(self).conv,
            final(self).ssm@ == old(self).ssm@.update(layer as int, Some(state)),
    {
        self.ssm.set(layer, Some(state));
    }

    /// Ends a pass over one token: its position is in use from now on.
    pub fn advance(&mut self)
        requires
            old(self).seq_len < usize::MAX,
        ensures
            final(self).k == old(self).k,
            final(self).v == old(self).v,
            final(self).conv == old(self).conv,
            final(self).ssm == old(self).ssm,
            final(self).seq_len == old(self).seq_len + 1,
    {
        self.seq_len = self.seq_len + 1;
    }
}

/// Which Granite checkpoints are supported: those that share the embedding with the head,
/// use no position embedding, and whose Mamba blocks have one group, or say nothing of
/// groups.
pub proof fn law_which_checkpoints_are_supported(cfg: ModelConfig)
    ensures
        unsupported(cfg) is None <==> cfg.tie_word_embeddings && cfg.position_embedding_type@
            == "nope"@ && (cfg.mamba_n_groups is None || cfg.mamba_n_groups == Some(1usize)),
{
}

/// Two projections can be laid side by side exactly where they are quantized alike.
pub proof fn law_which_projections_go_side_by_side<A>(first: Quantized<A>, second: Quantized<A>)
    ensures
        concat_defect(first, second) is None <==> first.bits == second.bits && first.group_size
            == second.group_size,
{
}

/// Emptying slots leaves as many, with nothing in them.
pub proof fn law_emptied_slots_hold_nothing<A>(slots: Seq<Option<A>>)
    ensures
        emptied(slots).len() == slots.len(),
        forall|i: int| 0 <= i < slots.len() ==> (#[trigger] emptied(slots)[i]) is None,
{
}

} // verus!
