//! Qwen3: a dense transformer with grouped-query attention.

use vstd::prelude::*;

use crate::attention;
use crate::attention::{shapes, Shapes};
use crate::cache;
use crate::cache::{place_tokens, token_ids, Span};
use crate::config::ModelConfig;
use crate::error::{Error, ErrorView};
use crate::float_bits::F32;
use crate::masks;
use crate::masks::{attention_mask, causal_mask};
use crate::tensors::{Tensor, TensorMap};
use crate::text;
use crate::text::{concat2, decimal_text};
use crate::weights;
use crate::weights::{all_used, qlin_as, rms, Draw, Quantized, RmsNorm};

verus! {

/// A block of the transformer.
#[derive(Debug)]
pub struct Qwen3Layer<A> {
    pub input_norm: RmsNorm<A>,
    pub q_proj: Quantized<A>,
    pub k_proj: Quantized<A>,
    pub v_proj: Quantized<A>,
    pub q_norm: RmsNorm<A>,
    pub k_norm: RmsNorm<A>,
    pub o_proj: Quantized<A>,
    pub post_attn_norm: RmsNorm<A>,
    pub gate_proj: Quantized<A>,
    pub up_proj: Quantized<A>,
    pub down_proj: Quantized<A>,
}

/// The model.
#[derive(Debug)]
pub struct Qwen3<A> {
    pub cfg: ModelConfig,
    pub embed: Quantized<A>,
    pub layers: Vec<Qwen3Layer<A>>,
    pub norm: RmsNorm<A>,
    /// Absent where the embedding matrix is the LM head.
    pub lm_head: Option<Quantized<A>>,
}

/// What the names of a block's tensors begin with.
pub open spec fn layer_prefix(i: nat) -> Seq<char> {
    "model.layers."@ + text::decimal(i)
}

/// The tensors of block `i` are taken.
pub open spec fn layer_drawn<A>(r: Draw<A>, i: nat) -> Draw<A> {
    let p = layer_prefix(i);
    let r = weights::drawn(r, p + ".input_layernorm.weight"@);
    let r = weights::drawn_quantized(r, p + ".self_attn.q_proj"@);
    let r = weights::drawn_quantized(r, p + ".self_attn.k_proj"@);
    let r = weights::drawn_quantized(r, p + ".self_attn.v_proj"@);
    let r = weights::drawn(r, p + ".self_attn.q_norm.weight"@);
    let r = weights::drawn(r, p + ".self_attn.k_norm.weight"@);
    let r = weights::drawn_quantized(r, p + ".self_attn.o_proj"@);
    let r = weights::drawn(r, p + ".post_attention_layernorm.weight"@);
    let r = weights::drawn_quantized(r, p + ".mlp.gate_proj"@);
    let r = weights::drawn_quantized(r, p + ".mlp.up_proj"@);
    weights::drawn_quantized(r, p + ".mlp.down_proj"@)
}

/// What taking a layer leaves.
pub open spec fn one_layer<A>() -> spec_fn(Draw<A>, nat) -> Draw<A> {
    |r: Draw<A>, i: nat| layer_drawn(r, i)
}

/// The tensors of the first `n` blocks are taken.
pub open spec fn layers_drawn<A>(r: Draw<A>, n: nat) -> Draw<A> {
    weights::drawn_in_turn(r, one_layer(), n)
}

/// All tensors of the model are taken.
pub open spec fn model_drawn<A>(m: Map<Seq<char>, Tensor<A>>, layers: nat, tied: bool) -> Draw<A> {
    let r = weights::drawn_quantized(weights::left(m), "model.embed_tokens"@);
    let r = layers_drawn(r, layers);
    let r = weights::drawn(r, "model.norm.weight"@);
    weights::drawn_quantized_if(!tied, r, "lm_head"@)
}

/// Block `i` of a checkpoint.
pub open spec fn layer_of<A>(
    m: Map<Seq<char>, Tensor<A>>,
    i: nat,
    bits: i32,
    group_size: i32,
    eps: F32,
) -> Qwen3Layer<A> {
    let p = layer_prefix(i);
    Qwen3Layer {
        input_norm: weights::norm_of(m, p + ".input_layernorm.weight"@, eps),
        q_proj: weights::quantized_as(m, p + ".self_attn.q_proj"@, bits, group_size),
        k_proj: weights::quantized_as(m, p + ".self_attn.k_proj"@, bits, group_size),
        v_proj: weights::quantized_as(m, p + ".self_attn.v_proj"@, bits, group_size),
        q_norm: weights::norm_of(m, p + ".self_attn.q_norm.weight"@, eps),
        k_norm: weights::norm_of(m, p + ".self_attn.k_norm.weight"@, eps),
        o_proj: weights::quantized_as(m, p + ".self_attn.o_proj"@, bits, group_size),
        post_attn_norm: weights::norm_of(m, p + ".post_attention_layernorm.weight"@, eps),
        gate_proj: weights::quantized_as(m, p + ".mlp.gate_proj"@, bits, group_size),
        up_proj: weights::quantized_as(m, p + ".mlp.up_proj"@, bits, group_size),
        down_proj: weights::quantized_as(m, p + ".mlp.down_proj"@, bits, group_size),
    }
}

/// Whether `model` is what a checkpoint with the tensors `m` holds.
pub open spec fn is_model_of<A>(
    model: Qwen3<A>,
    m: Map<Seq<char>, Tensor<A>>,
    cfg: ModelConfig,
) -> bool {
    let bits = cfg.quantization.unwrap().bits as i32;
    let group_size = cfg.quantization.unwrap().group_size as i32;
    let eps = cfg.rms_norm_eps;
    &&& model.cfg == cfg
    &&& model.embed == weights::quantized_as(m, "model.embed_tokens"@, bits, group_size)
    &&& model.layers@.len() == cfg.num_hidden_layers
    &&& forall|i: int|
        0 <= i < model.layers@.len() ==> #[trigger] model.layers@[i] == layer_of(
            m,
            i as nat,
            bits,
            group_size,
            eps,
        )
    &&& model.norm == weights::norm_of(m, "model.norm.weight"@, eps)
    &&& model.lm_head == if cfg.tie_word_embeddings {
        None
    } else {
        Some(weights::quantized_as(m, "lm_head"@, bits, group_size))
    }
}

fn load_layer<A>(
    map: &mut TensorMap<A>,
    i: usize,
    bits: i32,
    group_size: i32,
    eps: F32,
    all: Ghost<Map<Seq<char>, Tensor<A>>>,
) -> (r: Result<Qwen3Layer<A>, Error>)
    requires
        old(map)@.submap_of(all@),
    ensures
        final(map)@.submap_of(all@),
        match r {
            Ok(l) => layer_drawn(weights::left(old(map)@), i as nat) == weights::left(final(map)@)
                && l == layer_of(all@, i as nat, bits, group_size, eps),
            Err(e) => layer_drawn(weights::left(old(map)@), i as nat) == weights::failed::<A>(e@),
        },
{
    let prefix = concat2("model.layers.", decimal_text(i as u64).as_str());
    let p = prefix.as_str();
    let input_norm = rms(map, p, ".input_layernorm.weight", eps, all)?;
    let q_proj = qlin_as(map, p, ".self_attn.q_proj", bits, group_size, all)?;
    let k_proj = qlin_as(map, p, ".self_attn.k_proj", bits, group_size, all)?;
    let v_proj = qlin_as(map, p, ".self_attn.v_proj", bits, group_size, all)?;
    let q_norm = rms(map, p, ".self_attn.q_norm.weight", eps, all)?;
    let k_norm = rms(map, p, ".self_attn.k_norm.weight", eps, all)?;
    let o_proj = qlin_as(map, p, ".self_attn.o_proj", bits, group_size, all)?;
    let post_attn_norm = rms(map, p, ".post_attention_layernorm.weight", eps, all)?;
    let gate_proj = qlin_as(map, p, ".mlp.gate_proj", bits, group_size, all)?;
    let up_proj = qlin_as(map, p, ".mlp.up_proj", bits, group_size, all)?;
    let down_proj = qlin_as(map, p, ".mlp.down_proj", bits, group_size, all)?;
    Ok(
        Qwen3Layer {
            input_norm,
            q_proj,
            k_proj,
            v_proj,
            q_norm,
            k_norm,
            o_proj,
            post_attn_norm,
            gate_proj,
            up_proj,
            down_proj,
        },
    )
}

impl<A> Qwen3<A> {
    /// How many tensors a checkpoint with this configuration has.
    pub open spec fn tensor_count(cfg: ModelConfig) -> int {
        let head: int = if cfg.quantization is Some {
            3
        } else {
            1
        };
        cfg.num_hidden_layers * 25 + 1 + head + if cfg.tie_word_embeddings {
            0
        } else {
            head
        }
    }

    /// How many tensors a checkpoint with this configuration has: in each block
    /// four normalisations and seven quantized matrices, of three tensors each.
    pub fn expected_tensor_count(cfg: &ModelConfig) -> (r: usize)
        requires
            Self::tensor_count(*cfg) <= usize::MAX,
        ensures
            r == Self::tensor_count(*cfg),
    {
        let per_layer: usize = 25;
        let mut global: usize = 2;
        if cfg.quantization.is_some() {
            global = global + 2;
        }
        if !cfg.tie_word_embeddings {
            global = global + if cfg.quantization.is_some() {
                3
            } else {
                1
            };
        }
        cfg.num_hidden_layers * per_layer + global
    }

    /// Builds the model from the tensors of a checkpoint. Every tensor that the
    /// configuration implies must be there, and no other.
    pub fn load(tensors: TensorMap<A>, cfg: ModelConfig) -> (r: Result<Self, Error>)
        ensures
            match r {
                Ok(model) => cfg.quantization is Some && model_drawn(
                    tensors@,
                    cfg.num_hidden_layers as nat,
                    cfg.tie_word_embeddings,
                ) == weights::left(Map::<Seq<char>, Tensor<A>>::empty()) && is_model_of(
                    model,
                    tensors@,
                    cfg,
                ),
                Err(e) => if cfg.quantization is Some {
                    weights::explains(
                        e@,
                        model_drawn(
                            tensors@,
                            cfg.num_hidden_layers as nat,
                            cfg.tie_word_embeddings,
                        ),
                    )
                } else {
                    e@ == ErrorView::ModelLoad("only quantized models supported in v1"@)
                },
            },
    {
        let all: Ghost<Map<Seq<char>, Tensor<A>>> = Ghost(tensors@);
        let mut rest = tensors;
        let q = match cfg.quantization {
            Some(q) => q,
            None => {
                return Err(Error::ModelLoad("only quantized models supported in v1".to_owned()));
            },
        };
        let bits = q.bits as i32;
        let group_size = q.group_size as i32;
        let eps = cfg.rms_norm_eps;
        let n = cfg.num_hidden_layers;
        let ghost start = weights::drawn_quantized(weights::left(all@), "model.embed_tokens"@);

        let embed = match qlin_as(&mut rest, "model.embed_tokens", "", bits, group_size, all) {
            Ok(embed) => embed,
            Err(e) => {
                proof {
                    reveal_strlit("");
                    assert("model.embed_tokens"@ + ""@ =~= "model.embed_tokens"@);
                    weights::lemma_failure_stays(start, one_layer(), 0, n as nat, e@);
                }
                return Err(e);
            },
        };
        proof {
            reveal_strlit("");
            assert("model.embed_tokens"@ + ""@ =~= "model.embed_tokens"@);
            assert("lm_head"@ + ""@ =~= "lm_head"@);
            assert("model.norm.weight"@ + ""@ =~= "model.norm.weight"@);
        }

        let mut layers: Vec<Qwen3Layer<A>> = Vec::new();
        let mut i: usize = 0;
        while i < n
            invariant
                i <= n,
                layers@.len() == i,
                rest@.submap_of(all@),
                start == weights::drawn_quantized(weights::left(all@), "model.embed_tokens"@),
                layers_drawn(start, i as nat) == weights::left(rest@),
                forall|j: int|
                    0 <= j < i ==> #[trigger] layers@[j] == layer_of(
                        all@,
                        j as nat,
                        bits,
                        group_size,
                        eps,
                    ),
                n == cfg.num_hidden_layers,
                all@ == tensors@,
                cfg.quantization is Some,
            decreases n - i,
        {
            match load_layer(&mut rest, i, bits, group_size, eps, all) {
                Ok(layer) => layers.push(layer),
                Err(e) => {
                    proof {
                        weights::lemma_failure_stays(start, one_layer(), (i + 1) as nat, n as nat, e@);
                    }
                    return Err(e);
                },
            }
            i = i + 1;
        }

        let norm = rms(&mut rest, "model.norm.weight", "", eps, all)?;
        let lm_head = if cfg.tie_word_embeddings {
            None
        } else {
            Some(qlin_as(&mut rest, "lm_head", "", bits, group_size, all)?)
        };
        all_used(&rest)?;
        Ok(Qwen3 { cfg, embed, layers, norm, lm_head })
    }
}

proof fn lemma_a_layer_is_twenty_five_tensors<A>(r: Draw<A>, i: nat)
    ensures
        weights::took(r, layer_drawn(r, i), 25),
{
    let p = layer_prefix(i);
    let r1 = weights::drawn(r, p + ".input_layernorm.weight"@);
    let r2 = weights::drawn_quantized(r1, p + ".self_attn.q_proj"@);
    let r3 = weights::drawn_quantized(r2, p + ".self_attn.k_proj"@);
    let r4 = weights::drawn_quantized(r3, p + ".self_attn.v_proj"@);
    let r5 = weights::drawn(r4, p + ".self_attn.q_norm.weight"@);
    let r6 = weights::drawn(r5, p + ".self_attn.k_norm.weight"@);
    let r7 = weights::drawn_quantized(r6, p + ".self_attn.o_proj"@);
    let r8 = weights::drawn(r7, p + ".post_attention_layernorm.weight"@);
    let r9 = weights::drawn_quantized(r8, p + ".mlp.gate_proj"@);
    let r10 = weights::drawn_quantized(r9, p + ".mlp.up_proj"@);
    weights::law_taking_one_leaves_one_less(r, p + ".input_layernorm.weight"@);
    weights::law_a_quantized_matrix_is_three_tensors(r1, p + ".self_attn.q_proj"@);
    weights::law_a_quantized_matrix_is_three_tensors(r2, p + ".self_attn.k_proj"@);
    weights::law_a_quantized_matrix_is_three_tensors(r3, p + ".self_attn.v_proj"@);
    weights::law_taking_one_leaves_one_less(r4, p + ".self_attn.q_norm.weight"@);
    weights::law_taking_one_leaves_one_less(r5, p + ".self_attn.k_norm.weight"@);
    weights::law_a_quantized_matrix_is_three_tensors(r6, p + ".self_attn.o_proj"@);
    weights::law_taking_one_leaves_one_less(r7, p + ".post_attention_layernorm.weight"@);
    weights::law_a_quantized_matrix_is_three_tensors(r8, p + ".mlp.gate_proj"@);
    weights::law_a_quantized_matrix_is_three_tensors(r9, p + ".mlp.up_proj"@);
    weights::law_a_quantized_matrix_is_three_tensors(r10, p + ".mlp.down_proj"@);
}

proof fn lemma_layers_tensors<A>(r: Draw<A>, n: nat)
    ensures
        weights::took(r, layers_drawn(r, n), 25 * n as int),
    decreases n,
{
    if n > 0 {
        lemma_layers_tensors(r, (n - 1) as nat);
        lemma_a_layer_is_twenty_five_tensors(layers_drawn(r, (n - 1) as nat), (n - 1) as nat);
    }
}

/// A checkpoint that loads has exactly as many tensors as its configuration
/// implies.
pub proof fn law_a_checkpoint_that_loads_has_the_expected_tensors<A>(
    m: Map<Seq<char>, Tensor<A>>,
    cfg: ModelConfig,
)
    requires
        m.dom().finite(),
        cfg.quantization is Some,
        model_drawn(m, cfg.num_hidden_layers as nat, cfg.tie_word_embeddings) == weights::left(
            Map::<Seq<char>, Tensor<A>>::empty(),
        ),
    ensures
        m.dom().len() == Qwen3::<A>::tensor_count(cfg),
{
    let n = cfg.num_hidden_layers as nat;
    let r0 = weights::left(m);
    let r1 = weights::drawn_quantized(r0, "model.embed_tokens"@);
    let r2 = layers_drawn(r1, n);
    let r3 = weights::drawn(r2, "model.norm.weight"@);
    weights::law_a_quantized_matrix_is_three_tensors(r0, "model.embed_tokens"@);
    lemma_layers_tensors(r1, n);
    weights::law_taking_one_leaves_one_less(r2, "model.norm.weight"@);
    weights::law_a_quantized_matrix_is_three_tensors(r3, "lm_head"@);
}

/// The shapes and the mask of a forward pass.
#[derive(Debug)]
pub struct ForwardPlan {
    /// How many new tokens there are, and how many are cached.
    pub seq_len: i32,
    pub offset: i32,
    pub token_ids: Vec<i32>,
    pub shapes: Shapes,
    pub head_dim: i32,
    pub kv_heads: i32,
    /// How many attention heads share a key/value head.
    pub repeats: i32,
    /// Which keys each query sees; all of them, where absent.
    pub mask: Option<Vec<Vec<bool>>>,
    /// The row of the logits that predicts the next token.
    pub last_row: i32,
}

impl ForwardPlan {
    /// Whether this is the plan for `tokens` behind `offset` cached ones.
    pub open spec fn is_plan(self, cfg: ModelConfig, tokens: Seq<u32>, offset: int) -> bool {
        &&& self.seq_len == tokens.len()
        &&& self.offset == offset
        &&& self.token_ids@ == tokens.map_values(|t: u32| t as i32)
        &&& self.shapes.are_for(
            tokens.len() as i32,
            cfg.num_attention_heads as i32,
            cfg.kv_heads_spec() as i32,
            cfg.per_head_dim_spec() as i32,
        )
        &&& self.head_dim == cfg.per_head_dim_spec()
        &&& self.kv_heads == cfg.kv_heads_spec()
        &&& self.repeats == cfg.num_attention_heads as int / cfg.kv_heads_spec() as int
        &&& match self.mask {
            Some(rows) => masks::is_mask(rows@, tokens.len() as int, offset, None),
            None => masks::unmasked(tokens.len() as int, offset, None),
        }
        &&& self.last_row == tokens.len() - 1
    }
}

fn plan<A>(model: &Qwen3<A>, tokens: &[u32], offset: i32, mask: Option<Vec<Vec<bool>>>) -> (r:
    ForwardPlan)
    requires
        attention::sizes_fit(model.cfg),
        tokens@.len() <= i32::MAX,
        match mask {
            Some(rows) => masks::is_mask(rows@, tokens@.len() as int, offset as int, None),
            None => masks::unmasked(tokens@.len() as int, offset as int, None),
        },
    ensures
        r.is_plan(model.cfg, tokens@, offset as int),
        r.mask == mask,
{
    let head_dim = model.cfg.per_head_dim() as i32;
    let n_heads = model.cfg.num_attention_heads as i32;
    let kv_heads = model.cfg.kv_heads() as i32;
    let seq_len = tokens.len() as i32;
    ForwardPlan {
        seq_len,
        offset,
        token_ids: token_ids(tokens),
        shapes: shapes(seq_len, n_heads, kv_heads, head_dim),
        head_dim,
        kv_heads,
        repeats: n_heads / kv_heads,
        mask,
        last_row: seq_len - 1,
    }
}

impl<A> Qwen3<A> {
    /// Plans a forward pass over a whole text, with nothing cached. The causal
    /// mask is always there.
    pub fn plan_prefill(&self, tokens: &[u32]) -> (r: ForwardPlan)
        requires
            attention::sizes_fit(self.cfg),
            tokens@.len() <= i32::MAX,
        ensures
            r.is_plan(self.cfg, tokens@, 0),
            r.mask is Some,
    {
        let mask = causal_mask(tokens.len() as i32);
        plan(self, tokens, 0, Some(mask))
    }

    /// Plans a forward pass over new tokens behind `cached` ones.
    pub fn plan_forward(&self, tokens: &[u32], cached: usize) -> (r: Result<
        (Span, ForwardPlan),
        Error,
    >)
        requires
            attention::sizes_fit(self.cfg),
            tokens@.len() + cached <= i32::MAX,
        ensures
            match r {
                Ok(p) => tokens@.len() + cached <= cache::KV_PREALLOC && p.0.well_formed()
                    && p.0.seq_len == tokens@.len() && p.0.offset == cached && p.1.is_plan(
                    self.cfg,
                    tokens@,
                    cached as int,
                ) && p.1.mask is None == masks::unmasked(
                    tokens@.len() as int,
                    cached as int,
                    None,
                ),
                Err(e) => tokens@.len() + cached > cache::KV_PREALLOC && e@ == cache::exhausted(
                    tokens@.len() + cached,
                ),
            },
    {
        let span = place_tokens(tokens.len(), cached)?;
        let mask = attention_mask(span.seq_len, span.offset, None);
        Ok((span, plan(self, tokens, span.offset, mask)))
    }
}

} // verus!
